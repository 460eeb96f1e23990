use vstd::prelude::*;

verus! {

/// Sub-pixel steps per pixel in device coordinates.
pub const SUBPIXEL_STEPS: i64 = 256;

/// Half a pixel, in sub-pixel steps: the offset of a pixel's center.
pub const HALF_PIXEL: i64 = 128;

/// A projected vertex in device space, in fixed point: `SUBPIXEL_STEPS`
/// steps per pixel along each axis.
#[derive(Copy, Clone, Debug, PartialEq, Eq)]
pub struct DevicePoint {
    pub x: i32,
    pub y: i32,
}

/// One covered pixel with the three raw edge-function values at its center.
/// Divided by the triangle's signed area they are its barycentric weights.
#[derive(Copy, Clone, Debug, PartialEq, Eq)]
pub struct Coverage {
    pub x: u32,
    pub y: u32,
    pub w0: i128,
    pub w1: i128,
    pub w2: i128,
}

/// The edge function: twice the signed area of the triangle (a, b, c).
pub open spec fn edge(ax: int, ay: int, bx: int, by: int, cx: int, cy: int) -> int {
    (cx - ax) * (by - ay) - (cy - ay) * (bx - ax)
}

pub open spec fn area_of(a: DevicePoint, b: DevicePoint, c: DevicePoint) -> int {
    edge(a.x as int, a.y as int, b.x as int, b.y as int, c.x as int, c.y as int)
}

/// The center of pixel `i` along one axis, in sub-pixel steps.
pub open spec fn pixel_center(i: int) -> int {
    i * (SUBPIXEL_STEPS as int) + (HALF_PIXEL as int)
}

/// The three edge values of pixel (i, j): against edges v1v2, v2v0 and v0v1.
pub open spec fn weights_at(v0: DevicePoint, v1: DevicePoint, v2: DevicePoint, i: int, j: int) -> (
    int,
    int,
    int,
) {
    let px = pixel_center(i);
    let py = pixel_center(j);
    (
        edge(v1.x as int, v1.y as int, v2.x as int, v2.y as int, px, py),
        edge(v2.x as int, v2.y as int, v0.x as int, v0.y as int, px, py),
        edge(v0.x as int, v0.y as int, v1.x as int, v1.y as int, px, py),
    )
}

/// A pixel is covered when all three of its edge values are non-negative.
pub open spec fn covers(v0: DevicePoint, v1: DevicePoint, v2: DevicePoint, i: int, j: int) -> bool {
    let w = weights_at(v0, v1, v2, i, j);
    w.0 >= 0 && w.1 >= 0 && w.2 >= 0
}

/// A covered pixel as plain numbers: (x, y, w0, w1, w2).
pub open spec fn covered_at(v0: DevicePoint, v1: DevicePoint, v2: DevicePoint, i: int, j: int) -> (
    int,
    int,
    int,
    int,
    int,
) {
    let w = weights_at(v0, v1, v2, i, j);
    (i, j, w.0, w.1, w.2)
}

pub open spec fn coverage_view(c: Coverage) -> (int, int, int, int, int) {
    (c.x as int, c.y as int, c.w0 as int, c.w1 as int, c.w2 as int)
}

/// Covered pixels of column `i` with rows in [y_lo, y_hi), by increasing row.
pub open spec fn column_cover(
    v0: DevicePoint,
    v1: DevicePoint,
    v2: DevicePoint,
    i: int,
    y_lo: int,
    y_hi: int,
) -> Seq<(int, int, int, int, int)>
    decreases y_hi - y_lo,
{
    if y_hi <= y_lo {
        seq![]
    } else {
        let prev = column_cover(v0, v1, v2, i, y_lo, y_hi - 1);
        if covers(v0, v1, v2, i, y_hi - 1) {
            prev.push(covered_at(v0, v1, v2, i, y_hi - 1))
        } else {
            prev
        }
    }
}

/// Covered pixels of the box [x_lo, x_hi) x [y_lo, y_hi), column by column.
pub open spec fn grid_cover(
    v0: DevicePoint,
    v1: DevicePoint,
    v2: DevicePoint,
    x_lo: int,
    x_hi: int,
    y_lo: int,
    y_hi: int,
) -> Seq<(int, int, int, int, int)>
    decreases x_hi - x_lo,
{
    if x_hi <= x_lo {
        seq![]
    } else {
        grid_cover(v0, v1, v2, x_lo, x_hi - 1, y_lo, y_hi) + column_cover(
            v0,
            v1,
            v2,
            x_hi - 1,
            y_lo,
            y_hi,
        )
    }
}

/// The first pixel whose center lies at or after the fixed-point coordinate `v`.
pub open spec fn start_pixel(v: int) -> int {
    (v + HALF_PIXEL as int - 1) / (SUBPIXEL_STEPS as int)
}

/// One past the last pixel whose center lies at or before the fixed-point
/// coordinate `v`.
pub open spec fn end_pixel(v: int) -> int {
    (v + HALF_PIXEL as int) / (SUBPIXEL_STEPS as int)
}

pub open spec fn min3(a: int, b: int, c: int) -> int {
    if a <= b && a <= c {
        a
    } else if b <= c {
        b
    } else {
        c
    }
}

pub open spec fn max3(a: int, b: int, c: int) -> int {
    if a >= b && a >= c {
        a
    } else if b >= c {
        b
    } else {
        c
    }
}

/// First pixel of the bounding range: the first whose center is at or after
/// the minimum, raised to `lower`.
pub open spec fn range_start(a: int, b: int, c: int, lower: int) -> int {
    let m = start_pixel(min3(a, b, c));
    if m < lower {
        lower
    } else {
        m
    }
}

/// End of the bounding range: one past the last pixel whose center is at or
/// before the maximum, cut to [0, `upper`].
pub open spec fn range_end(a: int, b: int, c: int, upper: int) -> int {
    let m = end_pixel(max3(a, b, c));
    if m > upper {
        upper
    } else if m < 0 {
        0
    } else {
        m
    }
}

fn edge_value(ax: i64, ay: i64, bx: i64, by: i64, cx: i64, cy: i64) -> (r: i128)
    requires
        -0x1_0000_0000 <= ax <= 0x1_0000_0000,
        -0x1_0000_0000 <= ay <= 0x1_0000_0000,
        -0x1_0000_0000 <= bx <= 0x1_0000_0000,
        -0x1_0000_0000 <= by <= 0x1_0000_0000,
        -0x1_0000_0000 <= cx <= 0x1_0000_0000,
        -0x1_0000_0000 <= cy <= 0x1_0000_0000,
    ensures
        r == edge(ax as int, ay as int, bx as int, by as int, cx as int, cy as int),
{
    let dx1 = (cx as i128) - (ax as i128);
    let dy1 = (by as i128) - (ay as i128);
    let dy2 = (cy as i128) - (ay as i128);
    let dx2 = (bx as i128) - (ax as i128);
    assert(-0x4_0000_0000_0000_0000 <= dx1 * dy1 <= 0x4_0000_0000_0000_0000) by (nonlinear_arith)
        requires
            -0x2_0000_0000 <= dx1 <= 0x2_0000_0000,
            -0x2_0000_0000 <= dy1 <= 0x2_0000_0000,
    ;
    assert(-0x4_0000_0000_0000_0000 <= dy2 * dx2 <= 0x4_0000_0000_0000_0000) by (nonlinear_arith)
        requires
            -0x2_0000_0000 <= dy2 <= 0x2_0000_0000,
            -0x2_0000_0000 <= dx2 <= 0x2_0000_0000,
    ;
    dx1 * dy1 - dy2 * dx2
}

/// The edge function of the triangle (a, b, c): twice its signed area,
/// positive when c lies clockwise of a->b in a y-up frame.
pub fn triangle_area(a: &DevicePoint, b: &DevicePoint, c: &DevicePoint) -> (r: i128)
    ensures
        r == area_of(*a, *b, *c),
{
    edge_value(a.x as i64, a.y as i64, b.x as i64, b.y as i64, c.x as i64, c.y as i64)
}

fn floor_to_pixel(s: i64) -> (r: i64)
    requires
        s > i64::MIN,
    ensures
        r == s as int / (SUBPIXEL_STEPS as int),
{
    if s >= 0 {
        s / SUBPIXEL_STEPS
    } else {
        let t = -s - 1;
        assert(s as int / (SUBPIXEL_STEPS as int) == -1 - t / SUBPIXEL_STEPS) by (nonlinear_arith)
            requires
                t >= 0,
                s == -t - 1,
        ;
        -1 - t / SUBPIXEL_STEPS
    }
}

/// The pixel range [start, end) of the pixels whose centers lie between the
/// least and the greatest of three fixed-point coordinates: the start raised
/// to `lower_bound`, the end cut to `upper_bound` (and to zero from below).
pub fn get_min_max(a: i32, b: i32, c: i32, upper_bound: u32, lower_bound: u32) -> (r: (u32, u32))
    ensures
        r.0 == range_start(a as int, b as int, c as int, lower_bound as int),
        r.1 == range_end(a as int, b as int, c as int, upper_bound as int),
{
    let lo = if a <= b && a <= c {
        a
    } else if b <= c {
        b
    } else {
        c
    };
    let hi = if a >= b && a >= c {
        a
    } else if b >= c {
        b
    } else {
        c
    };
    let lo_px = floor_to_pixel(lo as i64 + HALF_PIXEL - 1);
    let hi_px = floor_to_pixel(hi as i64 + HALF_PIXEL);
    assert(lo_px <= 0x80_0001 && hi_px <= 0x80_0001);
    let start = if lo_px < lower_bound as i64 {
        lower_bound
    } else {
        lo_px as u32
    };
    let end = if hi_px > upper_bound as i64 {
        upper_bound
    } else if hi_px < 0 {
        0
    } else {
        hi_px as u32
    };
    (start, end)
}

/// The covered pixels of the triangle's clamped bounding box in a
/// `width` x `height` target, column by column.
pub open spec fn triangle_cover(
    v0: DevicePoint,
    v1: DevicePoint,
    v2: DevicePoint,
    width: int,
    height: int,
) -> Seq<(int, int, int, int, int)> {
    grid_cover(
        v0,
        v1,
        v2,
        range_start(v0.x as int, v1.x as int, v2.x as int, 0),
        range_end(v0.x as int, v1.x as int, v2.x as int, width),
        range_start(v0.y as int, v1.y as int, v2.y as int, 0),
        range_end(v0.y as int, v1.y as int, v2.y as int, height),
    )
}

pub open spec fn coverage_views(s: Seq<Coverage>) -> Seq<(int, int, int, int, int)> {
    s.map_values(|c: Coverage| coverage_view(c))
}

/// The pixels covered by the triangle (v0, v1, v2) inside a `width` x `height`
/// target: every pixel of the clamped bounding box whose center gives three
/// non-negative edge values, column by column and row by row within a column.
pub fn cover_triangle(
    v0: &DevicePoint,
    v1: &DevicePoint,
    v2: &DevicePoint,
    width: u32,
    height: u32,
) -> (r: Vec<Coverage>)
    ensures
        coverage_views(r@) == triangle_cover(*v0, *v1, *v2, width as int, height as int),
        forall|k: int|
            0 <= k < r@.len() ==> {
                let c = #[trigger] r@[k];
                &&& c.x < width && c.y < height
                &&& covers(*v0, *v1, *v2, c.x as int, c.y as int)
                &&& coverage_view(c) == covered_at(*v0, *v1, *v2, c.x as int, c.y as int)
            },
        area_of(*v0, *v1, *v2) != 0 ==> forall|i: int, j: int|
            0 <= i < width && 0 <= j < height && covers(*v0, *v1, *v2, i, j) ==> exists|k: int|
                0 <= k < r@.len() && coverage_view(#[trigger] r@[k]) == covered_at(
                    *v0,
                    *v1,
                    *v2,
                    i,
                    j,
                ),
{
    let (x_min, x_max) = get_min_max(v0.x, v1.x, v2.x, width, 0);
    let (y_min, y_max) = get_min_max(v0.y, v1.y, v2.y, height, 0);
    assert(x_max <= 0x80_0000 && y_max <= 0x80_0000);
    let mut fragments: Vec<Coverage> = Vec::new();
    let mut i: u32 = x_min;
    while i < x_max
        invariant
            x_min <= i,
            i <= x_max || i == x_min,
            x_max <= 0x80_0000,
            y_max <= 0x80_0000,
            coverage_views(fragments@) == grid_cover(
                *v0,
                *v1,
                *v2,
                x_min as int,
                i as int,
                y_min as int,
                y_max as int,
            ),
        decreases x_max - i,
    {
        let ghost before = fragments@;
        let mut j: u32 = y_min;
        let px = i as i64 * SUBPIXEL_STEPS + HALF_PIXEL;
        while j < y_max
            invariant
                y_min <= j,
                j <= y_max || j == y_min,
                i < x_max,
                x_max <= 0x80_0000,
                y_max <= 0x80_0000,
                px == pixel_center(i as int),
                coverage_views(fragments@) == coverage_views(before) + column_cover(
                    *v0,
                    *v1,
                    *v2,
                    i as int,
                    y_min as int,
                    j as int,
                ),
            decreases y_max - j,
        {
            let py = j as i64 * SUBPIXEL_STEPS + HALF_PIXEL;
            let w0 = edge_value(v1.x as i64, v1.y as i64, v2.x as i64, v2.y as i64, px, py);
            let w1 = edge_value(v2.x as i64, v2.y as i64, v0.x as i64, v0.y as i64, px, py);
            let w2 = edge_value(v0.x as i64, v0.y as i64, v1.x as i64, v1.y as i64, px, py);
            let ghost prev = fragments@;
            if w0 >= 0 && w1 >= 0 && w2 >= 0 {
                let c = Coverage { x: i, y: j, w0, w1, w2 };
                fragments.push(c);
                assert(coverage_views(fragments@) =~= coverage_views(prev).push(coverage_view(c)));
                assert(coverage_view(c) == covered_at(*v0, *v1, *v2, i as int, j as int));
            }
            assert(column_cover(*v0, *v1, *v2, i as int, y_min as int, j + 1) == {
                let prev_col = column_cover(*v0, *v1, *v2, i as int, y_min as int, j as int);
                if covers(*v0, *v1, *v2, i as int, j as int) {
                    prev_col.push(covered_at(*v0, *v1, *v2, i as int, j as int))
                } else {
                    prev_col
                }
            });
            assert(coverage_views(fragments@) =~= coverage_views(before) + column_cover(
                *v0,
                *v1,
                *v2,
                i as int,
                y_min as int,
                j + 1,
            ));
            j = j + 1;
        }
        assert(column_cover(*v0, *v1, *v2, i as int, y_min as int, j as int) == column_cover(
            *v0,
            *v1,
            *v2,
            i as int,
            y_min as int,
            y_max as int,
        ));
        assert(grid_cover(*v0, *v1, *v2, x_min as int, i + 1, y_min as int, y_max as int)
            == grid_cover(*v0, *v1, *v2, x_min as int, i as int, y_min as int, y_max as int)
            + column_cover(*v0, *v1, *v2, i as int, y_min as int, y_max as int));
        i = i + 1;
    }
    assert(grid_cover(*v0, *v1, *v2, x_min as int, i as int, y_min as int, y_max as int)
        == grid_cover(*v0, *v1, *v2, x_min as int, x_max as int, y_min as int, y_max as int));
    proof {
        let ghost views = coverage_views(fragments@);
        lemma_cover_members(
            *v0,
            *v1,
            *v2,
            x_min as int,
            x_max as int,
            y_min as int,
            y_max as int,
        );
        assert forall|k: int| 0 <= k < fragments@.len() implies {
            let c = #[trigger] fragments@[k];
            &&& c.x < width && c.y < height
            &&& covers(*v0, *v1, *v2, c.x as int, c.y as int)
            &&& coverage_view(c) == covered_at(*v0, *v1, *v2, c.x as int, c.y as int)
        } by {
            assert(views[k] == coverage_view(fragments@[k]));
        }
        if area_of(*v0, *v1, *v2) != 0 {
            assert forall|i: int, j: int|
                0 <= i < width && 0 <= j < height && covers(*v0, *v1, *v2, i, j) implies exists|
                k: int,
            |
                0 <= k < fragments@.len() && coverage_view(#[trigger] fragments@[k]) == covered_at(
                    *v0,
                    *v1,
                    *v2,
                    i,
                    j,
                ) by {
                lemma_cover_complete(*v0, *v1, *v2, width as int, height as int, i, j);
                let k = choose|k: int| 0 <= k < views.len() && views[k] == covered_at(*v0, *v1, *v2, i, j);
                assert(coverage_view(fragments@[k]) == views[k]);
            }
        }
    }
    fragments
}

proof fn lemma_expand(p: int, q: int, r: int, s: int)
    ensures
        (p - q) * (r - s) == p * r - p * s - q * r + q * s,
{
    assert((p - q) * (r - s) == p * r - p * s - q * r + q * s) by (nonlinear_arith);
}

proof fn lemma_edge_sum(ax: int, ay: int, bx: int, by: int, cx: int, cy: int, px: int, py: int)
    ensures
        edge(bx, by, cx, cy, px, py) + edge(cx, cy, ax, ay, px, py) + edge(ax, ay, bx, by, px, py)
            == edge(ax, ay, bx, by, cx, cy),
{
    lemma_expand(px, bx, cy, by);
    lemma_expand(py, by, cx, bx);
    lemma_expand(px, cx, ay, cy);
    lemma_expand(py, cy, ax, cx);
    lemma_expand(px, ax, by, ay);
    lemma_expand(py, ay, bx, ax);
    lemma_expand(cx, ax, by, ay);
    lemma_expand(cy, ay, bx, ax);
}

/// At any pixel the three edge values add up to the triangle's edge function,
/// so divided by a non-zero area the barycentric weights sum to one; at a
/// covered pixel each lies between zero and the area, so each normalized
/// weight lies in [0, 1].
pub proof fn lemma_barycentric(v0: DevicePoint, v1: DevicePoint, v2: DevicePoint, i: int, j: int)
    ensures
        ({
            let w = weights_at(v0, v1, v2, i, j);
            w.0 + w.1 + w.2 == area_of(v0, v1, v2)
        }),
        covers(v0, v1, v2, i, j) ==> {
            let w = weights_at(v0, v1, v2, i, j);
            &&& 0 <= w.0 <= area_of(v0, v1, v2)
            &&& 0 <= w.1 <= area_of(v0, v1, v2)
            &&& 0 <= w.2 <= area_of(v0, v1, v2)
        },
{
    lemma_edge_sum(
        v0.x as int,
        v0.y as int,
        v1.x as int,
        v1.y as int,
        v2.x as int,
        v2.y as int,
        pixel_center(i),
        pixel_center(j),
    );
}

proof fn lemma_column_members(
    v0: DevicePoint,
    v1: DevicePoint,
    v2: DevicePoint,
    i: int,
    y_lo: int,
    y_hi: int,
)
    ensures
        forall|k: int|
            0 <= k < column_cover(v0, v1, v2, i, y_lo, y_hi).len() ==> {
                let e = #[trigger] column_cover(v0, v1, v2, i, y_lo, y_hi)[k];
                &&& y_lo <= e.1 < y_hi
                &&& e.0 == i
                &&& covers(v0, v1, v2, i, e.1)
                &&& e == covered_at(v0, v1, v2, i, e.1)
            },
        forall|j: int|
            y_lo <= j < y_hi && covers(v0, v1, v2, i, j) ==> exists|k: int|
                0 <= k < column_cover(v0, v1, v2, i, y_lo, y_hi).len() && #[trigger] column_cover(
                    v0,
                    v1,
                    v2,
                    i,
                    y_lo,
                    y_hi,
                )[k] == covered_at(v0, v1, v2, i, j),
    decreases y_hi - y_lo,
{
    if y_hi > y_lo {
        lemma_column_members(v0, v1, v2, i, y_lo, y_hi - 1);
        let prev = column_cover(v0, v1, v2, i, y_lo, y_hi - 1);
        let cur = column_cover(v0, v1, v2, i, y_lo, y_hi);
        assert forall|j: int| y_lo <= j < y_hi && covers(v0, v1, v2, i, j) implies exists|k: int|
            0 <= k < cur.len() && #[trigger] cur[k] == covered_at(v0, v1, v2, i, j) by {
            if j < y_hi - 1 {
                let k = choose|k: int| 0 <= k < prev.len() && prev[k] == covered_at(v0, v1, v2, i, j);
                assert(cur[k] == prev[k]);
            } else {
                assert(cur[prev.len() as int] == covered_at(v0, v1, v2, i, j));
            }
        }
    }
}

proof fn lemma_weighted_vertices(ax: int, ay: int, bx: int, by: int, cx: int, cy: int, px: int, py: int)
    ensures
        edge(bx, by, cx, cy, px, py) * ax + edge(cx, cy, ax, ay, px, py) * bx + edge(
            ax,
            ay,
            bx,
            by,
            px,
            py,
        ) * cx == edge(ax, ay, bx, by, cx, cy) * px,
        edge(bx, by, cx, cy, px, py) * ay + edge(cx, cy, ax, ay, px, py) * by + edge(
            ax,
            ay,
            bx,
            by,
            px,
            py,
        ) * cy == edge(ax, ay, bx, by, cx, cy) * py,
{
    let (b_x, b_y, c_x, c_y, p_x, p_y) = (bx - ax, by - ay, cx - ax, cy - ay, px - ax, py - ay);
    let w0 = edge(bx, by, cx, cy, px, py);
    let w1 = edge(cx, cy, ax, ay, px, py);
    let w2 = edge(ax, ay, bx, by, px, py);
    let area = edge(ax, ay, bx, by, cx, cy);
    lemma_edge_sum(ax, ay, bx, by, cx, cy, px, py);
    assert(w1 == c_x * p_y - c_y * p_x) by (nonlinear_arith)
        requires
            w1 == (px - cx) * (ay - cy) - (py - cy) * (ax - cx),
            c_x == cx - ax,
            c_y == cy - ay,
            p_x == px - ax,
            p_y == py - ay,
    ;
    assert(w2 == p_x * b_y - p_y * b_x);
    assert(area == c_x * b_y - c_y * b_x);
    assert(w1 * b_x + w2 * c_x == area * p_x) by (nonlinear_arith)
        requires
            w1 == c_x * p_y - c_y * p_x,
            w2 == p_x * b_y - p_y * b_x,
            area == c_x * b_y - c_y * b_x,
    ;
    assert(w1 * b_y + w2 * c_y == area * p_y) by (nonlinear_arith)
        requires
            w1 == c_x * p_y - c_y * p_x,
            w2 == p_x * b_y - p_y * b_x,
            area == c_x * b_y - c_y * b_x,
    ;
    assert(w0 * ax + w1 * bx + w2 * cx == area * px) by (nonlinear_arith)
        requires
            w0 + w1 + w2 == area,
            w1 * b_x + w2 * c_x == area * p_x,
            b_x == bx - ax,
            c_x == cx - ax,
            p_x == px - ax,
    ;
    assert(w0 * ay + w1 * by + w2 * cy == area * py) by (nonlinear_arith)
        requires
            w0 + w1 + w2 == area,
            w1 * b_y + w2 * c_y == area * p_y,
            b_y == by - ay,
            c_y == cy - ay,
            p_y == py - ay,
    ;
}

/// A point that is a weighted mean of three values with non-negative weights
/// lies between their least and greatest.
proof fn lemma_weighted_mean_between(w0: int, w1: int, w2: int, a: int, b: int, c: int, p: int)
    requires
        w0 >= 0,
        w1 >= 0,
        w2 >= 0,
        w0 + w1 + w2 > 0,
        w0 * a + w1 * b + w2 * c == (w0 + w1 + w2) * p,
    ensures
        min3(a, b, c) <= p <= max3(a, b, c),
{
    let lo = min3(a, b, c);
    let hi = max3(a, b, c);
    assert((w0 + w1 + w2) * lo <= (w0 + w1 + w2) * p) by (nonlinear_arith)
        requires
            w0 >= 0,
            w1 >= 0,
            w2 >= 0,
            lo <= a,
            lo <= b,
            lo <= c,
            w0 * a + w1 * b + w2 * c == (w0 + w1 + w2) * p,
    ;
    assert((w0 + w1 + w2) * p <= (w0 + w1 + w2) * hi) by (nonlinear_arith)
        requires
            w0 >= 0,
            w1 >= 0,
            w2 >= 0,
            hi >= a,
            hi >= b,
            hi >= c,
            w0 * a + w1 * b + w2 * c == (w0 + w1 + w2) * p,
    ;
    assert(lo <= p) by (nonlinear_arith)
        requires
            w0 + w1 + w2 > 0,
            (w0 + w1 + w2) * lo <= (w0 + w1 + w2) * p,
    ;
    assert(p <= hi) by (nonlinear_arith)
        requires
            w0 + w1 + w2 > 0,
            (w0 + w1 + w2) * p <= (w0 + w1 + w2) * hi,
    ;
}

/// Every pixel of the target that a triangle of non-zero area covers is in
/// its cover: a covered center lies within the triangle's bounding box, and
/// the bounding range holds every pixel whose center lies within it.
pub proof fn lemma_cover_complete(
    v0: DevicePoint,
    v1: DevicePoint,
    v2: DevicePoint,
    width: int,
    height: int,
    i: int,
    j: int,
)
    requires
        area_of(v0, v1, v2) != 0,
        0 <= i < width,
        0 <= j < height,
        covers(v0, v1, v2, i, j),
    ensures
        exists|k: int|
            0 <= k < triangle_cover(v0, v1, v2, width, height).len() && #[trigger] triangle_cover(
                v0,
                v1,
                v2,
                width,
                height,
            )[k] == covered_at(v0, v1, v2, i, j),
{
    let w = weights_at(v0, v1, v2, i, j);
    let px = pixel_center(i);
    let py = pixel_center(j);
    lemma_barycentric(v0, v1, v2, i, j);
    lemma_weighted_vertices(
        v0.x as int,
        v0.y as int,
        v1.x as int,
        v1.y as int,
        v2.x as int,
        v2.y as int,
        px,
        py,
    );
    lemma_weighted_mean_between(w.0, w.1, w.2, v0.x as int, v1.x as int, v2.x as int, px);
    lemma_weighted_mean_between(w.0, w.1, w.2, v0.y as int, v1.y as int, v2.y as int, py);
    let x_lo = range_start(v0.x as int, v1.x as int, v2.x as int, 0);
    let x_hi = range_end(v0.x as int, v1.x as int, v2.x as int, width);
    let y_lo = range_start(v0.y as int, v1.y as int, v2.y as int, 0);
    let y_hi = range_end(v0.y as int, v1.y as int, v2.y as int, height);
    assert(x_lo <= i < x_hi);
    assert(y_lo <= j < y_hi);
    lemma_cover_members(v0, v1, v2, x_lo, x_hi, y_lo, y_hi);
    let cover = grid_cover(v0, v1, v2, x_lo, x_hi, y_lo, y_hi);
    assert(triangle_cover(v0, v1, v2, width, height) == cover);
    let k = choose|k: int| 0 <= k < cover.len() && cover[k] == covered_at(v0, v1, v2, i, j);
    assert(triangle_cover(v0, v1, v2, width, height)[k] == covered_at(v0, v1, v2, i, j));
}

/// Exactly the covered pixels of the box come out, each with its own edge
/// values: every entry of the sequence is a covered pixel of the box, and
/// every covered pixel of the box is an entry.
pub proof fn lemma_cover_members(
    v0: DevicePoint,
    v1: DevicePoint,
    v2: DevicePoint,
    x_lo: int,
    x_hi: int,
    y_lo: int,
    y_hi: int,
)
    ensures
        forall|k: int|
            0 <= k < grid_cover(v0, v1, v2, x_lo, x_hi, y_lo, y_hi).len() ==> {
                let e = #[trigger] grid_cover(v0, v1, v2, x_lo, x_hi, y_lo, y_hi)[k];
                &&& x_lo <= e.0 < x_hi
                &&& y_lo <= e.1 < y_hi
                &&& covers(v0, v1, v2, e.0, e.1)
                &&& e == covered_at(v0, v1, v2, e.0, e.1)
            },
        forall|i: int, j: int|
            x_lo <= i < x_hi && y_lo <= j < y_hi && covers(v0, v1, v2, i, j) ==> exists|k: int|
                0 <= k < grid_cover(v0, v1, v2, x_lo, x_hi, y_lo, y_hi).len()
                    && #[trigger] grid_cover(v0, v1, v2, x_lo, x_hi, y_lo, y_hi)[k] == covered_at(
                    v0,
                    v1,
                    v2,
                    i,
                    j,
                ),
    decreases x_hi - x_lo,
{
    if x_hi > x_lo {
        lemma_cover_members(v0, v1, v2, x_lo, x_hi - 1, y_lo, y_hi);
        lemma_column_members(v0, v1, v2, x_hi - 1, y_lo, y_hi);
        let prev = grid_cover(v0, v1, v2, x_lo, x_hi - 1, y_lo, y_hi);
        let col = column_cover(v0, v1, v2, x_hi - 1, y_lo, y_hi);
        let cur = grid_cover(v0, v1, v2, x_lo, x_hi, y_lo, y_hi);
        assert(cur == prev + col);
        assert forall|k: int| 0 <= k < cur.len() implies {
            let e = #[trigger] cur[k];
            &&& x_lo <= e.0 < x_hi
            &&& y_lo <= e.1 < y_hi
            &&& covers(v0, v1, v2, e.0, e.1)
            &&& e == covered_at(v0, v1, v2, e.0, e.1)
        } by {
            if k < prev.len() {
                assert(cur[k] == prev[k]);
            } else {
                assert(cur[k] == col[k - prev.len()]);
            }
        }
        assert forall|i: int, j: int|
            x_lo <= i < x_hi && y_lo <= j < y_hi && covers(v0, v1, v2, i, j) implies exists|k: int|
            0 <= k < cur.len() && #[trigger] cur[k] == covered_at(v0, v1, v2, i, j) by {
            if i < x_hi - 1 {
                let k = choose|k: int| 0 <= k < prev.len() && prev[k] == covered_at(v0, v1, v2, i, j);
                assert(cur[k] == prev[k]);
            } else {
                let k = choose|k: int| 0 <= k < col.len() && col[k] == covered_at(v0, v1, v2, i, j);
                assert(cur[prev.len() + k] == col[k]);
            }
        }
    }
}

} // verus!

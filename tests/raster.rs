use rusterizer::raster::{cover_triangle, get_min_max, triangle_area, DevicePoint};

fn pt(x: i32, y: i32) -> DevicePoint {
    DevicePoint { x, y }
}

#[test]
fn test_area() {
    let v1 = pt(1, 0);
    let v2 = pt(0, 1);
    let v3 = pt(0, 0);
    assert_eq!(triangle_area(&v1, &v2, &v3), -1);
}

#[test]
fn area_of_a_four_pixel_right_triangle() {
    assert_eq!(triangle_area(&pt(0, 0), &pt(0, 1024), &pt(1024, 0)), 1024 * 1024);
    assert_eq!(triangle_area(&pt(0, 0), &pt(1024, 0), &pt(0, 1024)), -1024 * 1024);
}

#[test]
fn covered_pixels_of_a_right_triangle() {
    let (v0, v1, v2) = (pt(0, 0), pt(0, 1024), pt(1024, 0));
    let area = triangle_area(&v0, &v1, &v2);
    let cover = cover_triangle(&v0, &v1, &v2, 600, 600);
    let pixels: Vec<(u32, u32)> = cover.iter().map(|c| (c.x, c.y)).collect();
    assert_eq!(
        pixels,
        vec![
            (0, 0),
            (0, 1),
            (0, 2),
            (0, 3),
            (1, 0),
            (1, 1),
            (1, 2),
            (2, 0),
            (2, 1),
            (3, 0)
        ]
    );
    for c in cover.iter() {
        assert!(c.w0 >= 0 && c.w1 >= 0 && c.w2 >= 0);
        assert_eq!(c.w0 + c.w1 + c.w2, area);
    }
    assert_eq!((cover[0].w0, cover[0].w1, cover[0].w2), (786432, 131072, 131072));
    // a center on the hypotenuse counts as covered
    assert_eq!(cover[3].w0, 0);
}

#[test]
fn barycentric_weights_sum_to_one_inside() {
    let (v0, v1, v2) = (pt(100, 50), pt(300, 2000), pt(2500, 700));
    let area = triangle_area(&v0, &v1, &v2) as f64;
    let cover = cover_triangle(&v0, &v1, &v2, 600, 600);
    assert!(!cover.is_empty());
    for c in cover.iter() {
        let sum = (c.w0 as f64 + c.w1 as f64 + c.w2 as f64) / area;
        assert!((sum - 1.0).abs() < 1e-12);
    }
}

#[test]
fn clockwise_triangle_covers_nothing() {
    let cover = cover_triangle(&pt(0, 0), &pt(1024, 0), &pt(0, 1024), 600, 600);
    assert!(cover.is_empty());
}

#[test]
fn coverage_is_clipped_to_the_target() {
    let (v0, v1, v2) = (pt(-2048, -2048), pt(-2048, 4096), pt(4096, -2048));
    let cover = cover_triangle(&v0, &v1, &v2, 3, 2);
    let pixels: Vec<(u32, u32)> = cover.iter().map(|c| (c.x, c.y)).collect();
    assert_eq!(pixels, vec![(0, 0), (0, 1), (1, 0), (1, 1), (2, 0), (2, 1)]);
}

#[test]
fn degenerate_triangle_has_zero_area() {
    assert_eq!(triangle_area(&pt(0, 0), &pt(512, 512), &pt(1024, 1024)), 0);
}

#[test]
fn min_max_keeps_every_center_inside() {
    // pixel 1 has its center at 384 steps: a minimum at or below it starts
    // the range there, one just past it starts at pixel 2
    assert_eq!(get_min_max(383, 1000, 2000, 600, 0), (1, 8));
    assert_eq!(get_min_max(384, 1000, 2000, 600, 0), (1, 8));
    assert_eq!(get_min_max(385, 1000, 2000, 600, 0), (2, 8));
    assert_eq!(get_min_max(2000, 1000, 384, 600, 0), (1, 8));
    // a maximum on pixel 1's center ends the range just after it
    assert_eq!(get_min_max(0, 0, 384, 600, 0), (0, 2));
    assert_eq!(get_min_max(0, 0, 383, 600, 0), (0, 1));
}

#[test]
fn center_on_the_left_edge_is_covered() {
    let (v0, v1, v2) = (pt(384, 0), pt(384, 1024), pt(1408, 0));
    let cover = cover_triangle(&v0, &v1, &v2, 600, 600);
    let first = cover.iter().find(|c| (c.x, c.y) == (1, 0)).expect("pixel (1, 0) is covered");
    assert_eq!((first.w0, first.w1, first.w2), (917504, 131072, 0));
    let pixels: Vec<(u32, u32)> = cover.iter().map(|c| (c.x, c.y)).collect();
    assert_eq!(
        pixels,
        vec![
            (1, 0),
            (1, 1),
            (1, 2),
            (1, 3),
            (2, 0),
            (2, 1),
            (2, 2),
            (3, 0),
            (3, 1),
            (4, 0)
        ]
    );
}

#[test]
fn min_max_clamps_to_bounds() {
    assert_eq!(get_min_max(-5000, 0, 100_000, 600, 0), (0, 391));
    assert_eq!(get_min_max(-5000, 0, 200_000, 600, 0), (0, 600));
    assert_eq!(get_min_max(-5000, -3000, -1000, 600, 0), (0, 0));
    assert_eq!(get_min_max(512, 768, 1024, 600, 3), (3, 4));
}

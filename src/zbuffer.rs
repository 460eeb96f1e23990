use vstd::prelude::*;

verus! {

/// A per-pixel minimum-depth buffer of `width` columns and `height` rows.
///
/// Depths are order keys: a smaller key is nearer to the eye. A caller that
/// holds floating-point depths maps them to keys that order the same way.
pub struct ZBuffer {
    depth_buffer: Vec<Vec<u32>>,
    width: usize,
    height: usize,
}

impl View for ZBuffer {
    type V = Seq<Seq<u32>>;

    /// The cells, column by column.
    closed spec fn view(&self) -> Seq<Seq<u32>> {
        self.depth_buffer@.map_values(|col: Vec<u32>| col@)
    }
}

/// A fragment's pixel and depth key, as handed to the depth test.
#[derive(Copy, Clone, Debug, PartialEq, Eq)]
pub struct DepthSample {
    pub x: usize,
    pub y: usize,
    pub depth: u32,
}

/// The cells after one depth test of `val` at (`x`, `y`), and whether it passed.
pub open spec fn depth_step(cells: Seq<Seq<u32>>, x: int, y: int, val: u32) -> (Seq<Seq<u32>>, bool) {
    if val < cells[x][y] {
        (cells.update(x, cells[x].update(y, val)), true)
    } else {
        (cells, false)
    }
}

/// The samples tested one after another, in order: the cells at the end and
/// whether each sample passed against the cells left by those before it.
pub open spec fn fold_samples(cells: Seq<Seq<u32>>, samples: Seq<DepthSample>) -> (
    Seq<Seq<u32>>,
    Seq<bool>,
)
    decreases samples.len(),
{
    if samples.len() == 0 {
        (cells, seq![])
    } else {
        let (before, passed) = fold_samples(cells, samples.drop_last());
        let s = samples.last();
        let (after, ok) = depth_step(before, s.x as int, s.y as int, s.depth);
        (after, passed.push(ok))
    }
}

impl ZBuffer {
    pub closed spec fn width(&self) -> nat {
        self.width as nat
    }

    pub closed spec fn height(&self) -> nat {
        self.height as nat
    }

    /// The depth stored for column `x`, row `y`.
    pub open spec fn depth(&self, x: int, y: int) -> u32 {
        self@[x][y]
    }

    /// Every column holds exactly `height` cells.
    pub closed spec fn wf(&self) -> bool {
        &&& self.depth_buffer@.len() == self.width
        &&& forall|i: int|
            0 <= i < self.width ==> (#[trigger] self.depth_buffer@[i])@.len() == self.height
    }

    /// Whether a fragment of depth `val` at (`x`, `y`) is nearer than what is stored.
    pub open spec fn accepts(&self, x: int, y: int, val: u32) -> bool {
        val < self.depth(x, y)
    }

    /// Every cell holds `val`.
    pub open spec fn all_cells(&self, val: u32) -> bool {
        forall|x: int, y: int|
            0 <= x < self.width() && 0 <= y < self.height() ==> #[trigger] self.depth(x, y) == val
    }

    fn column(height: usize, init_val: u32) -> (col: Vec<u32>)
        ensures
            col@.len() == height,
            forall|y: int| 0 <= y < height ==> col@[y] == init_val,
    {
        let mut col: Vec<u32> = Vec::new();
        let mut j: usize = 0;
        while j < height
            invariant
                j <= height,
                col@.len() == j,
                forall|y: int| 0 <= y < j ==> col@[y] == init_val,
            decreases height - j,
        {
            col.push(init_val);
            j = j + 1;
        }
        col
    }

    pub fn new(width: usize, height: usize, init_val: u32) -> (r: Self)
        ensures
            r.wf(),
            r.width() == width,
            r.height() == height,
            r.all_cells(init_val),
    {
        let mut depth_buffer: Vec<Vec<u32>> = Vec::new();
        let mut i: usize = 0;
        while i < width
            invariant
                i <= width,
                depth_buffer@.len() == i,
                forall|a: int| 0 <= a < i ==> (#[trigger] depth_buffer@[a])@.len() == height,
                forall|a: int, b: int|
                    0 <= a < i && 0 <= b < height ==> #[trigger] depth_buffer@[a]@[b] == init_val,
            decreases width - i,
        {
            let col = Self::column(height, init_val);
            depth_buffer.push(col);
            i = i + 1;
        }
        ZBuffer { depth_buffer, width, height }
    }

    /// Restores every cell to `val`, as is done before each frame.
    pub fn reset(&mut self, val: u32)
        requires
            old(self).wf(),
        ensures
            final(self).wf(),
            final(self).width() == old(self).width(),
            final(self).height() == old(self).height(),
            final(self).all_cells(val),
    {
        let mut i: usize = 0;
        while i < self.width
            invariant
                self.wf(),
                self.width == old(self).width,
                self.height == old(self).height,
                i <= self.width,
                forall|a: int, b: int|
                    0 <= a < i && 0 <= b < self.height ==> #[trigger] self.depth_buffer@[a]@[b]
                        == val,
            decreases self.width - i,
        {
            let col = Self::column(self.height, val);
            self.depth_buffer.set(i, col);
            i = i + 1;
        }
    }

    /// Keeps `val` at (`x`, `y`) when it is strictly smaller than the stored
    /// depth and reports whether it did; otherwise leaves the buffer as it was.
    pub fn update(&mut self, x: usize, y: usize, val: u32) -> (accepted: bool)
        requires
            old(self).wf(),
            x < old(self).width(),
            y < old(self).height(),
        ensures
            final(self).wf(),
            final(self).width() == old(self).width(),
            final(self).height() == old(self).height(),
            accepted == old(self).accepts(x as int, y as int, val),
            (final(self)@, accepted) == depth_step(old(self)@, x as int, y as int, val),
            final(self).depth(x as int, y as int) == if accepted {
                val
            } else {
                old(self).depth(x as int, y as int)
            },
            forall|a: int, b: int|
                0 <= a < old(self).width() && 0 <= b < old(self).height() && (a != x || b != y)
                    ==> #[trigger] final(self).depth(a, b) == old(self).depth(a, b),
    {
        if val < self.depth_buffer[x][y] {
            let ghost before = self@;
            self.depth_buffer[x].set(y, val);
            assert(self@ =~= before.update(x as int, before[x as int].update(y as int, val)));
            true
        } else {
            false
        }
    }

    /// Runs the depth test on each sample in turn and reports, for each,
    /// whether it was kept. Later samples are tested against what earlier
    /// ones left, so the outcome does not depend on how the samples were made.
    pub fn resolve(&mut self, samples: &Vec<DepthSample>) -> (accepted: Vec<bool>)
        requires
            old(self).wf(),
            forall|k: int|
                0 <= k < samples@.len() ==> (#[trigger] samples@[k]).x < old(self).width()
                    && samples@[k].y < old(self).height(),
        ensures
            final(self).wf(),
            final(self).width() == old(self).width(),
            final(self).height() == old(self).height(),
            (final(self)@, accepted@) == fold_samples(old(self)@, samples@),
    {
        let mut accepted: Vec<bool> = Vec::new();
        let mut i: usize = 0;
        assert(samples@.take(0) =~= Seq::<DepthSample>::empty());
        while i < samples.len()
            invariant
                self.wf(),
                self.width() == old(self).width(),
                self.height() == old(self).height(),
                i <= samples@.len(),
                forall|k: int|
                    0 <= k < samples@.len() ==> (#[trigger] samples@[k]).x < old(self).width()
                        && samples@[k].y < old(self).height(),
                (self@, accepted@) == fold_samples(old(self)@, samples@.take(i as int)),
            decreases samples@.len() - i,
        {
            let s = samples[i];
            let ok = self.update(s.x, s.y, s.depth);
            accepted.push(ok);
            assert(samples@.take(i + 1).drop_last() =~= samples@.take(i as int));
            assert(samples@.take(i + 1).last() == s);
            i = i + 1;
        }
        assert(samples@.take(i as int) =~= samples@);
        accepted
    }

    /// The depth stored at (`x`, `y`).
    pub fn get(&self, x: usize, y: usize) -> (r: u32)
        requires
            self.wf(),
            x < self.width(),
            y < self.height(),
        ensures
            r == self.depth(x as int, y as int),
    {
        self.depth_buffer[x][y]
    }
}

/// A fragment is kept exactly when its depth is strictly smaller than the
/// stored one: an equal or larger depth is turned away. After a reset to
/// `max`, any depth below `max` is kept at every pixel.
pub proof fn lemma_depth_test(zb: ZBuffer, max: u32, x: int, y: int, val: u32)
    requires
        zb.wf(),
        0 <= x < zb.width(),
        0 <= y < zb.height(),
    ensures
        zb.accepts(x, y, val) <==> val < zb.depth(x, y),
        val >= zb.depth(x, y) ==> !zb.accepts(x, y, val),
        zb.all_cells(max) ==> (zb.accepts(x, y, val) <==> val < max),
{
}

} // verus!

use vstd::prelude::*;
use crate::error::AtlasError;

verus! {

/// A block of grid cells: top-left cell and extent, in cells.
#[derive(Debug, Copy, Clone, PartialEq, Eq, Structural)]
pub struct CellRect {
    pub x: usize,
    pub y: usize,
    pub w: usize,
    pub h: usize,
}

/// One allocation: its block, and whether defragmentation must leave it in place.
#[derive(Debug, Copy, Clone, PartialEq, Eq, Structural)]
pub struct Slot {
    pub rect: CellRect,
    pub pinned: bool,
}

/// Two blocks share no cell.
pub open spec fn disjoint(a: CellRect, b: CellRect) -> bool {
    a.x + a.w <= b.x || b.x + b.w <= a.x || a.y + a.h <= b.y || b.y + b.h <= a.y
}

/// The block at (`x`, `y`) of `w` by `h` cells lies in a grid of `cols` by
/// `rows` cells and shares no cell with any slot but the one at index `skip`.
pub open spec fn fits_at(
    slots: Seq<Slot>,
    skip: int,
    x: int,
    y: int,
    w: int,
    h: int,
    cols: int,
    rows: int,
) -> bool {
    &&& 0 <= x && 0 <= y && 0 < w && 0 < h
    &&& x + w <= cols && y + h <= rows
    &&& forall|j: int|
        0 <= j < slots.len() && j != skip ==> disjoint(
            #[trigger] slots[j].rect,
            CellRect { x: x as usize, y: y as usize, w: w as usize, h: h as usize },
        )
}

/// (`x1`, `y1`) comes before (`x2`, `y2`) in row-major order.
pub open spec fn before(x1: int, y1: int, x2: int, y2: int) -> bool {
    y1 < y2 || (y1 == y2 && x1 < x2)
}

/// `r` is where a row-major scan first finds room for a block of its extent.
pub open spec fn first_fit(slots: Seq<Slot>, skip: int, r: CellRect, cols: int, rows: int) -> bool {
    &&& fits_at(slots, skip, r.x as int, r.y as int, r.w as int, r.h as int, cols, rows)
    &&& forall|x: int, y: int|
        before(x, y, r.x as int, r.y as int) ==> !#[trigger] fits_at(
            slots,
            skip,
            x,
            y,
            r.w as int,
            r.h as int,
            cols,
            rows,
        )
}

/// Nowhere is there room for a `w` by `h` block.
pub open spec fn no_fit(slots: Seq<Slot>, skip: int, w: int, h: int, cols: int, rows: int) -> bool {
    forall|x: int, y: int| !#[trigger] fits_at(slots, skip, x, y, w, h, cols, rows)
}

/// The abstract state of a grid: its extent and the allocations in order.
pub struct GridState {
    pub cols: nat,
    pub rows: nat,
    pub slots: Seq<Slot>,
}

/// Every block lies in the grid and no two blocks share a cell.
pub open spec fn grid_wf(g: GridState) -> bool {
    &&& forall|i: int|
        0 <= i < g.slots.len() ==> {
            let r = #[trigger] g.slots[i].rect;
            0 < r.w && 0 < r.h && r.x + r.w <= g.cols && r.y + r.h <= g.rows
        }
    &&& forall|i: int, j: int|
        0 <= i < g.slots.len() && 0 <= j < g.slots.len() && i != j ==> disjoint(
            #[trigger] g.slots[i].rect,
            #[trigger] g.slots[j].rect,
        )
}

/// What `allocate` does when it finds room at `r`.
pub open spec fn allocated(pre: GridState, post: GridState, r: CellRect, pinned: bool) -> bool {
    &&& first_fit(pre.slots, pre.slots.len() as int, r, pre.cols as int, pre.rows as int)
    &&& post == (GridState { slots: pre.slots.push(Slot { rect: r, pinned }), ..pre })
}

/// What `free` does when `r` is an allocation of `pre`.
pub open spec fn freed(pre: GridState, post: GridState, r: CellRect) -> bool {
    exists|i: int|
        0 <= i < pre.slots.len() && (#[trigger] pre.slots[i]).rect == r && post == (GridState {
            slots: pre.slots.remove(i),
            ..pre
        })
}

/// Total number of cells held by the allocations.
pub open spec fn total_area(s: Seq<Slot>) -> int
    decreases s.len(),
{
    if s.len() == 0 {
        0
    } else {
        total_area(s.drop_last()) + s.last().rect.w * s.last().rect.h
    }
}

/// A free-space index over a grid of cells.
pub struct RegionAllocator {
    cols: usize,
    rows: usize,
    slots: Vec<Slot>,
}

impl View for RegionAllocator {
    type V = GridState;

    closed spec fn view(&self) -> GridState {
        GridState { cols: self.cols as nat, rows: self.rows as nat, slots: self.slots@ }
    }
}

impl RegionAllocator {
    pub open spec fn wf(&self) -> bool {
        grid_wf(self@)
    }

    /// An empty grid of `cols` by `rows` cells.
    pub fn new(cols: usize, rows: usize) -> (r: Self)
        ensures
            r.wf(),
            r@ == (GridState { cols: cols as nat, rows: rows as nat, slots: Seq::empty() }),
    {
        RegionAllocator { cols, rows, slots: Vec::new() }
    }

    pub fn cols(&self) -> (r: usize)
        ensures
            r == self@.cols,
    {
        self.cols
    }

    pub fn rows(&self) -> (r: usize)
        ensures
            r == self@.rows,
    {
        self.rows
    }

    pub fn len(&self) -> (r: usize)
        ensures
            r == self@.slots.len(),
    {
        self.slots.len()
    }

    pub fn slot(&self, i: usize) -> (r: Slot)
        requires
            i < self@.slots.len(),
        ensures
            r == self@.slots[i as int],
    {
        self.slots[i]
    }

    /// Whether `c` shares no cell with any allocation but the one at `skip`.
    fn clear_of(&self, c: CellRect, skip: usize) -> (r: bool)
        requires
            self.wf(),
            c.x + c.w <= self.cols,
            c.y + c.h <= self.rows,
        ensures
            r == forall|j: int|
                0 <= j < self@.slots.len() && j != skip ==> disjoint(#[trigger] self@.slots[j].rect, c),
    {
        let mut j: usize = 0;
        while j < self.slots.len()
            invariant
                self.wf(),
                c.x + c.w <= self.cols,
                c.y + c.h <= self.rows,
                j <= self.slots@.len(),
                forall|k: int| 0 <= k < j && k != skip ==> disjoint(#[trigger] self@.slots[k].rect, c),
            decreases self.slots@.len() - j,
        {
            if j != skip {
                let o = self.slots[j].rect;
                assert(self@.slots[j as int].rect == o);
                if !(o.x + o.w <= c.x || c.x + c.w <= o.x || o.y + o.h <= c.y || c.y + c.h <= o.y) {
                    return false;
                }
            }
            j = j + 1;
        }
        true
    }

    /// The first block, in row-major order, of `w` by `h` cells that is free
    /// when the allocation at `skip` is left out.
    fn find_fit(&self, w: usize, h: usize, skip: usize) -> (r: Option<CellRect>)
        requires
            self.wf(),
        ensures
            match r {
                Some(c) => c.w == w && c.h == h && first_fit(
                    self@.slots,
                    skip as int,
                    c,
                    self.cols as int,
                    self.rows as int,
                ),
                None => no_fit(self@.slots, skip as int, w as int, h as int, self.cols as int, self.rows as int),
            },
    {
        let ghost s = self@.slots;
        let ghost cols = self.cols as int;
        let ghost rows = self.rows as int;
        if w == 0 || h == 0 || w > self.cols || h > self.rows {
            return None;
        }
        let mut y: usize = 0;
        while y <= self.rows - h
            invariant
                self.wf(),
                s == self@.slots,
                cols == self.cols,
                rows == self.rows,
                0 < w <= self.cols,
                0 < h <= self.rows,
                y <= self.rows,
                forall|x: int, yy: int| yy < y ==> !#[trigger] fits_at(s, skip as int, x, yy, w as int, h as int, cols, rows),
            decreases self.rows - y,
        {
            let mut x: usize = 0;
            while x <= self.cols - w
                invariant
                    self.wf(),
                    s == self@.slots,
                    cols == self.cols,
                    rows == self.rows,
                    0 < w <= self.cols,
                    0 < h <= self.rows,
                    y + h <= self.rows,
                    x <= self.cols,
                    forall|xx: int, yy: int| yy < y ==> !#[trigger] fits_at(s, skip as int, xx, yy, w as int, h as int, cols, rows),
                    forall|xx: int| xx < x ==> !#[trigger] fits_at(s, skip as int, xx, y as int, w as int, h as int, cols, rows),
                decreases self.cols - x,
            {
                let c = CellRect { x, y, w, h };
                assert(c == CellRect {
                    x: x as int as usize,
                    y: y as int as usize,
                    w: w as int as usize,
                    h: h as int as usize,
                });
                if self.clear_of(c, skip) {
                    assert(fits_at(s, skip as int, x as int, y as int, w as int, h as int, cols, rows));
                    assert forall|xx: int, yy: int|
                        before(xx, yy, c.x as int, c.y as int) implies !#[trigger] fits_at(
                            s,
                            skip as int,
                            xx,
                            yy,
                            c.w as int,
                            c.h as int,
                            cols,
                            rows,
                        ) by {
                        if yy < y {
                        } else {
                            assert(xx < x);
                        }
                    }
                    return Some(c);
                }
                assert(!fits_at(s, skip as int, x as int, y as int, w as int, h as int, cols, rows));
                x = x + 1;
            }
            assert forall|xx: int, yy: int| yy < y + 1 implies !#[trigger] fits_at(
                s,
                skip as int,
                xx,
                yy,
                w as int,
                h as int,
                cols,
                rows,
            ) by {
                if yy == y && xx >= x {
                    assert(xx + w > cols);
                }
            }
            y = y + 1;
        }
        None
    }

    /// Takes the first free block of `w` by `h` cells in row-major order.
    pub fn allocate(&mut self, w: usize, h: usize, pinned: bool) -> (r: Option<CellRect>)
        requires
            old(self).wf(),
        ensures
            final(self).wf(),
            match r {
                Some(c) => c.w == w && c.h == h && allocated(old(self)@, final(self)@, c, pinned),
                None => no_fit(
                    old(self)@.slots,
                    old(self)@.slots.len() as int,
                    w as int,
                    h as int,
                    old(self)@.cols as int,
                    old(self)@.rows as int,
                ) && final(self)@ == old(self)@,
            },
    {
        let found = self.find_fit(w, h, self.slots.len());
        match found {
            Some(c) => {
                let ghost pre = self@;
                self.slots.push(Slot { rect: c, pinned });
                proof {
                    let post = self@;
                    assert(post.slots.len() == pre.slots.len() + 1);
                    assert forall|i: int, j: int|
                        0 <= i < post.slots.len() && 0 <= j < post.slots.len() && i != j
                            implies disjoint(#[trigger] post.slots[i].rect, #[trigger] post.slots[j].rect) by {
                        if i == pre.slots.len() {
                            assert(disjoint(pre.slots[j].rect, c));
                        } else if j == pre.slots.len() {
                            assert(disjoint(pre.slots[i].rect, c));
                        } else {
                            assert(post.slots[i] == pre.slots[i]);
                            assert(post.slots[j] == pre.slots[j]);
                        }
                    }
                    assert(post == (GridState { slots: pre.slots.push(Slot { rect: c, pinned }), ..pre }));
                }
                Some(c)
            },
            None => None,
        }
    }

    /// Gives back the allocation whose block is exactly `rect`; any other
    /// block is refused and nothing changes.
    pub fn free(&mut self, rect: CellRect) -> (r: Result<(), AtlasError>)
        requires
            old(self).wf(),
        ensures
            final(self).wf(),
            r is Ok <==> exists|i: int|
                0 <= i < old(self)@.slots.len() && (#[trigger] old(self)@.slots[i]).rect == rect,
            r is Ok ==> freed(old(self)@, final(self)@, rect),
            r is Err ==> r == Err::<(), AtlasError>(AtlasError::InvalidHandle) && final(self)@ == old(self)@,
    {
        let mut i: usize = 0;
        while i < self.slots.len()
            invariant
                self.wf(),
                self@ == old(self)@,
                i <= self.slots@.len(),
                forall|k: int| 0 <= k < i ==> (#[trigger] self@.slots[k]).rect != rect,
            decreases self.slots@.len() - i,
        {
            if self.slots[i].rect == rect {
                let ghost pre = self@;
                self.slots.remove(i);
                proof {
                    let post = self@;
                    assert(pre.slots[i as int].rect == rect);
                    assert(post == (GridState { slots: pre.slots.remove(i as int), ..pre }));
                    assert forall|a: int, b: int|
                        0 <= a < post.slots.len() && 0 <= b < post.slots.len() && a != b
                            implies disjoint(#[trigger] post.slots[a].rect, #[trigger] post.slots[b].rect) by {
                        let a0 = if a < i { a } else { a + 1 };
                        let b0 = if b < i { b } else { b + 1 };
                        assert(post.slots[a] == pre.slots[a0]);
                        assert(post.slots[b] == pre.slots[b0]);
                    }
                    assert forall|a: int| 0 <= a < post.slots.len() implies {
                        let r = #[trigger] post.slots[a].rect;
                        0 < r.w && 0 < r.h && r.x + r.w <= post.cols && r.y + r.h <= post.rows
                    } by {
                        let a0 = if a < i { a } else { a + 1 };
                        assert(post.slots[a] == pre.slots[a0]);
                    }
                }
                return Ok(());
            }
            i = i + 1;
        }
        Err(AtlasError::InvalidHandle)
    }

    /// Extends the grid to `cols` by `rows` cells; every allocation stays where it is.
    pub fn grow(&mut self, cols: usize, rows: usize) -> (r: Result<(), AtlasError>)
        requires
            old(self).wf(),
        ensures
            final(self).wf(),
            r is Ok <==> old(self)@.cols <= cols && old(self)@.rows <= rows,
            r is Ok ==> final(self)@ == (GridState { cols: cols as nat, rows: rows as nat, ..old(self)@ }),
            r is Err ==> r == Err::<(), AtlasError>(AtlasError::GrowthRejected) && final(self)@ == old(self)@,
    {
        if cols < self.cols || rows < self.rows {
            return Err(AtlasError::GrowthRejected);
        }
        self.cols = cols;
        self.rows = rows;
        Ok(())
    }

    /// Frees every allocation.
    pub fn clear(&mut self)
        ensures
            final(self).wf(),
            final(self)@ == (GridState { slots: Seq::empty(), ..old(self)@ }),
    {
        self.slots = Vec::new();
    }

    /// Moves each allocation that is not pinned, in order, to the first block
    /// where it fits; pinned allocations stay where they are.
    pub fn defragment(&mut self)
        requires
            old(self).wf(),
        ensures
            final(self).wf(),
            final(self)@.cols == old(self)@.cols,
            final(self)@.rows == old(self)@.rows,
            final(self)@.slots.len() == old(self)@.slots.len(),
            defragmented(old(self)@, final(self)@),
            total_area(final(self)@.slots) == total_area(old(self)@.slots),
    {
        let ghost pre = self@;
        let n = self.slots.len();
        let mut i: usize = 0;
        while i < n
            invariant
                self.wf(),
                n == pre.slots.len(),
                self@.cols == pre.cols,
                self@.rows == pre.rows,
                self@.slots.len() == n,
                i <= n,
                forall|k: int| 0 <= k < n ==> kept_shape(#[trigger] pre.slots[k], self@.slots[k]),
                forall|k: int| i <= k < n ==> #[trigger] self@.slots[k] == pre.slots[k],
                forall|k: int|
                    0 <= k < i && !pre.slots[k].pinned ==> first_fit(
                        defrag_stage(pre.slots, self@.slots, k),
                        k,
                        #[trigger] self@.slots[k].rect,
                        pre.cols as int,
                        pre.rows as int,
                    ),
            decreases n - i,
        {
            let ghost mid = self@;
            let cur = self.slots[i];
            if !cur.pinned {
                match self.find_fit(cur.rect.w, cur.rect.h, i) {
                    Some(c) => {
                        self.slots.set(i, Slot { rect: c, pinned: false });
                        proof {
                            let post = self@;
                            assert forall|a: int, b: int|
                                0 <= a < post.slots.len() && 0 <= b < post.slots.len() && a != b
                                    implies disjoint(#[trigger] post.slots[a].rect, #[trigger] post.slots[b].rect) by {
                                if a == i {
                                    assert(disjoint(mid.slots[b].rect, c));
                                } else if b == i {
                                    assert(disjoint(mid.slots[a].rect, c));
                                } else {
                                    assert(post.slots[a] == mid.slots[a]);
                                    assert(post.slots[b] == mid.slots[b]);
                                }
                            }
                            assert forall|k: int| 0 <= k < n implies kept_shape(#[trigger] pre.slots[k], post.slots[k]) by {
                                if k != i {
                                    assert(post.slots[k] == mid.slots[k]);
                                }
                            }
                            assert(defrag_stage(pre.slots, post.slots, i as int) =~= mid.slots);
                            assert forall|k: int|
                                0 <= k <= i && !pre.slots[k].pinned implies first_fit(
                                    defrag_stage(pre.slots, post.slots, k),
                                    k,
                                    #[trigger] post.slots[k].rect,
                                    pre.cols as int,
                                    pre.rows as int,
                                ) by {
                                if k < i {
                                    assert(post.slots.take(k) =~= mid.slots.take(k));
                                    assert(post.slots[k] == mid.slots[k]);
                                }
                            }
                        }
                    },
                    None => {
                        proof {
                            let r = cur.rect;
                            assert(r == mid.slots[i as int].rect);
                            assert forall|j: int| 0 <= j < mid.slots.len() && j != i implies disjoint(
                                #[trigger] mid.slots[j].rect,
                                CellRect { x: r.x as int as usize, y: r.y as int as usize, w: r.w as int as usize, h: r.h as int as usize },
                            ) by {
                                assert(disjoint(mid.slots[j].rect, mid.slots[i as int].rect));
                            }
                            assert(fits_at(mid.slots, i as int, r.x as int, r.y as int, r.w as int, r.h as int, mid.cols as int, mid.rows as int));
                        }
                    },
                }
            }
            i = i + 1;
        }
        proof {
            lemma_kept_shape_same_area(pre.slots, self@.slots);
        }
    }
}

/// Allocating a block and then freeing that same block gives back the grid
/// exactly as it was before the allocation.
pub proof fn lemma_allocate_then_free_restores(
    pre: GridState,
    mid: GridState,
    post: GridState,
    r: CellRect,
    pinned: bool,
)
    requires
        grid_wf(pre),
        allocated(pre, mid, r, pinned),
        freed(mid, post, r),
    ensures
        post == pre,
{
    let i = choose|i: int|
        0 <= i < mid.slots.len() && (#[trigger] mid.slots[i]).rect == r && post == (GridState {
            slots: mid.slots.remove(i),
            ..mid
        });
    if i < pre.slots.len() {
        assert(mid.slots[i] == pre.slots[i]);
        assert(disjoint(pre.slots[i].rect, r));
    }
    assert(i == pre.slots.len());
    assert(post.slots =~= pre.slots);
}

/// No two allocations of a well-formed grid have the same block.
pub proof fn lemma_blocks_unique(g: GridState, i: int, j: int)
    requires
        grid_wf(g),
        0 <= i < g.slots.len(),
        0 <= j < g.slots.len(),
        g.slots[i].rect == g.slots[j].rect,
    ensures
        i == j,
{
    if i != j {
        assert(disjoint(g.slots[i].rect, g.slots[j].rect));
        assert(0 < g.slots[i].rect.w);
    }
}

/// The allocations as they stand when defragmentation reaches index `i`:
/// those before it already placed anew, the others as they were.
pub open spec fn defrag_stage(pre: Seq<Slot>, post: Seq<Slot>, i: int) -> Seq<Slot> {
    post.take(i) + pre.skip(i)
}

/// What `defragment` does: every allocation keeps its extent and its pin,
/// and each one that is not pinned, taken in order, lands on the first block
/// where it fits among the others as they stand at its turn.
pub open spec fn defragmented(pre: GridState, post: GridState) -> bool {
    &&& post.cols == pre.cols
    &&& post.rows == pre.rows
    &&& post.slots.len() == pre.slots.len()
    &&& forall|i: int| 0 <= i < pre.slots.len() ==> kept_shape(#[trigger] pre.slots[i], post.slots[i])
    &&& forall|i: int|
        0 <= i < pre.slots.len() && !pre.slots[i].pinned ==> first_fit(
            defrag_stage(pre.slots, post.slots, i),
            i,
            #[trigger] post.slots[i].rect,
            pre.cols as int,
            pre.rows as int,
        )
}

/// A slot after defragmentation has the same extent and pin as before, and a
/// pinned one the same place.
pub open spec fn kept_shape(a: Slot, b: Slot) -> bool {
    &&& a.pinned == b.pinned
    &&& a.rect.w == b.rect.w
    &&& a.rect.h == b.rect.h
    &&& a.pinned ==> a.rect == b.rect
}

/// Slots that keep their shapes, index for index, hold the same total area.
pub proof fn lemma_kept_shape_same_area(a: Seq<Slot>, b: Seq<Slot>)
    requires
        a.len() == b.len(),
        forall|i: int| 0 <= i < a.len() ==> kept_shape(#[trigger] a[i], b[i]),
    ensures
        total_area(a) == total_area(b),
    decreases a.len(),
{
    if a.len() > 0 {
        let a2 = a.drop_last();
        let b2 = b.drop_last();
        assert forall|i: int| 0 <= i < a2.len() implies kept_shape(#[trigger] a2[i], b2[i]) by {
            assert(a2[i] == a[i]);
            assert(b2[i] == b[i]);
        }
        lemma_kept_shape_same_area(a2, b2);
        assert(kept_shape(a[a.len() - 1], b[b.len() - 1]));
    }
}

} // verus!

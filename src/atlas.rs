use vstd::prelude::*;
use crate::allocator::{
    CellRect, fits_at, GridState, RegionAllocator, Slot, allocated, defragmented, first_fit, grid_wf, kept_shape, no_fit,
    total_area,
};
use crate::error::{AllocationFailure, AtlasError};
use crate::point::Point;
use crate::rectangle::Rectangle;
use crate::size::Size;

verus! {

/// Side of a grid cell, in pixels: free space is tracked per cell.
pub const CELL: i32 = 16;

/// Largest side of a page, in pixels.
pub const MAX_PAGE: i32 = 4096;

/// Where a tile's visible part lies within a page, as exact fractions of the
/// page's size: `u1 / width` to `u2 / width` across and `v1 / height` to
/// `v2 / height` down.
#[derive(Debug, Copy, Clone, PartialEq, Eq, Structural)]
pub struct TexCoords {
    pub u1: i32,
    pub v1: i32,
    pub u2: i32,
    pub v2: i32,
    pub width: i32,
    pub height: i32,
}

/// How a tile is anchored when drawn.
#[derive(Debug, Copy, Clone, PartialEq, Eq, Structural)]
pub enum TileAlignment {
    Unknown,
    Center,
    DeadCenter,
    TopLeft,
    TopRight,
    BottomLeft,
    BottomRight,
}

/// How a page is sampled.
#[derive(Debug, Copy, Clone, PartialEq, Eq, Structural)]
pub enum TextureFilter {
    Nearest,
    Linear,
}

/// What a caller asks to place.
#[derive(Debug, Copy, Clone, PartialEq, Eq, Structural)]
pub struct TileRequest {
    pub tileset: usize,
    pub size: Size<i32>,
    pub offset: Point<i32>,
    pub spacing: Size<i32>,
    pub alignment: TileAlignment,
    pub is_animated: bool,
}

/// One placed tile.
#[derive(Debug, Copy, Clone, PartialEq, Eq, Structural)]
pub struct TileInfo {
    pub tileset: usize,
    pub page: usize,
    pub total_space: Rectangle<i32>,
    pub useful_space: Rectangle<i32>,
    pub texture_coords: TexCoords,
    pub offset: Point<i32>,
    pub spacing: Size<i32>,
    pub alignment: TileAlignment,
    pub is_animated: bool,
}

/// A tile that defragmentation moved: its pixels must be copied from `from` to `to`.
#[derive(Debug, Copy, Clone, PartialEq, Eq, Structural)]
pub struct Relocation {
    pub tile: usize,
    pub from: Rectangle<i32>,
    pub to: Rectangle<i32>,
}

/// Cells needed to cover `px` pixels.
pub open spec fn cells_for(px: int) -> int {
    (px + CELL - 1) / CELL as int
}

/// The pixel rectangle of a block of cells.
pub open spec fn px_rect(c: CellRect) -> Rectangle<i32> {
    Rectangle {
        x: (c.x * CELL) as i32,
        y: (c.y * CELL) as i32,
        width: (c.w * CELL) as i32,
        height: (c.h * CELL) as i32,
    }
}

/// The texture coordinates of `r` on a page of `size`.
pub open spec fn tex_coords_of(r: Rectangle<i32>, size: Size<i32>) -> TexCoords {
    TexCoords {
        u1: r.x,
        v1: r.y,
        u2: (r.x + r.width) as i32,
        v2: (r.y + r.height) as i32,
        width: size.width,
        height: size.height,
    }
}

/// A request the atlas can ever place.
pub open spec fn valid_request(req: TileRequest) -> bool {
    0 < req.size.width <= MAX_PAGE && 0 < req.size.height <= MAX_PAGE
}

/// A tile as a page holds it: it fills the slot's block, its visible part
/// starts at the block's corner, and its coordinates match the page's size.
pub open spec fn tile_matches(t: TileInfo, s: Slot, size: Size<i32>) -> bool {
    &&& t.total_space == px_rect(s.rect)
    &&& t.is_animated == s.pinned
    &&& t.useful_space.x == t.total_space.x
    &&& t.useful_space.y == t.total_space.y
    &&& 0 < t.useful_space.width <= t.total_space.width
    &&& 0 < t.useful_space.height <= t.total_space.height
    &&& t.texture_coords == tex_coords_of(t.useful_space, size)
}

/// The tile that a request gets at block `c` of a page of `size`.
pub open spec fn tile_for(req: TileRequest, page: usize, c: CellRect, size: Size<i32>) -> TileInfo {
    let total = px_rect(c);
    let useful = Rectangle { x: total.x, y: total.y, width: req.size.width, height: req.size.height };
    TileInfo {
        tileset: req.tileset,
        page,
        total_space: total,
        useful_space: useful,
        texture_coords: tex_coords_of(useful, size),
        offset: req.offset,
        spacing: req.spacing,
        alignment: req.alignment,
        is_animated: req.is_animated,
    }
}

/// A tile moved to block `c` of a page of `size`: its visible part keeps its
/// extent and follows the block's corner.
pub open spec fn moved_tile(t: TileInfo, c: CellRect, size: Size<i32>) -> TileInfo {
    let total = px_rect(c);
    let useful = Rectangle {
        x: total.x,
        y: total.y,
        width: t.useful_space.width,
        height: t.useful_space.height,
    };
    TileInfo {
        total_space: total,
        useful_space: useful,
        texture_coords: tex_coords_of(useful, size),
        ..t
    }
}

/// The items of `s` whose flag in `live` is set, in order.
pub open spec fn live_only<A>(s: Seq<A>, live: Seq<bool>) -> Seq<A>
    decreases s.len(),
{
    if s.len() == 0 {
        Seq::empty()
    } else {
        let rest = live_only(s.drop_last(), live.take(s.len() - 1));
        if live[s.len() - 1] {
            rest.push(s.last())
        } else {
            rest
        }
    }
}

proof fn lemma_live_only_step<A>(s: Seq<A>, live: Seq<bool>, j: int)
    requires
        0 <= j < s.len(),
        live.len() == s.len(),
    ensures
        live_only(s.take(j + 1), live.take(j + 1)) == if live[j] {
            live_only(s.take(j), live.take(j)).push(s[j])
        } else {
            live_only(s.take(j), live.take(j))
        },
{
    assert(s.take(j + 1).drop_last() =~= s.take(j));
    assert(live.take(j + 1).take(j) =~= live.take(j));
}

proof fn lemma_live_only_len<A, B>(a: Seq<A>, b: Seq<B>, live: Seq<bool>)
    requires
        a.len() == b.len(),
        live.len() == a.len(),
    ensures
        live_only(a, live).len() == live_only(b, live).len(),
        live_only(a, live).len() <= a.len(),
    decreases a.len(),
{
    if a.len() > 0 {
        lemma_live_only_len(a.drop_last(), b.drop_last(), live.take(a.len() - 1));
    }
}

/// The side a page grows to: twice the old one, at most the largest side.
pub open spec fn grown(side: i32) -> i32 {
    if 2 * side > MAX_PAGE {
        MAX_PAGE
    } else {
        (2 * side) as i32
    }
}

/// What `AtlasTexture::add` does when it places `t` for `req`: the tile takes
/// the first free block of whole cells covering the request.
pub open spec fn page_added(pre: PageState, post: PageState, req: TileRequest, page: usize, t: TileInfo) -> bool {
    &&& post.size == pre.size
    &&& post.filter == pre.filter
    &&& post.generation == pre.generation
    &&& exists|c: CellRect|
        c.w == cells_for(req.size.width as int) && c.h == cells_for(req.size.height as int)
            && #[trigger] allocated(pre.grid, post.grid, c, req.is_animated) && t == tile_for(
            req,
            page,
            c,
            pre.size,
        ) && post.tiles == pre.tiles.push(t)
}

/// What `AtlasTexture::remove` does when it finds `tile`: that tile leaves,
/// and its block is freed.
pub open spec fn page_removed(pre: PageState, post: PageState, tile: TileInfo) -> bool {
    exists|i: int|
        0 <= i < pre.tiles.len() && #[trigger] pre.tiles[i] == tile && post
            == (PageState {
            tiles: pre.tiles.remove(i),
            grid: GridState { slots: pre.grid.slots.remove(i), ..pre.grid },
            ..pre
        })
}

/// `moves` lists exactly the tiles whose pixel rectangle differs from `pre`
/// to `post`, each with its old and new rectangle.
pub open spec fn moves_listed(pre: PageState, post: PageState, moves: Seq<Relocation>) -> bool {
    &&& forall|m: int|
        0 <= m < moves.len() ==> {
            let mv = #[trigger] moves[m];
            &&& mv.tile < pre.tiles.len()
            &&& mv.from == pre.tiles[mv.tile as int].total_space
            &&& mv.to == post.tiles[mv.tile as int].total_space
            &&& mv.from != mv.to
        }
    &&& forall|i: int|
        0 <= i < pre.tiles.len() && (#[trigger] post.tiles[i]).total_space != pre.tiles[i].total_space
            ==> exists|m: int| 0 <= m < moves.len() && (#[trigger] moves[m]).tile == i
}

/// `post` is page `pre`, either as it was or grown once: the same
/// allocations and tiles in the same places, only their texture coordinates
/// recomputed against the new size.
pub open spec fn regridded(pre: PageState, post: PageState) -> bool {
    &&& post.filter == pre.filter
    &&& post.grid.slots == pre.grid.slots
    &&& (post.size == pre.size && post.generation == pre.generation) || (post.size == (Size::<i32> {
        width: grown(pre.size.width),
        height: grown(pre.size.height),
    }) && post.generation == next_generation(pre.generation))
    &&& post.tiles.len() == pre.tiles.len()
    &&& forall|i: int|
        0 <= i < pre.tiles.len() ==> #[trigger] post.tiles[i] == (TileInfo {
            texture_coords: tex_coords_of(pre.tiles[i].useful_space, post.size),
            ..pre.tiles[i]
        })
}

/// A well-formed page is a regridding of itself.
proof fn lemma_regridded_refl(p: PageState)
    requires
        page_wf(p),
    ensures
        regridded(p, p),
{
    assert forall|i: int| 0 <= i < p.tiles.len() implies #[trigger] p.tiles[i] == (TileInfo {
        texture_coords: tex_coords_of(p.tiles[i].useful_space, p.size),
        ..p.tiles[i]
    }) by {
        assert(tile_matches(p.tiles[i], p.grid.slots[i], p.size));
    }
}

/// Two pixel rectangles share no pixel.
pub open spec fn px_disjoint(a: Rectangle<i32>, b: Rectangle<i32>) -> bool {
    a.x + a.width <= b.x || b.x + b.width <= a.x || a.y + a.height <= b.y || b.y + b.height <= a.y
}

/// The generation after `g`: the counter wraps around after the largest value.
pub open spec fn next_generation(g: u64) -> u64 {
    if g == u64::MAX { 0 } else { (g + 1) as u64 }
}

/// The abstract state of a page. `generation` changes whenever tiles already
/// handed out may have moved or lost their texture coordinates.
pub struct PageState {
    pub size: Size<i32>,
    pub grid: GridState,
    pub tiles: Seq<TileInfo>,
    pub filter: TextureFilter,
    pub generation: u64,
}

/// A page whose tiles match its allocations one for one.
pub open spec fn page_wf(p: PageState) -> bool {
    &&& grid_wf(p.grid)
    &&& 0 < p.size.width <= MAX_PAGE
    &&& 0 < p.size.height <= MAX_PAGE
    &&& p.grid.cols == (p.size.width / CELL) as nat
    &&& p.grid.rows == (p.size.height / CELL) as nat
    &&& p.tiles.len() == p.grid.slots.len()
    &&& forall|i: int| 0 <= i < p.tiles.len() ==> tile_matches(#[trigger] p.tiles[i], p.grid.slots[i], p.size)
}

/// One texture page: its pixel size, its free-space index and its tiles.
pub struct AtlasTexture {
    generation: u64,
    size: Size<i32>,
    allocator: RegionAllocator,
    tiles: Vec<TileInfo>,
    filter: TextureFilter,
}

impl View for AtlasTexture {
    type V = PageState;

    closed spec fn view(&self) -> PageState {
        PageState {
            size: self.size,
            grid: self.allocator@,
            tiles: self.tiles@,
            filter: self.filter,
            generation: self.generation,
        }
    }
}

/// The pixel rectangle of a block of a grid no wider or taller than the largest page.
fn to_px(c: CellRect) -> (r: Rectangle<i32>)
    requires
        c.x + c.w <= MAX_PAGE / CELL,
        c.y + c.h <= MAX_PAGE / CELL,
    ensures
        r == px_rect(c),
{
    Rectangle {
        x: c.x as i32 * CELL,
        y: c.y as i32 * CELL,
        width: c.w as i32 * CELL,
        height: c.h as i32 * CELL,
    }
}

/// The texture coordinates of `r` on a page of `size`.
fn calculate_tex_coords(r: Rectangle<i32>, size: Size<i32>) -> (t: TexCoords)
    requires
        0 <= r.x && 0 <= r.y && 0 <= r.width && 0 <= r.height,
        r.x + r.width <= MAX_PAGE,
        r.y + r.height <= MAX_PAGE,
    ensures
        t == tex_coords_of(r, size),
{
    TexCoords {
        u1: r.x,
        v1: r.y,
        u2: r.x + r.width,
        v2: r.y + r.height,
        width: size.width,
        height: size.height,
    }
}

impl AtlasTexture {
    pub open spec fn wf(&self) -> bool {
        page_wf(self@)
    }

    /// The state of a fresh page of `size` pixels.
    pub open spec fn new_state(size: Size<i32>) -> PageState {
        PageState {
            size,
            grid: GridState {
                cols: (size.width / CELL) as nat,
                rows: (size.height / CELL) as nat,
                slots: Seq::empty(),
            },
            tiles: Seq::empty(),
            filter: TextureFilter::Linear,
            generation: 0,
        }
    }

    /// An empty page of `initial_size` pixels.
    pub fn new(initial_size: Size<i32>) -> (r: Self)
        requires
            0 < initial_size.width <= MAX_PAGE,
            0 < initial_size.height <= MAX_PAGE,
        ensures
            r.wf(),
            r@ == Self::new_state(initial_size),
    {
        let cols = (initial_size.width / CELL) as usize;
        let rows = (initial_size.height / CELL) as usize;
        AtlasTexture {
            generation: 0,
            size: initial_size,
            allocator: RegionAllocator::new(cols, rows),
            tiles: Vec::new(),
            filter: TextureFilter::Linear,
        }
    }

    pub fn size(&self) -> (r: Size<i32>)
        ensures
            r == self@.size,
    {
        self.size
    }

    pub fn tiles(&self) -> (r: &Vec<TileInfo>)
        ensures
            r@ == self@.tiles,
    {
        &self.tiles
    }

    pub fn filter(&self) -> (r: TextureFilter)
        ensures
            r == self@.filter,
    {
        self.filter
    }

    /// Changes whenever tiles handed out earlier may hold stale placement or
    /// texture coordinates.
    pub fn generation(&self) -> (r: u64)
        ensures
            r == self@.generation,
    {
        self.generation
    }

    /// Places a tile for `request` on this page, which the atlas knows as `page`:
    /// the tile takes the first free block, in row-major order, of whole cells
    /// covering the requested size.
    pub fn add(&mut self, page: usize, request: &TileRequest) -> (r: Result<TileInfo, AtlasError>)
        requires
            old(self).wf(),
        ensures
            final(self).wf(),
            final(self)@.size == old(self)@.size,
            final(self)@.filter == old(self)@.filter,
            !valid_request(*request) ==> r == Err::<TileInfo, AtlasError>(
                AtlasError::AllocationFailed(AllocationFailure::ExceedsCapacity),
            ) && final(self)@ == old(self)@,
            valid_request(*request) ==> match r {
                Ok(t) => page_added(old(self)@, final(self)@, *request, page, t),
                Err(e) => e == AtlasError::AllocationFailed(AllocationFailure::NoSpace) && no_fit(
                    old(self)@.grid.slots,
                    old(self)@.grid.slots.len() as int,
                    cells_for(request.size.width as int),
                    cells_for(request.size.height as int),
                    old(self)@.grid.cols as int,
                    old(self)@.grid.rows as int,
                ) && final(self)@ == old(self)@,
            },
    {
        let w = request.size.width;
        let h = request.size.height;
        if w <= 0 || h <= 0 || w > MAX_PAGE || h > MAX_PAGE {
            return Err(AtlasError::AllocationFailed(AllocationFailure::ExceedsCapacity));
        }
        let cw = ((w + CELL - 1) / CELL) as usize;
        let ch = ((h + CELL - 1) / CELL) as usize;
        let ghost pre = self@;
        assert(cw == cells_for(w as int));
        assert(ch == cells_for(h as int));
        match self.allocator.allocate(cw, ch, request.is_animated) {
            None => Err(AtlasError::AllocationFailed(AllocationFailure::NoSpace)),
            Some(c) => {
                assert(c.x + c.w <= MAX_PAGE / CELL);
                assert(c.y + c.h <= MAX_PAGE / CELL);
                let total = to_px(c);
                let useful = Rectangle { x: total.x, y: total.y, width: w, height: h };
                assert(w <= cw * 16) by (nonlinear_arith)
                    requires
                        cw as int == (w + CELL - 1) as int / 16,
                        w > 0,
                    ;
                assert(h <= ch * 16) by (nonlinear_arith)
                    requires
                        ch as int == (h + CELL - 1) as int / 16,
                        h > 0,
                    ;
                let texture_coords = calculate_tex_coords(useful, self.size);
                let t = TileInfo {
                    tileset: request.tileset,
                    page,
                    total_space: total,
                    useful_space: useful,
                    texture_coords,
                    offset: request.offset,
                    spacing: request.spacing,
                    alignment: request.alignment,
                    is_animated: request.is_animated,
                };
                self.tiles.push(t);
                proof {
                    let post = self@;
                    assert forall|i: int| 0 <= i < post.tiles.len() implies tile_matches(
                        #[trigger] post.tiles[i],
                        post.grid.slots[i],
                        post.size,
                    ) by {
                        if i < pre.tiles.len() {
                            assert(post.tiles[i] == pre.tiles[i]);
                            assert(post.grid.slots[i] == pre.grid.slots[i]);
                        }
                    }
                    assert(t == tile_for(*request, page, c, pre.size));
                    assert(allocated(pre.grid, post.grid, c, request.is_animated));
                    assert(post.tiles == pre.tiles.push(t));
                }
                Ok(t)
            },
        }
    }

    /// Drops tile `i` and frees its block.
    fn remove_at(&mut self, i: usize)
        requires
            old(self).wf(),
            i < old(self)@.tiles.len(),
        ensures
            final(self).wf(),
            final(self)@ == (PageState {
                tiles: old(self)@.tiles.remove(i as int),
                grid: GridState { slots: old(self)@.grid.slots.remove(i as int), ..old(self)@.grid },
                ..old(self)@
            }),
    {
        let ghost pre = self@;
        let c = self.allocator.slot(i).rect;
        let res = self.allocator.free(c);
        proof {
            let j = choose|j: int|
                0 <= j < pre.grid.slots.len() && (#[trigger] pre.grid.slots[j]).rect == c && self@.grid
                    == (GridState { slots: pre.grid.slots.remove(j), ..pre.grid });
            crate::allocator::lemma_blocks_unique(pre.grid, i as int, j);
        }
        self.tiles.remove(i);
        proof {
            let post = self@;
            assert forall|k: int| 0 <= k < post.tiles.len() implies tile_matches(
                #[trigger] post.tiles[k],
                post.grid.slots[k],
                post.size,
            ) by {
                let k0 = if k < i { k } else { k + 1 };
                assert(post.tiles[k] == pre.tiles[k0]);
                assert(post.grid.slots[k] == pre.grid.slots[k0]);
            }
        }
    }

    /// Removes the tile equal to `tile`, field for field, and frees its block.
    /// A handle of another page, or one made stale by a change of the page,
    /// is refused and nothing changes.
    pub fn remove(&mut self, tile: &TileInfo) -> (r: Result<(), AtlasError>)
        requires
            old(self).wf(),
        ensures
            final(self).wf(),
            r is Ok <==> exists|i: int| 0 <= i < old(self)@.tiles.len() && #[trigger] old(self)@.tiles[i] == *tile,
            r is Ok ==> page_removed(old(self)@, final(self)@, *tile),
            r is Err ==> r == Err::<(), AtlasError>(AtlasError::InvalidHandle) && final(self)@ == old(self)@,
    {
        let mut i: usize = 0;
        while i < self.tiles.len()
            invariant
                self.wf(),
                self@ == old(self)@,
                i <= self@.tiles.len(),
                forall|k: int| 0 <= k < i ==> #[trigger] self@.tiles[k] != *tile,
            decreases self@.tiles.len() - i,
        {
            if self.tiles[i] == *tile {
                assert(self@.tiles[i as int] == *tile);
                self.remove_at(i);
                return Ok(());
            }
            i = i + 1;
        }
        Err(AtlasError::InvalidHandle)
    }

    /// Grows the page, each side to twice its size but at most the largest
    /// side. Tiles keep their pixel rectangles; their texture coordinates are
    /// recomputed against the new size. False when the page cannot grow.
    pub fn try_grow(&mut self) -> (r: bool)
        requires
            old(self).wf(),
        ensures
            final(self).wf(),
            r == (grown(old(self)@.size.width) != old(self)@.size.width || grown(old(self)@.size.height)
                != old(self)@.size.height),
            !r ==> final(self)@ == old(self)@,
            r ==> final(self)@.size == (Size::<i32> {
                width: grown(old(self)@.size.width),
                height: grown(old(self)@.size.height),
            }),
            r ==> final(self)@.generation == next_generation(old(self)@.generation),
            final(self)@.filter == old(self)@.filter,
            final(self)@.grid.slots == old(self)@.grid.slots,
            final(self)@.tiles.len() == old(self)@.tiles.len(),
            forall|i: int|
                0 <= i < old(self)@.tiles.len() ==> #[trigger] final(self)@.tiles[i] == (TileInfo {
                    texture_coords: tex_coords_of(old(self)@.tiles[i].useful_space, final(self)@.size),
                    ..old(self)@.tiles[i]
                }),
    {
        let ghost pre = self@;
        let nw = if self.size.width > MAX_PAGE / 2 { MAX_PAGE } else { 2 * self.size.width };
        let nh = if self.size.height > MAX_PAGE / 2 { MAX_PAGE } else { 2 * self.size.height };
        if nw == self.size.width && nh == self.size.height {
            return false;
        }
        let size = Size { width: nw, height: nh };
        assert(nw / CELL >= self.size.width / CELL) by (nonlinear_arith)
            requires
                nw >= self.size.width,
            ;
        assert(nh / CELL >= self.size.height / CELL) by (nonlinear_arith)
            requires
                nh >= self.size.height,
            ;
        let _ = self.allocator.grow((nw / CELL) as usize, (nh / CELL) as usize);
        self.size = size;
        self.generation = self.generation.wrapping_add(1);
        let n = self.tiles.len();
        let mut i: usize = 0;
        while i < n
            invariant
                n == pre.tiles.len(),
                self@.tiles.len() == n,
                self@.size == size,
                self@.filter == pre.filter,
                self@.generation == next_generation(pre.generation),
                self@.grid == (GridState { cols: (nw / CELL) as nat, rows: (nh / CELL) as nat, ..pre.grid }),
                page_wf(pre),
                0 < nw <= MAX_PAGE,
                0 < nh <= MAX_PAGE,
                i <= n,
                forall|k: int|
                    0 <= k < n ==> #[trigger] self@.tiles[k] == if k < i {
                        TileInfo {
                            texture_coords: tex_coords_of(pre.tiles[k].useful_space, size),
                            ..pre.tiles[k]
                        }
                    } else {
                        pre.tiles[k]
                    },
            decreases n - i,
        {
            let mut t = self.tiles[i];
            proof {
                assert(tile_matches(pre.tiles[i as int], pre.grid.slots[i as int], pre.size));
                assert(grid_wf(pre.grid));
                let c = pre.grid.slots[i as int].rect;
                assert(c.x + c.w <= pre.grid.cols);
            }
            t.texture_coords = calculate_tex_coords(t.useful_space, size);
            self.tiles.set(i, t);
            i = i + 1;
        }
        proof {
            let post = self@;
            assert forall|k: int| 0 <= k < post.tiles.len() implies tile_matches(
                #[trigger] post.tiles[k],
                post.grid.slots[k],
                post.size,
            ) by {
                assert(tile_matches(pre.tiles[k], pre.grid.slots[k], pre.size));
            }
            assert forall|k: int| 0 <= k < post.grid.slots.len() implies {
                let r = #[trigger] post.grid.slots[k].rect;
                0 < r.w && 0 < r.h && r.x + r.w <= post.grid.cols && r.y + r.h <= post.grid.rows
            } by {
                assert(post.grid.slots[k] == pre.grid.slots[k]);
            }
        }
        true
    }

    /// Repacks the page: each tile that is not animated moves, in order, to
    /// the first block where it fits. Returns the moves, whose pixels the
    /// renderer must copy.
    pub fn defragment(&mut self) -> (moves: Vec<Relocation>)
        requires
            old(self).wf(),
        ensures
            final(self).wf(),
            final(self)@.size == old(self)@.size,
            final(self)@.filter == old(self)@.filter,
            final(self)@.generation == next_generation(old(self)@.generation),
            final(self)@.tiles.len() == old(self)@.tiles.len(),
            total_area(final(self)@.grid.slots) == total_area(old(self)@.grid.slots),
            defragmented(old(self)@.grid, final(self)@.grid),
            forall|i: int|
                0 <= i < old(self)@.tiles.len() ==> #[trigger] final(self)@.tiles[i] == moved_tile(
                    old(self)@.tiles[i],
                    final(self)@.grid.slots[i].rect,
                    old(self)@.size,
                ),
            forall|i: int|
                0 <= i < old(self)@.tiles.len() && (#[trigger] old(self)@.tiles[i]).is_animated
                    ==> final(self)@.tiles[i] == old(self)@.tiles[i],
            forall|m: int|
                0 <= m < moves@.len() ==> {
                    let mv = #[trigger] moves@[m];
                    &&& mv.tile < old(self)@.tiles.len()
                    &&& mv.from == old(self)@.tiles[mv.tile as int].total_space
                    &&& mv.to == final(self)@.tiles[mv.tile as int].total_space
                    &&& mv.from != mv.to
                },
            forall|i: int|
                0 <= i < old(self)@.tiles.len() && (#[trigger] final(self)@.tiles[i]).total_space
                    != old(self)@.tiles[i].total_space ==> exists|m: int|
                    0 <= m < moves@.len() && (#[trigger] moves@[m]).tile == i,
    {
        let ghost pre = self@;
        self.allocator.defragment();
        self.generation = self.generation.wrapping_add(1);
        let ghost packed = self@.grid;
        let n = self.tiles.len();
        let mut moves: Vec<Relocation> = Vec::new();
        let mut i: usize = 0;
        while i < n
            invariant
                page_wf(pre),
                self@.grid == packed,
                defragmented(pre.grid, packed),
                self@.generation == next_generation(pre.generation),
                n == pre.tiles.len(),
                self@.size == pre.size,
                self@.filter == pre.filter,
                grid_wf(self@.grid),
                self@.grid.cols == pre.grid.cols,
                self@.grid.rows == pre.grid.rows,
                self@.grid.slots.len() == n,
                self@.tiles.len() == n,
                i <= n,
                forall|k: int| 0 <= k < n ==> kept_shape(#[trigger] pre.grid.slots[k], self@.grid.slots[k]),
                total_area(self@.grid.slots) == total_area(pre.grid.slots),
                forall|k: int|
                    0 <= k < n ==> #[trigger] self@.tiles[k] == if k < i {
                        moved_tile(pre.tiles[k], self@.grid.slots[k].rect, pre.size)
                    } else {
                        pre.tiles[k]
                    },
                forall|m: int|
                    0 <= m < moves@.len() ==> {
                        let mv = #[trigger] moves@[m];
                        &&& mv.tile < i
                        &&& mv.from == pre.tiles[mv.tile as int].total_space
                        &&& mv.to == px_rect(self@.grid.slots[mv.tile as int].rect)
                        &&& mv.from != mv.to
                    },
                forall|k: int|
                    0 <= k < i && (#[trigger] self@.tiles[k]).total_space != pre.tiles[k].total_space
                        ==> exists|m: int| 0 <= m < moves@.len() && (#[trigger] moves@[m]).tile == k,
            decreases n - i,
        {
            let c = self.allocator.slot(i).rect;
            let t = self.tiles[i];
            proof {
                assert(tile_matches(pre.tiles[i as int], pre.grid.slots[i as int], pre.size));
                assert(kept_shape(pre.grid.slots[i as int], self@.grid.slots[i as int]));
                assert(0 < c.w && c.x + c.w <= self@.grid.cols);
                assert(0 < c.h && c.y + c.h <= self@.grid.rows);
            }
            let total = to_px(c);
            if total != t.total_space {
                let useful = Rectangle {
                    x: total.x,
                    y: total.y,
                    width: t.useful_space.width,
                    height: t.useful_space.height,
                };
                let texture_coords = calculate_tex_coords(useful, self.size);
                let nt = TileInfo { total_space: total, useful_space: useful, texture_coords, ..t };
                let ghost before_moves = moves@;
                let ghost before_tiles = self@.tiles;
                self.tiles.set(i, nt);
                moves.push(Relocation { tile: i, from: t.total_space, to: total });
                proof {
                    assert(moves@[moves@.len() - 1].tile == i);
                    assert forall|k: int|
                        0 <= k <= i && (#[trigger] self@.tiles[k]).total_space != pre.tiles[k].total_space
                            implies exists|m: int| 0 <= m < moves@.len() && (#[trigger] moves@[m]).tile == k by {
                        if k < i {
                            assert(self@.tiles[k] == before_tiles[k]);
                            let m0 = choose|m: int| 0 <= m < before_moves.len() && (#[trigger] before_moves[m]).tile == k;
                            assert(moves@[m0] == before_moves[m0]);
                        } else {
                            assert(moves@[moves@.len() - 1].tile == k);
                        }
                    }
                }
            } else {
                assert(moved_tile(pre.tiles[i as int], c, pre.size) == pre.tiles[i as int]);
            }
            i = i + 1;
        }
        proof {
            let post = self@;
            assert forall|k: int| 0 <= k < post.tiles.len() implies tile_matches(
                #[trigger] post.tiles[k],
                post.grid.slots[k],
                post.size,
            ) by {
                assert(tile_matches(pre.tiles[k], pre.grid.slots[k], pre.size));
                assert(kept_shape(pre.grid.slots[k], post.grid.slots[k]));
            }
            assert forall|k: int|
                0 <= k < n && (#[trigger] pre.tiles[k]).is_animated implies post.tiles[k] == pre.tiles[k] by {
                assert(tile_matches(pre.tiles[k], pre.grid.slots[k], pre.size));
                assert(kept_shape(pre.grid.slots[k], post.grid.slots[k]));
            }
        }
        moves
    }

    /// Drops every tile and frees the whole page; its size stays.
    pub fn clear(&mut self)
        requires
            old(self).wf(),
        ensures
            final(self).wf(),
            final(self)@ == (PageState {
                tiles: Seq::empty(),
                grid: GridState { slots: Seq::empty(), ..old(self)@.grid },
                generation: next_generation(old(self)@.generation),
                ..old(self)@
            }),
    {
        self.allocator.clear();
        self.tiles = Vec::new();
        self.generation = self.generation.wrapping_add(1);
    }

    /// Sets how the page is sampled; placement is not touched.
    pub fn apply_texture_filter(&mut self, filter: TextureFilter)
        ensures
            final(self)@ == (PageState { filter, ..old(self)@ }),
    {
        self.filter = filter;
    }

    /// Records that the atlas now knows this page as `page`: every tile is
    /// rewritten to say so.
    pub fn set_page_index(&mut self, page: usize)
        requires
            old(self).wf(),
        ensures
            final(self).wf(),
            final(self)@ == renumbered(old(self)@, page),
    {
        let ghost pre = self@;
        let n = self.tiles.len();
        let mut i: usize = 0;
        while i < n
            invariant
                page_wf(pre),
                n == pre.tiles.len(),
                self@.tiles.len() == n,
                self@ == (PageState { tiles: self@.tiles, ..pre }),
                i <= n,
                forall|k: int|
                    0 <= k < n ==> #[trigger] self@.tiles[k] == if k < i {
                        TileInfo { page, ..pre.tiles[k] }
                    } else {
                        pre.tiles[k]
                    },
            decreases n - i,
        {
            let mut t = self.tiles[i];
            t.page = page;
            self.tiles.set(i, t);
            i = i + 1;
        }
        proof {
            assert(self@.tiles =~= pre.tiles.map_values(|t: TileInfo| TileInfo { page, ..t }));
            assert forall|k: int| 0 <= k < n implies tile_matches(
                #[trigger] self@.tiles[k],
                self@.grid.slots[k],
                self@.size,
            ) by {
                assert(tile_matches(pre.tiles[k], pre.grid.slots[k], pre.size));
            }
        }
    }

    /// Evicts every tile whose flag in `live` is false, freeing its block;
    /// the others stay where they are, in order.
    pub fn clean_up(&mut self, live: &Vec<bool>)
        requires
            old(self).wf(),
            live@.len() == old(self)@.tiles.len(),
        ensures
            final(self).wf(),
            final(self)@ == (PageState {
                tiles: live_only(old(self)@.tiles, live@),
                grid: GridState { slots: live_only(old(self)@.grid.slots, live@), ..old(self)@.grid },
                ..old(self)@
            }),
    {
        let ghost pre = self@;
        let n = self.tiles.len();
        let mut i: usize = 0;
        let mut j: usize = 0;
        while j < n
            invariant
                self.wf(),
                page_wf(pre),
                n == pre.tiles.len(),
                live@.len() == n,
                j <= n,
                self@.size == pre.size,
                self@.filter == pre.filter,
                self@.generation == pre.generation,
                self@.grid.cols == pre.grid.cols,
                self@.grid.rows == pre.grid.rows,
                i == live_only(pre.tiles.take(j as int), live@.take(j as int)).len(),
                self@.tiles == live_only(pre.tiles.take(j as int), live@.take(j as int)) + pre.tiles.skip(
                    j as int,
                ),
                self@.grid.slots == live_only(pre.grid.slots.take(j as int), live@.take(j as int))
                    + pre.grid.slots.skip(j as int),
            decreases n - j,
        {
            let ghost ta = live_only(pre.tiles.take(j as int), live@.take(j as int));
            let ghost sa = live_only(pre.grid.slots.take(j as int), live@.take(j as int));
            proof {
                lemma_live_only_step(pre.tiles, live@, j as int);
                lemma_live_only_step(pre.grid.slots, live@, j as int);
                lemma_live_only_len(pre.tiles.take(j as int), pre.grid.slots.take(j as int), live@.take(j as int));
                assert(self@.tiles.len() == i + n - j);
            }
            if live[j] {
                proof {
                    assert(ta.push(pre.tiles[j as int]) + pre.tiles.skip(j + 1) =~= ta + pre.tiles.skip(j as int));
                    assert(sa.push(pre.grid.slots[j as int]) + pre.grid.slots.skip(j + 1) =~= sa
                        + pre.grid.slots.skip(j as int));
                }
                i = i + 1;
            } else {
                self.remove_at(i);
                proof {
                    assert((ta + pre.tiles.skip(j as int)).remove(i as int) =~= ta + pre.tiles.skip(j + 1));
                    assert((sa + pre.grid.slots.skip(j as int)).remove(i as int) =~= sa + pre.grid.slots.skip(
                        j + 1,
                    ));
                }
            }
            j = j + 1;
        }
        proof {
            assert(pre.tiles.take(n as int) =~= pre.tiles);
            assert(pre.grid.slots.take(n as int) =~= pre.grid.slots);
            assert(live@.take(n as int) =~= live@);
            assert(self@.tiles =~= live_only(pre.tiles, live@));
            assert(self@.grid.slots =~= live_only(pre.grid.slots, live@));
        }
    }
}

/// Page `p` once its tiles whose flag in `live` is false are evicted.
pub open spec fn cleaned(p: PageState, live: Seq<bool>) -> PageState {
    PageState {
        tiles: live_only(p.tiles, live),
        grid: GridState { slots: live_only(p.grid.slots, live), ..p.grid },
        ..p
    }
}

/// Each page of `pages` cleaned with its own flags.
pub open spec fn cleaned_pages(pages: Seq<PageState>, live: Seq<Vec<bool>>) -> Seq<PageState> {
    Seq::new(pages.len(), |q: int| cleaned(pages[q], live[q]@))
}

/// Page `p` once the atlas knows it as `page`: every tile says so.
pub open spec fn renumbered(p: PageState, page: usize) -> PageState {
    PageState { tiles: p.tiles.map_values(|t: TileInfo| TileInfo { page, ..t }), ..p }
}

/// The pages of `s` that hold a tile, in order, each renumbered to its new index.
pub open spec fn compacted(s: Seq<PageState>) -> Seq<PageState>
    decreases s.len(),
{
    if s.len() == 0 {
        Seq::empty()
    } else {
        let r = compacted(s.drop_last());
        if s.last().tiles.len() > 0 {
            r.push(renumbered(s.last(), r.len() as usize))
        } else {
            r
        }
    }
}

/// Where page `q` of `s` goes when `s` is compacted, if anywhere.
pub open spec fn new_index(s: Seq<PageState>, q: int) -> Option<usize> {
    if s[q].tiles.len() > 0 {
        Some(compacted(s.take(q)).len() as usize)
    } else {
        None
    }
}

proof fn lemma_compacted_step(s: Seq<PageState>, j: int)
    requires
        0 <= j < s.len(),
    ensures
        compacted(s.take(j + 1)) == if s[j].tiles.len() > 0 {
            compacted(s.take(j)).push(renumbered(s[j], compacted(s.take(j)).len() as usize))
        } else {
            compacted(s.take(j))
        },
{
    assert(s.take(j + 1).drop_last() =~= s.take(j));
}

/// The abstract state of an atlas: its pages in order, and the side of a
/// fresh page.
pub struct AtlasState {
    pub pages: Seq<PageState>,
    pub page_size: i32,
}

/// The side of the page made for a `w` by `h` tile, from a smallest side of
/// `s`: `s` doubled until the tile fits, at most the largest side.
pub open spec fn page_class(s: int, w: int, h: int) -> int
    decreases MAX_PAGE - s,
{
    if s >= w && s >= h || s >= MAX_PAGE || s <= 0 {
        s
    } else {
        page_class(if 2 * s > MAX_PAGE { MAX_PAGE as int } else { 2 * s }, w, h)
    }
}

/// `t`, the tile made for `req`, is the last tile of page `p`, on the first
/// block, in row-major order, that was free on that page: no other
/// allocation of the page overlaps it.
pub open spec fn placed_last(p: PageState, t: TileInfo, req: TileRequest) -> bool {
    let s = p.grid.slots;
    &&& s.len() > 0
    &&& p.tiles.len() == s.len()
    &&& p.tiles.last() == t
    &&& s.last().rect.w == cells_for(req.size.width as int)
    &&& s.last().rect.h == cells_for(req.size.height as int)
    &&& first_fit(s.drop_last(), s.len() - 1, s.last().rect, p.grid.cols as int, p.grid.rows as int)
    &&& t == tile_for(req, t.page, s.last().rect, p.size)
}

/// What `AtlasTexture::add` states of a placed tile gives `placed_last`.
proof fn lemma_add_placed_last(pre: PageState, post: PageState, t: TileInfo, req: TileRequest, page: usize)
    requires
        page_wf(pre),
        post.size == pre.size,
        page_added(pre, post, req, page, t),
    ensures
        placed_last(post, t, req),
        t.page == page,
{
    let c = choose|c: CellRect|
        c.w == cells_for(req.size.width as int) && c.h == cells_for(req.size.height as int)
            && #[trigger] allocated(pre.grid, post.grid, c, req.is_animated) && t == tile_for(
            req,
            page,
            c,
            pre.size,
        ) && post.tiles == pre.tiles.push(t);
    assert(post.grid.slots.drop_last() =~= pre.grid.slots);
    assert(post.grid.slots.last().rect == c);
}

/// Every texture page in use, and the side that new pages start from.
pub struct Atlas {
    textures: Vec<AtlasTexture>,
    page_size: i32,
}

impl View for Atlas {
    type V = AtlasState;

    closed spec fn view(&self) -> AtlasState {
        AtlasState { pages: self.textures@.map_values(|t: AtlasTexture| t@), page_size: self.page_size }
    }
}

impl Atlas {
    pub open spec fn wf(&self) -> bool {
        &&& CELL <= self@.page_size <= MAX_PAGE
        &&& self@.page_size % CELL == 0
        &&& forall|q: int| 0 <= q < self@.pages.len() ==> page_wf(#[trigger] self@.pages[q])
    }

    /// An atlas with no page yet; new pages are at least `page_size` pixels a
    /// side, a whole number of cells.
    pub fn new(page_size: i32) -> (r: Self)
        requires
            CELL <= page_size <= MAX_PAGE,
            page_size % CELL == 0,
        ensures
            r.wf(),
            r@.pages.len() == 0,
            r@.page_size == page_size,
    {
        let r = Atlas { textures: Vec::new(), page_size };
        assert(r@.pages =~= Seq::empty());
        r
    }

    pub fn page_count(&self) -> (r: usize)
        ensures
            r == self@.pages.len(),
    {
        self.textures.len()
    }

    pub fn page(&self, i: usize) -> (r: &AtlasTexture)
        requires
            i < self@.pages.len(),
        ensures
            r@ == self@.pages[i as int],
    {
        &self.textures[i]
    }

    /// Places a tile: on the first page, in order, that has room for it,
    /// growing each full page once before moving on; else on a new page of
    /// the smallest class that holds it.
    pub fn add(&mut self, request: &TileRequest) -> (r: Result<TileInfo, AtlasError>)
        requires
            old(self).wf(),
        ensures
            final(self).wf(),
            final(self)@.page_size == old(self)@.page_size,
            r is Ok <==> valid_request(*request),
            !valid_request(*request) ==> r == Err::<TileInfo, AtlasError>(
                AtlasError::AllocationFailed(AllocationFailure::ExceedsCapacity),
            ) && final(self)@ == old(self)@,
            r matches Ok(t) ==> {
                &&& t.page < final(self)@.pages.len()
                &&& placed_last(final(self)@.pages[t.page as int], t, *request)
                &&& t.page < old(self)@.pages.len() ==> final(self)@.pages.len() == old(self)@.pages.len()
                &&& t.page >= old(self)@.pages.len() ==> {
                    let side = page_class(
                        old(self)@.page_size as int,
                        request.size.width as int,
                        request.size.height as int,
                    ) as i32;
                    &&& t.page == old(self)@.pages.len()
                    &&& final(self)@.pages.len() == old(self)@.pages.len() + 1
                    &&& final(self)@.pages[t.page as int].size == (Size::<i32> { width: side, height: side })
                }
                &&& forall|q: int|
                    0 <= q < t.page ==> no_fit(
                        (#[trigger] final(self)@.pages[q]).grid.slots,
                        final(self)@.pages[q].grid.slots.len() as int,
                        cells_for(request.size.width as int),
                        cells_for(request.size.height as int),
                        final(self)@.pages[q].grid.cols as int,
                        final(self)@.pages[q].grid.rows as int,
                    )
                &&& forall|q: int|
                    0 <= q < old(self)@.pages.len() && q < t.page ==> regridded(
                        old(self)@.pages[q],
                        #[trigger] final(self)@.pages[q],
                    )
                &&& forall|q: int|
                    t.page < q < old(self)@.pages.len() ==> #[trigger] final(self)@.pages[q] == old(self)@.pages[q]
                &&& t.page < old(self)@.pages.len() ==> exists|mid: PageState|
                    regridded(old(self)@.pages[t.page as int], mid) && #[trigger] page_added(
                        mid,
                        final(self)@.pages[t.page as int],
                        *request,
                        t.page,
                        t,
                    )
            },
    {
        let w = request.size.width;
        let h = request.size.height;
        if w <= 0 || h <= 0 || w > MAX_PAGE || h > MAX_PAGE {
            return Err(AtlasError::AllocationFailed(AllocationFailure::ExceedsCapacity));
        }
        let ghost cw = cells_for(w as int);
        let ghost ch = cells_for(h as int);
        let n = self.textures.len();
        let mut i: usize = 0;
        while i < n
            invariant
                self.wf(),
                self@.page_size == old(self)@.page_size,
                valid_request(*request),
                cw == cells_for(request.size.width as int),
                ch == cells_for(request.size.height as int),
                n == self@.pages.len(),
                n == old(self)@.pages.len(),
                i <= n,
                forall|q: int|
                    0 <= q < i ==> no_fit(
                        (#[trigger] self@.pages[q]).grid.slots,
                        self@.pages[q].grid.slots.len() as int,
                        cw,
                        ch,
                        self@.pages[q].grid.cols as int,
                        self@.pages[q].grid.rows as int,
                    ),
                forall|q: int| 0 <= q < i ==> regridded(old(self)@.pages[q], #[trigger] self@.pages[q]),
                forall|q: int| i <= q < n ==> #[trigger] self@.pages[q] == old(self)@.pages[q],
            decreases n - i,
        {
            let ghost before = self@;
            proof {
                lemma_regridded_refl(before.pages[i as int]);
            }
            assert(self@.pages[i as int] == self.textures@[i as int]@);
            let first = self.textures[i].add(i, request);
            proof {
                self.lemma_page_updated(before, i as int);
                self.lemma_wf_updated(before, i as int);
            }
            match first {
                Ok(t) => {
                    proof {
                        lemma_add_placed_last(before.pages[i as int], self@.pages[i as int], t, *request, i);
                        self.lemma_earlier_pages(before, i as int, *request);
                        assert(page_added(before.pages[i as int], self@.pages[i as int], *request, i, t));
                        assert forall|q: int| 0 <= q < n && q != i implies #[trigger] self@.pages[q] == before.pages[q] by {}
                    }
                    return Ok(t);
                },
                Err(_) => {},
            }
            let ghost mid = self@;
            assert(mid.pages[i as int] == self.textures@[i as int]@);
            if self.textures[i].try_grow() {
                proof {
                    self.lemma_page_updated(mid, i as int);
                    self.lemma_wf_updated(mid, i as int);
                }
                let ghost grown_state = self@;
                assert(grown_state.pages[i as int] == self.textures@[i as int]@);
                let second = self.textures[i].add(i, request);
                proof {
                    self.lemma_page_updated(grown_state, i as int);
                    self.lemma_wf_updated(grown_state, i as int);
                }
                match second {
                    Ok(t) => {
                        proof {
                            lemma_add_placed_last(
                                grown_state.pages[i as int],
                                self@.pages[i as int],
                                t,
                                *request,
                                i,
                            );
                            self.lemma_earlier_pages(before, i as int, *request);
                            assert(page_added(grown_state.pages[i as int], self@.pages[i as int], *request, i, t));
                            assert(regridded(before.pages[i as int], grown_state.pages[i as int]));
                            assert forall|q: int| 0 <= q < n && q != i implies #[trigger] self@.pages[q] == before.pages[q] by {}
                        }
                        return Ok(t);
                    },
                    Err(_) => {},
                }
            } else {
                proof {
                    self.lemma_page_updated(mid, i as int);
                    self.lemma_wf_updated(mid, i as int);
                }
            }
            proof {
                self.lemma_earlier_pages(before, i as int, *request);
                assert(regridded(before.pages[i as int], self@.pages[i as int]));
                assert forall|q: int| 0 <= q < n && q != i implies #[trigger] self@.pages[q] == before.pages[q] by {}
            }
            i = i + 1;
        }
        let mut side = self.page_size;
        while side < w || side < h
            invariant
                CELL <= side <= MAX_PAGE,
                side % CELL == 0,
                0 < w <= MAX_PAGE,
                0 < h <= MAX_PAGE,
                page_class(side as int, w as int, h as int) == page_class(
                    old(self)@.page_size as int,
                    w as int,
                    h as int,
                ),
            decreases MAX_PAGE - side,
        {
            side = if side > MAX_PAGE / 2 { MAX_PAGE } else { 2 * side };
        }
        let mut page = AtlasTexture::new(Size { width: side, height: side });
        let placed = page.add(n, request);
        match placed {
            Ok(t) => {
                let ghost before = self@;
                self.textures.push(page);
                proof {
                    assert(self@.pages =~= before.pages.push(page@));
                    assert forall|q: int| 0 <= q < n implies #[trigger] self@.pages[q] == before.pages[q] by {}
                    assert forall|q: int| 0 <= q < self@.pages.len() implies page_wf(#[trigger] self@.pages[q]) by {
                        if q < n {
                            assert(self@.pages[q] == before.pages[q]);
                        }
                    }
                    assert(self@.pages[n as int] == page@);
                    lemma_add_placed_last(
                        AtlasTexture::new_state(Size { width: side, height: side }),
                        page@,
                        t,
                        *request,
                        n,
                    );
                }
                Ok(t)
            },
            Err(_) => {
                proof {
                    assert(cw <= side / CELL) by (nonlinear_arith)
                        requires
                            cw == (w + 15) / 16,
                            w <= side,
                            side % 16 == 0,
                            w > 0,
                    ;
                    assert(ch <= side / CELL) by (nonlinear_arith)
                        requires
                            ch == (h + 15) / 16,
                            h <= side,
                            side % 16 == 0,
                            h > 0,
                    ;
                    assert(fits_at(Seq::<Slot>::empty(), 0, 0, 0, cw, ch, (side / CELL) as int, (side / CELL) as int));
                }
                Err(AtlasError::AllocationFailed(AllocationFailure::NoSpace))
            },
        }
    }

    /// Removes `tile` from the page it names.
    pub fn remove(&mut self, tile: &TileInfo) -> (r: Result<(), AtlasError>)
        requires
            old(self).wf(),
        ensures
            final(self).wf(),
            final(self)@.page_size == old(self)@.page_size,
            final(self)@.pages.len() == old(self)@.pages.len(),
            r is Ok <==> tile.page < old(self)@.pages.len() && exists|i: int|
                0 <= i < old(self)@.pages[tile.page as int].tiles.len()
                    && #[trigger] old(self)@.pages[tile.page as int].tiles[i] == *tile,
            r is Ok ==> final(self)@.pages == old(self)@.pages.update(
                tile.page as int,
                final(self)@.pages[tile.page as int],
            ) && page_removed(old(self)@.pages[tile.page as int], final(self)@.pages[tile.page as int], *tile),
            r is Err ==> r == Err::<(), AtlasError>(AtlasError::InvalidHandle) && final(self)@ == old(self)@,
    {
        if tile.page >= self.textures.len() {
            return Err(AtlasError::InvalidHandle);
        }
        let ghost before = self@;
        let p = tile.page;
        assert(self@.pages[p as int] == self.textures@[p as int]@);
        let r = self.textures[p].remove(tile);
        proof {
            self.lemma_page_updated(before, p as int);
            self.lemma_wf_updated(before, p as int);
            if r is Err {
                assert(self@.pages =~= before.pages);
            }
        }
        r
    }

    /// Defragments every page. Returns, for each page, the moves whose
    /// pixels the renderer must copy.
    pub fn defragment(&mut self) -> (moves: Vec<Vec<Relocation>>)
        requires
            old(self).wf(),
        ensures
            final(self).wf(),
            final(self)@.page_size == old(self)@.page_size,
            final(self)@.pages.len() == old(self)@.pages.len(),
            moves@.len() == old(self)@.pages.len(),
            forall|q: int|
                0 <= q < old(self)@.pages.len() ==> {
                    let a = #[trigger] old(self)@.pages[q];
                    let b = final(self)@.pages[q];
                    &&& b.size == a.size
                    &&& b.filter == a.filter
                    &&& b.generation == next_generation(a.generation)
                    &&& moves_listed(a, b, moves@[q]@)
                    &&& b.tiles.len() == a.tiles.len()
                    &&& defragmented(a.grid, b.grid)
                    &&& total_area(b.grid.slots) == total_area(a.grid.slots)
                    &&& forall|i: int|
                        0 <= i < a.tiles.len() ==> #[trigger] b.tiles[i] == moved_tile(
                            a.tiles[i],
                            b.grid.slots[i].rect,
                            a.size,
                        )
                    &&& forall|i: int|
                        0 <= i < a.tiles.len() && (#[trigger] a.tiles[i]).is_animated ==> b.tiles[i]
                            == a.tiles[i]
                },
    {
        let ghost start = self@;
        let n = self.textures.len();
        let mut moves: Vec<Vec<Relocation>> = Vec::new();
        let mut q: usize = 0;
        while q < n
            invariant
                self.wf(),
                n == self@.pages.len(),
                n == start.pages.len(),
                self@.page_size == start.page_size,
                q <= n,
                moves@.len() == q,
                forall|k: int| q <= k < n ==> #[trigger] self@.pages[k] == start.pages[k],
                forall|k: int|
                    0 <= k < q ==> {
                        let a = #[trigger] start.pages[k];
                        let b = self@.pages[k];
                        &&& b.size == a.size
                        &&& b.filter == a.filter
                        &&& b.generation == next_generation(a.generation)
                        &&& moves_listed(a, b, moves@[k]@)
                        &&& b.tiles.len() == a.tiles.len()
                        &&& defragmented(a.grid, b.grid)
                        &&& total_area(b.grid.slots) == total_area(a.grid.slots)
                        &&& forall|i: int|
                            0 <= i < a.tiles.len() ==> #[trigger] b.tiles[i] == moved_tile(
                                a.tiles[i],
                                b.grid.slots[i].rect,
                                a.size,
                            )
                        &&& forall|i: int|
                            0 <= i < a.tiles.len() && (#[trigger] a.tiles[i]).is_animated ==> b.tiles[i]
                                == a.tiles[i]
                    },
            decreases n - q,
        {
            let ghost before = self@;
            assert(self@.pages[q as int] == self.textures@[q as int]@);
            let m = self.textures[q].defragment();
            proof {
                self.lemma_page_updated(before, q as int);
                self.lemma_wf_updated(before, q as int);
                assert forall|k: int| 0 <= k < n && k != q implies #[trigger] self@.pages[k] == before.pages[k] by {}
                assert(moves_listed(before.pages[q as int], self@.pages[q as int], m@));
            }
            let ghost prev = moves@;
            moves.push(m);
            proof {
                assert forall|k: int| 0 <= k < q implies #[trigger] moves@[k] == prev[k] by {}
            }
            q = q + 1;
        }
        moves
    }

    /// Evicts, on each page `q`, the tiles whose flag in `live[q]` is false,
    /// then drops every page left empty. The pages that stay keep their
    /// order and their tiles are told their new page index. Returns, for
    /// each old page, its new index, or `None` when it was dropped.
    pub fn clean_up(&mut self, live: &Vec<Vec<bool>>) -> (map: Vec<Option<usize>>)
        requires
            old(self).wf(),
            live@.len() == old(self)@.pages.len(),
            forall|q: int|
                0 <= q < live@.len() ==> (#[trigger] live@[q])@.len() == old(self)@.pages[q].tiles.len(),
        ensures
            final(self).wf(),
            final(self)@.page_size == old(self)@.page_size,
            final(self)@.pages == compacted(cleaned_pages(old(self)@.pages, live@)),
            map@.len() == old(self)@.pages.len(),
            forall|q: int|
                0 <= q < old(self)@.pages.len() ==> #[trigger] map@[q] == new_index(
                    cleaned_pages(old(self)@.pages, live@),
                    q,
                ),
            forall|k: int| 0 <= k < final(self)@.pages.len() ==> (#[trigger] final(self)@.pages[k]).tiles.len() > 0,
    {
        let ghost start = self@;
        let ghost target = cleaned_pages(start.pages, live@);
        let n = self.textures.len();
        let mut q: usize = 0;
        while q < n
            invariant
                self.wf(),
                n == self@.pages.len(),
                n == start.pages.len(),
                live@.len() == n,
                target == cleaned_pages(start.pages, live@),
                forall|k: int| 0 <= k < n ==> (#[trigger] live@[k])@.len() == start.pages[k].tiles.len(),
                self@.page_size == start.page_size,
                q <= n,
                forall|k: int| q <= k < n ==> #[trigger] self@.pages[k] == start.pages[k],
                forall|k: int| 0 <= k < q ==> #[trigger] self@.pages[k] == target[k],
            decreases n - q,
        {
            let ghost before = self@;
            assert(self@.pages[q as int] == self.textures@[q as int]@);
            self.textures[q].clean_up(&live[q]);
            proof {
                self.lemma_page_updated(before, q as int);
                self.lemma_wf_updated(before, q as int);
                assert forall|k: int| 0 <= k < n && k != q implies #[trigger] self@.pages[k] == before.pages[k] by {}
                assert(self@.pages[q as int] == target[q as int]);
            }
            q = q + 1;
        }
        let ghost full = self@;
        assert(full.pages =~= target);
        let mut rest: Vec<AtlasTexture> = Vec::new();
        std::mem::swap(&mut rest, &mut self.textures);
        let mut kept: Vec<AtlasTexture> = Vec::new();
        let mut map: Vec<Option<usize>> = Vec::new();
        let mut j: usize = 0;
        while j < n
            invariant
                n == target.len(),
                j <= n,
                rest@.len() == n - j,
                forall|k: int| 0 <= k < n - j ==> (#[trigger] rest@[k])@ == target[j + k],
                forall|k: int| 0 <= k < n ==> page_wf(#[trigger] target[k]),
                kept@.len() == compacted(target.take(j as int)).len(),
                forall|k: int| 0 <= k < kept@.len() ==> (#[trigger] kept@[k])@ == compacted(target.take(j as int))[k],
                forall|k: int| 0 <= k < kept@.len() ==> page_wf((#[trigger] kept@[k])@),
                forall|k: int| 0 <= k < kept@.len() ==> (#[trigger] kept@[k])@.tiles.len() > 0,
                map@.len() == j,
                forall|k: int| 0 <= k < j ==> #[trigger] map@[k] == new_index(target, k),
            decreases n - j,
        {
            let ghost prev_rest = rest@;
            let ghost prev_kept = kept@;
            let mut page = rest.remove(0);
            proof {
                assert(page@ == target[j as int]);
                lemma_compacted_step(target, j as int);
                assert forall|k: int| 0 <= k < n - (j + 1) implies (#[trigger] rest@[k])@ == target[j + 1 + k] by {
                    assert(rest@[k] == prev_rest[k + 1]);
                }
            }
            if page.tiles().len() > 0 {
                let idx = kept.len();
                page.set_page_index(idx);
                kept.push(page);
                map.push(Some(idx));
                proof {
                    assert forall|k: int| 0 <= k < kept@.len() implies (#[trigger] kept@[k])@ == compacted(
                        target.take(j + 1),
                    )[k] by {
                        if k < prev_kept.len() {
                            assert(kept@[k] == prev_kept[k]);
                        }
                    }
                    assert forall|k: int| 0 <= k < kept@.len() implies page_wf((#[trigger] kept@[k])@) by {
                        if k < prev_kept.len() {
                            assert(kept@[k] == prev_kept[k]);
                        }
                    }
                    assert forall|k: int| 0 <= k < kept@.len() implies (#[trigger] kept@[k])@.tiles.len() > 0 by {
                        if k < prev_kept.len() {
                            assert(kept@[k] == prev_kept[k]);
                        }
                    }
                }
            } else {
                map.push(None);
            }
            proof {
                assert(map@[j as int] == new_index(target, j as int));
            }
            j = j + 1;
        }
        self.textures = kept;
        proof {
            assert(target.take(n as int) =~= target);
            assert(self@.pages =~= compacted(target));
            assert forall|k: int| 0 <= k < self@.pages.len() implies page_wf(#[trigger] self@.pages[k]) by {
                assert(self@.pages[k] == self.textures@[k]@);
            }
            assert forall|k: int| 0 <= k < self@.pages.len() implies (#[trigger] self@.pages[k]).tiles.len() > 0 by {
                assert(self@.pages[k] == self.textures@[k]@);
            }
        }
        map
    }

    /// Empties every page; pages and their sizes stay.
    pub fn clear(&mut self)
        requires
            old(self).wf(),
        ensures
            final(self).wf(),
            final(self)@.page_size == old(self)@.page_size,
            final(self)@.pages.len() == old(self)@.pages.len(),
            forall|q: int|
                0 <= q < old(self)@.pages.len() ==> #[trigger] final(self)@.pages[q] == (PageState {
                    tiles: Seq::empty(),
                    grid: GridState { slots: Seq::empty(), ..old(self)@.pages[q].grid },
                    generation: next_generation(old(self)@.pages[q].generation),
                    ..old(self)@.pages[q]
                }),
    {
        let ghost start = self@;
        let n = self.textures.len();
        let mut q: usize = 0;
        while q < n
            invariant
                self.wf(),
                n == self@.pages.len(),
                n == start.pages.len(),
                self@.page_size == start.page_size,
                q <= n,
                forall|k: int| q <= k < n ==> #[trigger] self@.pages[k] == start.pages[k],
                forall|k: int|
                    0 <= k < q ==> #[trigger] self@.pages[k] == (PageState {
                        tiles: Seq::empty(),
                        grid: GridState { slots: Seq::empty(), ..start.pages[k].grid },
                        generation: next_generation(start.pages[k].generation),
                        ..start.pages[k]
                    }),
            decreases n - q,
        {
            let ghost before = self@;
            assert(self@.pages[q as int] == self.textures@[q as int]@);
            self.textures[q].clear();
            proof {
                self.lemma_page_updated(before, q as int);
                self.lemma_wf_updated(before, q as int);
                assert forall|k: int| 0 <= k < n && k != q implies #[trigger] self@.pages[k] == before.pages[k] by {}
            }
            q = q + 1;
        }
    }

    /// Sets how every page is sampled.
    pub fn apply_texture_filter(&mut self, filter: TextureFilter)
        requires
            old(self).wf(),
        ensures
            final(self).wf(),
            final(self)@.page_size == old(self)@.page_size,
            final(self)@.pages.len() == old(self)@.pages.len(),
            forall|q: int|
                0 <= q < old(self)@.pages.len() ==> #[trigger] final(self)@.pages[q] == (PageState {
                    filter,
                    ..old(self)@.pages[q]
                }),
    {
        let ghost start = self@;
        let n = self.textures.len();
        let mut q: usize = 0;
        while q < n
            invariant
                self.wf(),
                n == self@.pages.len(),
                n == start.pages.len(),
                self@.page_size == start.page_size,
                q <= n,
                forall|k: int| q <= k < n ==> #[trigger] self@.pages[k] == start.pages[k],
                forall|k: int| 0 <= k < q ==> #[trigger] self@.pages[k] == (PageState { filter, ..start.pages[k] }),
            decreases n - q,
        {
            let ghost before = self@;
            assert(self@.pages[q as int] == self.textures@[q as int]@);
            self.textures[q].apply_texture_filter(filter);
            proof {
                self.lemma_page_updated(before, q as int);
                self.lemma_wf_updated(before, q as int);
                assert forall|k: int| 0 <= k < n && k != q implies #[trigger] self@.pages[k] == before.pages[k] by {}
            }
            q = q + 1;
        }
    }

    /// Pages before `i` are as they were in `before`.
    proof fn lemma_earlier_pages(&self, before: AtlasState, i: int, req: TileRequest)
        requires
            0 <= i < before.pages.len(),
            self@.pages.len() == before.pages.len(),
            forall|q: int| 0 <= q < before.pages.len() && q != i ==> #[trigger] self@.pages[q] == before.pages[q],
            forall|q: int|
                0 <= q < i ==> no_fit(
                    (#[trigger] before.pages[q]).grid.slots,
                    before.pages[q].grid.slots.len() as int,
                    cells_for(req.size.width as int),
                    cells_for(req.size.height as int),
                    before.pages[q].grid.cols as int,
                    before.pages[q].grid.rows as int,
                ),
        ensures
            forall|q: int|
                0 <= q < i ==> no_fit(
                    (#[trigger] self@.pages[q]).grid.slots,
                    self@.pages[q].grid.slots.len() as int,
                    cells_for(req.size.width as int),
                    cells_for(req.size.height as int),
                    self@.pages[q].grid.cols as int,
                    self@.pages[q].grid.rows as int,
                ),
    {
        assert forall|q: int| 0 <= q < i implies no_fit(
            (#[trigger] self@.pages[q]).grid.slots,
            self@.pages[q].grid.slots.len() as int,
            cells_for(req.size.width as int),
            cells_for(req.size.height as int),
            self@.pages[q].grid.cols as int,
            self@.pages[q].grid.rows as int,
        ) by {
            assert(self@.pages[q] == before.pages[q]);
        }
    }

    /// Replacing one well-formed page keeps the atlas well formed.
    proof fn lemma_wf_updated(&self, before: AtlasState, i: int)
        requires
            0 <= i < before.pages.len(),
            self@.pages == before.pages.update(i, self.textures@[i]@),
            page_wf(self.textures@[i]@),
            self@.page_size == before.page_size,
            CELL <= before.page_size <= MAX_PAGE,
            before.page_size % CELL == 0,
            forall|q: int| 0 <= q < before.pages.len() ==> page_wf(#[trigger] before.pages[q]),
        ensures
            self.wf(),
    {
        assert forall|q: int| 0 <= q < self@.pages.len() implies page_wf(#[trigger] self@.pages[q]) by {
            if q != i {
                assert(self@.pages[q] == before.pages[q]);
            }
        }
    }

    /// After page `i` alone changed, the view is the old one with that page replaced.
    proof fn lemma_page_updated(&self, before: AtlasState, i: int)
        requires
            0 <= i < before.pages.len(),
            self.textures@.len() == before.pages.len(),
            forall|q: int| 0 <= q < before.pages.len() && q != i ==> #[trigger] self.textures@[q]@ == before.pages[q],
        ensures
            self@.pages == before.pages.update(i, self.textures@[i]@),
    {
        assert(self@.pages =~= before.pages.update(i, self.textures@[i]@));
    }
}

/// On a well-formed page no two tiles share a pixel: every operation of a
/// page keeps it well formed, so this holds after any sequence of them.
pub proof fn lemma_tiles_never_overlap(p: PageState)
    requires
        page_wf(p),
    ensures
        forall|i: int, j: int|
            0 <= i < p.tiles.len() && 0 <= j < p.tiles.len() && i != j ==> px_disjoint(
                #[trigger] p.tiles[i].total_space,
                #[trigger] p.tiles[j].total_space,
            ),
{
    assert forall|i: int, j: int|
        0 <= i < p.tiles.len() && 0 <= j < p.tiles.len() && i != j implies px_disjoint(
            #[trigger] p.tiles[i].total_space,
            #[trigger] p.tiles[j].total_space,
        ) by {
        assert(tile_matches(p.tiles[i], p.grid.slots[i], p.size));
        assert(tile_matches(p.tiles[j], p.grid.slots[j], p.size));
        assert(crate::allocator::disjoint(p.grid.slots[i].rect, p.grid.slots[j].rect));
        let a = p.grid.slots[i].rect;
        let b = p.grid.slots[j].rect;
        assert(a.x + a.w <= p.grid.cols && b.x + b.w <= p.grid.cols);
        assert(a.y + a.h <= p.grid.rows && b.y + b.h <= p.grid.rows);
    }
}

/// Adding a tile to a page and then removing that tile gives back the page
/// exactly as it was, free space included.
pub proof fn lemma_add_then_remove_restores(
    pre: PageState,
    mid: PageState,
    post: PageState,
    req: TileRequest,
    page: usize,
    t: TileInfo,
)
    requires
        page_wf(pre),
        page_added(pre, mid, req, page, t),
        page_removed(mid, post, t),
    ensures
        post == pre,
{
    let c = choose|c: CellRect|
        c.w == cells_for(req.size.width as int) && c.h == cells_for(req.size.height as int)
            && #[trigger] allocated(pre.grid, mid.grid, c, req.is_animated) && t == tile_for(
            req,
            page,
            c,
            pre.size,
        ) && mid.tiles == pre.tiles.push(t);
    let i = choose|i: int|
        0 <= i < mid.tiles.len() && #[trigger] mid.tiles[i] == t && post
            == (PageState {
            tiles: mid.tiles.remove(i),
            grid: GridState { slots: mid.grid.slots.remove(i), ..mid.grid },
            ..mid
        });
    if i < pre.tiles.len() {
        assert(mid.tiles[i] == pre.tiles[i]);
        assert(tile_matches(pre.tiles[i], pre.grid.slots[i], pre.size));
        let a = pre.grid.slots[i].rect;
        assert(px_rect(a) == px_rect(c));
        assert(a.x + a.w <= pre.grid.cols && a.y + a.h <= pre.grid.rows);
        assert(a == c);
        assert(crate::allocator::disjoint(a, c));
    }
    assert(i == pre.tiles.len());
    assert(post.tiles =~= pre.tiles);
    assert(post.grid.slots =~= pre.grid.slots);
}

} // verus!

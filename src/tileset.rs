use vstd::prelude::*;
use crate::atlas::TileInfo;
use crate::error::AtlasError;
use crate::size::Size;

verus! {

/// Tiles for consecutive character codes, the first for `offset`.
pub struct GlyphRange {
    offset: u32,
    tiles: Vec<TileInfo>,
}

/// A run of codes as the contracts see it.
pub struct GlyphRun {
    pub offset: int,
    pub tiles: Seq<TileInfo>,
}

impl View for GlyphRange {
    type V = GlyphRun;

    closed spec fn view(&self) -> GlyphRun {
        GlyphRun { offset: self.offset as int, tiles: self.tiles@ }
    }
}

/// `run` has a tile for `code`.
pub open spec fn run_provides(run: GlyphRun, code: int) -> bool {
    run.offset <= code < run.offset + run.tiles.len()
}

/// The tile for `code` from the first run, at index `k` or later, that has one.
pub open spec fn lookup_from(runs: Seq<GlyphRun>, k: int, code: int) -> Option<TileInfo>
    decreases runs.len() - k,
{
    if k < 0 || k >= runs.len() {
        None
    } else if run_provides(runs[k], code) {
        Some(runs[k].tiles[code - runs[k].offset])
    } else {
        lookup_from(runs, k + 1, code)
    }
}

/// Widest visible part among `tiles`, or 0 when there is none.
pub open spec fn max_width(tiles: Seq<TileInfo>) -> i32
    decreases tiles.len(),
{
    if tiles.len() == 0 {
        0
    } else {
        let rest = max_width(tiles.drop_last());
        let w = tiles.last().useful_space.width;
        if w > rest { w } else { rest }
    }
}

/// Tallest visible part among `tiles`, or 0 when there is none.
pub open spec fn max_height(tiles: Seq<TileInfo>) -> i32
    decreases tiles.len(),
{
    if tiles.len() == 0 {
        0
    } else {
        let rest = max_height(tiles.drop_last());
        let h = tiles.last().useful_space.height;
        if h > rest { h } else { rest }
    }
}

/// The abstract state of a tileset: its first code, its spacing, and the
/// runs it answers from, its own first and then the chained ones in order.
pub struct TilesetState {
    pub offset: char,
    pub spacing: Size<i32>,
    pub runs: Seq<GlyphRun>,
}

/// A named glyph range with fallbacks: tiles for the codes from `offset` on,
/// then other tilesets chained after it.
pub struct Tileset {
    pub offset: char,
    spacing: Size<i32>,
    tiles: Vec<TileInfo>,
    fallbacks: Vec<GlyphRange>,
}

impl View for Tileset {
    type V = TilesetState;

    closed spec fn view(&self) -> TilesetState {
        TilesetState {
            offset: self.offset,
            spacing: self.spacing,
            runs: seq![GlyphRun { offset: self.offset as int, tiles: self.tiles@ }] + self.fallbacks@.map_values(
                |g: GlyphRange| g@,
            ),
        }
    }
}

impl Tileset {
    /// A tileset with no tiles yet whose first code is `offset`.
    pub fn new(offset: char) -> (r: Self)
        ensures
            r@.offset == offset,
            r@.spacing == (Size::<i32> { width: 1, height: 1 }),
            r@.runs == seq![GlyphRun { offset: offset as int, tiles: Seq::<TileInfo>::empty() }],
    {
        let r = Self { offset, spacing: Size { width: 1, height: 1 }, tiles: Vec::new(), fallbacks: Vec::new() };
        assert(r@.runs =~= seq![GlyphRun { offset: offset as int, tiles: Seq::<TileInfo>::empty() }]);
        r
    }

    /// The first code of this set's own range, which is the first run it answers from.
    pub fn get_offset(&self) -> (r: char)
        ensures
            r == self@.offset,
            self@.runs.len() >= 1,
            self@.runs[0].offset == r as int,
    {
        self.offset
    }

    /// Sets the advance between tiles of this set.
    pub fn set_spacing(&mut self, spacing: Size<i32>)
        ensures
            final(self)@ == (TilesetState { spacing, ..old(self)@ }),
    {
        self.spacing = spacing;
    }

    /// Appends the tile for the next code of this set's own range.
    pub fn push_tile(&mut self, tile: TileInfo)
        requires
            old(self)@.offset as int + old(self)@.runs[0].tiles.len() < u32::MAX,
        ensures
            final(self)@ == (TilesetState {
                runs: old(self)@.runs.update(
                    0,
                    GlyphRun { offset: old(self)@.offset as int, tiles: old(self)@.runs[0].tiles.push(tile) },
                ),
                ..old(self)@
            }),
    {
        let ghost pre = self@;
        self.tiles.push(tile);
        assert(self@.runs =~= pre.runs.update(
            0,
            GlyphRun { offset: pre.offset as int, tiles: pre.runs[0].tiles.push(tile) },
        ));
    }

    /// Whether this set's own range has a tile for `code`.
    pub fn provides(&self, code: char) -> (r: bool)
        ensures
            r == run_provides(self@.runs[0], code as int),
    {
        assert(self@.runs[0] == GlyphRun { offset: self.offset as int, tiles: self.tiles@ });
        let c = code as u32;
        let o = self.offset as u32;
        o <= c && ((c - o) as usize) < self.tiles.len()
    }

    /// Whether `offset` lies in this set's own code range.
    pub fn is_font_offset(&self, offset: char) -> (r: bool)
        ensures
            r == run_provides(self@.runs[0], offset as int),
    {
        self.provides(offset)
    }

    pub fn get_spacing(&self) -> (r: Size<i32>)
        ensures
            r == self@.spacing,
    {
        self.spacing
    }

    /// The smallest box that holds the visible part of every tile of this
    /// set's own range.
    pub fn get_bounding_box_size(&self) -> (r: Size<i32>)
        ensures
            r.width == max_width(self@.runs[0].tiles),
            r.height == max_height(self@.runs[0].tiles),
    {
        assert(self@.runs[0] == GlyphRun { offset: self.offset as int, tiles: self.tiles@ });
        let mut w: i32 = 0;
        let mut h: i32 = 0;
        let mut i: usize = 0;
        while i < self.tiles.len()
            invariant
                i <= self.tiles@.len(),
                w == max_width(self.tiles@.take(i as int)),
                h == max_height(self.tiles@.take(i as int)),
            decreases self.tiles@.len() - i,
        {
            let t = self.tiles[i];
            proof {
                assert(self.tiles@.take(i + 1).drop_last() =~= self.tiles@.take(i as int));
            }
            if t.useful_space.width > w {
                w = t.useful_space.width;
            }
            if t.useful_space.height > h {
                h = t.useful_space.height;
            }
            i = i + 1;
        }
        assert(self.tiles@.take(i as int) =~= self.tiles@);
        Size { width: w, height: h }
    }

    /// Chains `tileset` after this one: its own range, then its fallbacks,
    /// are consulted after everything this set already consults.
    pub fn add_tileset(&mut self, tileset: Tileset)
        ensures
            final(self)@ == (TilesetState { runs: old(self)@.runs + tileset@.runs, ..old(self)@ }),
    {
        let ghost pre = self@;
        let ghost other = tileset@;
        let Tileset { offset, spacing: _, tiles, mut fallbacks } = tileset;
        let ghost rest = fallbacks@;
        self.fallbacks.push(GlyphRange { offset: offset as u32, tiles });
        self.fallbacks.append(&mut fallbacks);
        assert(self@.runs =~= pre.runs + other.runs);
    }

    /// The tile for `code`: from this set's own range if it has one, else
    /// from the first chained set, in the order they were added, that has one.
    pub fn get(&self, code: char) -> (r: Result<TileInfo, AtlasError>)
        ensures
            r == match lookup_from(self@.runs, 0, code as int) {
                Some(t) => Ok::<TileInfo, AtlasError>(t),
                None => Err(AtlasError::GlyphNotFound),
            },
    {
        let c = code as u32;
        let o = self.offset as u32;
        let ghost runs = self@.runs;
        assert(runs[0] == GlyphRun { offset: self.offset as int, tiles: self.tiles@ });
        if o <= c && ((c - o) as usize) < self.tiles.len() {
            return Ok(self.tiles[(c - o) as usize]);
        }
        let mut k: usize = 0;
        while k < self.fallbacks.len()
            invariant
                runs == self@.runs,
                c == code as u32,
                k <= self.fallbacks@.len(),
                runs.len() == self.fallbacks@.len() + 1,
                lookup_from(runs, 0, code as int) == lookup_from(runs, k + 1, code as int),
            decreases self.fallbacks@.len() - k,
        {
            let g = &self.fallbacks[k];
            assert(runs[k + 1] == g@);
            assert(c as int == code as int);
            if g.offset <= c && ((c - g.offset) as usize) < g.tiles.len() {
                assert(run_provides(runs[k + 1], code as int));
                assert(g.tiles@[(c - g.offset) as int] == runs[k + 1].tiles[code as int - runs[k + 1].offset]);
                return Ok(g.tiles[(c - g.offset) as usize]);
            }
            assert(!run_provides(runs[k + 1], code as int));
            assert(lookup_from(runs, k + 1, code as int) == lookup_from(runs, k + 2, code as int));
            k = k + 1;
        }
        Err(AtlasError::GlyphNotFound)
    }
}

} // verus!

//! The generator: a template padded with a ring of edge tiles, the catalog of
//! its patterns, its border rule, and the assembly of generated skeletons.
use vstd::prelude::*;
use wfc::overlapping::OverlappingPatterns;
use crate::border::{border_ids, honours, rule_pins, ForceBorderForbid, Pin};
use crate::catalog::{
    catalog_grid, catalog_id_grid, catalog_ids, catalog_len, catalog_top_left, new_catalog,
    MAX_CELLS, PATTERN_SIZE,
};
use crate::engine::{Engine, EngineView};
use crate::grid::{
    fits, fits_exec, lemma_cell_index, lemma_fits, lemma_grid_cell, lemma_index_in_grid, on_ring, padded,
    unpadded,
};
use crate::template::{array_error, TemplateError};
use crate::tile::{fill_rule, Tile};

verus! {

/// The pins a template's pattern ids give a `w` x `h` output: the patterns at
/// the template's corners and at the middle of its top edge. The template,
/// padded, is `tw` x `th`.
pub open spec fn template_pins(ids: Seq<u32>, tw: int, th: int, w: int, h: int) -> Seq<Pin> {
    rule_pins(
        ids[0],
        ids[(th - 1) * tw],
        ids[tw - 1],
        ids[(th - 1) * tw + tw - 1],
        ids[tw / 2],
        w,
        h,
    )
}

/// A wildcard at `i` of a grid `w` wide filled from its neighbours; any other
/// tile as it is.
pub open spec fn resolved(raw: Seq<Tile>, i: int, w: int) -> Tile {
    if raw[i] == Tile::Any {
        fill_rule(raw, i, w)
    } else {
        raw[i]
    }
}

/// The inside of a `(width + 2)` x `(height + 2)` grid, wildcards filled from
/// the grid as it was, and its outer ring stripped.
pub open spec fn skeleton_tiles(raw: Seq<Tile>, width: int, height: int) -> Seq<Tile> {
    Seq::new(
        (width * height) as nat,
        |k: int| resolved(raw, (k / width + 1) * (width + 2) + k % width + 1, width + 2),
    )
}

/// The pattern id the solver chose for each cell.
pub open spec fn chosen_ids(chosen: Seq<Option<u32>>) -> Seq<u32> {
    chosen.map_values(|c: Option<u32>| c->0)
}

/// The top-left tile of each pattern of a grid of pattern ids.
pub open spec fn top_left_tiles(ids: Seq<u32>, pattern_tiles: Seq<Tile>) -> Seq<Tile> {
    ids.map_values(|id: u32| pattern_tiles[id as int])
}

/// Whether the solver's result for a `width` x `height` output is one a
/// generator can turn into an engine: one pattern of its catalog per padded
/// cell, keeping the generator's border rule.
pub open spec fn accepts(g: GeneratorView, width: int, height: int, chosen: Seq<Option<u32>>) -> bool {
    let w = width + 2;
    let h = height + 2;
    let tw = g.width + 2 as int;
    let th = g.height + 2 as int;
    &&& fits(width, height)
    &&& chosen.len() == w * h
    &&& forall|k: int| 0 <= k < chosen.len() ==> (#[trigger] chosen[k] is Some && chosen[k]->0 < g.pattern_tiles.len())
    &&& honours(template_pins(g.ids, tw, th, w, h), border_ids(g.ids, tw, th), chosen_ids(chosen), w, h)
}

/// An accepted result keeps the template's border patterns at the pins.
///
/// Where the solver's result is one a generator accepts, the four corners of
/// the output hold the patterns found at the template's four corners, and the
/// middle of its top edge the pattern found at the middle of the template's.
pub proof fn lemma_corners_pinned(g: GeneratorView, width: u32, height: u32, chosen: Seq<Option<u32>>)
    requires
        accepts(g, width as int, height as int, chosen),
    ensures
        ({
            let ids = chosen_ids(chosen);
            let w = width + 2 as int;
            let h = height + 2 as int;
            let tw = g.width + 2 as int;
            let th = g.height + 2 as int;
            &&& ids[0] == g.ids[0]
            &&& ids[(h - 1) * w] == g.ids[(th - 1) * tw]
            &&& ids[w - 1] == g.ids[tw - 1]
            &&& ids[(h - 1) * w + w - 1] == g.ids[(th - 1) * tw + tw - 1]
            &&& ids[w / 2] == g.ids[tw / 2]
        }),
{
    let w = width + 2 as int;
    let h = height + 2 as int;
    let tw = g.width + 2 as int;
    let th = g.height + 2 as int;
    let pins = template_pins(g.ids, tw, th, w, h);
    lemma_fits(width as int, height as int);
    assert(pins[0] == Pin { x: 0, y: 0, pattern_id: g.ids[0] });
    assert(pins[0].y * w + pins[0].x == 0) by (nonlinear_arith)
        requires
            pins[0].y == 0,
            pins[0].x == 0,
    ;
    assert(pins[1].y * w + pins[1].x == (h - 1) * w);
    assert(pins[2].y * w + pins[2].x == w - 1);
    assert(pins[3].y * w + pins[3].x == (h - 1) * w + w - 1);
    assert(pins[4].y * w + pins[4].x == w / 2);
}

/// What a generator is: its template's size, the padded template, the pattern
/// id at each padded cell and the top-left tile of each pattern.
pub struct GeneratorView {
    pub width: nat,
    pub height: nat,
    pub grid: Seq<Tile>,
    pub ids: Seq<u32>,
    pub pattern_tiles: Seq<Tile>,
}

/// The siege engine generator.
pub struct Generator {
    width: u32,
    height: u32,
    grid: Vec<Tile>,
    overlapping_patterns: OverlappingPatterns<Tile>,
    pattern_ids: Vec<u32>,
    pattern_tiles: Vec<Tile>,
}

/// Pad a `width` x `height` template with a ring of edge tiles.
fn pad_template(width: u32, height: u32, tiles: &[Tile]) -> (r: Vec<Tile>)
    requires
        tiles@.len() == width * height,
        fits(width as int, height as int),
    ensures
        r@ == padded(tiles@, width as int, height as int),
{
    proof {
        lemma_fits(width as int, height as int);
    }
    let w = width as usize + 2;
    let h = height as usize + 2;
    let ghost target = padded(tiles@, width as int, height as int);
    let mut grid: Vec<Tile> = Vec::new();
    let mut y: usize = 0;
    while y < h
        invariant
            w == width + 2,
            h == height + 2,
            tiles@.len() == width * height,
            tiles@.len() <= w * h,
            fits(width as int, height as int),
            target == padded(tiles@, width as int, height as int),
            target.len() == w * h,
            0 <= y <= h,
            grid@.len() == y * w,
            forall|k: int| 0 <= k < grid@.len() ==> grid@[k] == target[k],
        decreases h - y,
    {
        let mut x: usize = 0;
        while x < w
            invariant
                w == width + 2,
                h == height + 2,
                tiles@.len() == width * height,
                tiles@.len() <= w * h,
                fits(width as int, height as int),
                target == padded(tiles@, width as int, height as int),
                target.len() == w * h,
                0 <= y < h,
                0 <= x <= w,
                grid@.len() == y * w + x,
                forall|k: int| 0 <= k < grid@.len() ==> grid@[k] == target[k],
            decreases w - x,
        {
            proof {
                lemma_index_in_grid(w as int, h as int, x as int, y as int);
                lemma_cell_index(grid@.len() as int, w as int, x as int, y as int);
            }
            if x == 0 || x == w - 1 || y == 0 || y == h - 1 {
                grid.push(Tile::Edge);
            } else {
                proof {
                    lemma_index_in_grid(
                        width as int,
                        height as int,
                        x as int - 1,
                        y as int - 1,
                    );
                    assert(tiles@.len() <= w * h);
                }
                let i = (y - 1) * (width as usize) + (x - 1);
                grid.push(tiles[i]);
            }
            x = x + 1;
        }
        assert((y + 1) * w == y * w + w) by (nonlinear_arith);
        y = y + 1;
    }
    proof {
        assert(h * w == w * h) by (nonlinear_arith);
        assert(grid@ =~= target);
    }
    grid
}

/// Fill the wildcards inside a `(width + 2)` x `(height + 2)` grid from their
/// neighbours as they were, and strip the outer ring.
fn strip_and_fill(raw: &Vec<Tile>, width: u32, height: u32) -> (r: Vec<Tile>)
    requires
        raw@.len() == (width + 2) * (height + 2),
        fits(width as int, height as int),
    ensures
        r@ == skeleton_tiles(raw@, width as int, height as int),
{
    proof {
        lemma_fits(width as int, height as int);
    }
    let w = width as usize + 2;
    let ghost h = height + 2;
    let ghost target = skeleton_tiles(raw@, width as int, height as int);
    let mut tiles: Vec<Tile> = Vec::new();
    let mut y: usize = 0;
    while y < height as usize
        invariant
            w == width + 2,
            h == height + 2,
            raw@.len() == w * h,
            w * h <= MAX_CELLS,
            target == skeleton_tiles(raw@, width as int, height as int),
            0 <= y <= height,
            tiles@.len() == y * width,
            forall|k: int| 0 <= k < tiles@.len() ==> tiles@[k] == target[k],
        decreases height - y,
    {
        let mut x: usize = 0;
        while x < width as usize
            invariant
                w == width + 2,
                h == height + 2,
                raw@.len() == w * h,
                w * h <= MAX_CELLS,
                target == skeleton_tiles(raw@, width as int, height as int),
                0 <= y < height,
                0 <= x <= width,
                tiles@.len() == y * width + x,
                forall|k: int| 0 <= k < tiles@.len() ==> tiles@[k] == target[k],
            decreases width - x,
        {
            proof {
                lemma_index_in_grid(width as int, height as int, x as int, y as int);
                lemma_cell_index(tiles@.len() as int, width as int, x as int, y as int);
                lemma_index_in_grid(w as int, h, x as int + 2, y as int + 2);
                assert((y + 2) * w == (y + 1) * w + w) by (nonlinear_arith);
                assert((y + 1) * w >= w) by (nonlinear_arith)
                    requires
                        0 <= y,
                        0 <= w,
                ;
            }
            let i = (y + 1) * w + x + 1;
            let t = raw[i];
            if t == Tile::Any {
                tiles.push(Tile::fill_any(i, raw, w));
            } else {
                tiles.push(t);
            }
            x = x + 1;
        }
        assert((y + 1) * width == y * width + width) by (nonlinear_arith);
        y = y + 1;
    }
    proof {
        assert(height * width == width * height) by (nonlinear_arith);
        assert(tiles@ =~= target);
    }
    tiles
}

impl View for Generator {
    type V = GeneratorView;

    closed spec fn view(&self) -> GeneratorView {
        GeneratorView {
            width: self.width as nat,
            height: self.height as nat,
            grid: self.grid@,
            ids: self.pattern_ids@,
            pattern_tiles: self.pattern_tiles@,
        }
    }
}

impl Generator {
    /// The generator's invariant: the grid is the template with its edge ring,
    /// the ids are the catalog's, and each pattern's top-left tile is the tile of
    /// every cell where it sits.
    pub closed spec fn wf(&self) -> bool {
        let w = self.width + 2;
        let h = self.height + 2;
        &&& fits(self.width as int, self.height as int)
        &&& self.grid@.len() == w * h
        &&& forall|k: int|
            0 <= k < self.grid@.len() ==> (#[trigger] self.grid@[k] == Tile::Edge <==> on_ring(
                k % w,
                k / w,
                w,
                h,
            ))
        &&& catalog_grid(self.overlapping_patterns) == self.grid@
        &&& catalog_ids(self.overlapping_patterns) == self.pattern_ids@
        &&& catalog_len(self.overlapping_patterns) == self.pattern_tiles@.len()
        &&& self.pattern_ids@.len() == self.grid@.len()
        &&& forall|k: int|
            0 <= k < self.pattern_ids@.len() ==> #[trigger] self.pattern_ids@[k]
                < self.pattern_tiles@.len()
        &&& forall|id: u32|
            id < self.pattern_tiles@.len() ==> #[trigger] self.pattern_ids@.contains(id)
        &&& forall|k: int|
            0 <= k < self.pattern_ids@.len() ==> self.pattern_tiles@[#[trigger] self.pattern_ids@[k] as int]
                == self.grid@[k]
    }

    /// A generator over a template that is already padded.
    fn from_padded(width: u32, height: u32, grid: Vec<Tile>) -> (r: Generator)
        requires
            fits(width as int, height as int),
            grid@.len() == (width + 2) * (height + 2),
            forall|k: int|
                0 <= k < grid@.len() ==> (#[trigger] grid@[k] == Tile::Edge <==> on_ring(
                    k % (width + 2),
                    k / (width + 2),
                    width + 2,
                    height + 2,
                )),
        ensures
            r.wf(),
            r@.width == width,
            r@.height == height,
            r@.grid == grid@,
    {
        proof {
            lemma_fits(width as int, height as int);
        }
        let overlapping_patterns = new_catalog(&grid, width + 2, height + 2, PATTERN_SIZE);
        let pattern_ids = catalog_id_grid(&overlapping_patterns);
        let ghost ids = pattern_ids@;
        let ghost len = catalog_len(overlapping_patterns);
        // The ids are numbered from 0 on, so one more than the largest is their count.
        let mut count: u64 = 0;
        let ghost mut top: int = 0;
        let mut k: usize = 0;
        while k < pattern_ids.len()
            invariant
                ids == pattern_ids@,
                ids.len() == grid@.len(),
                ids.len() >= 4,
                len <= ids.len() <= MAX_CELLS,
                forall|i: int| 0 <= i < ids.len() ==> ids[i] < len,
                0 <= k <= ids.len(),
                count <= len,
                forall|i: int| 0 <= i < k ==> ids[i] < count,
                k == 0 ==> count == 0,
                k > 0 ==> 0 <= top < k && ids[top] + 1 == count,
            decreases ids.len() - k,
        {
            if pattern_ids[k] as u64 + 1 > count {
                count = pattern_ids[k] as u64 + 1;
                proof {
                    top = k as int;
                }
            }
            k = k + 1;
        }
        proof {
            assert(ids[0] < count);
            if count < len {
                let missing = count as u32;
                assert(ids.contains(missing));
                let i = choose|i: int| 0 <= i < ids.len() && ids[i] == missing;
                assert(ids[i] < count);
            }
        }
        let mut pattern_tiles: Vec<Tile> = Vec::new();
        let mut id: u64 = 0;
        while id < count
            invariant
                ids == pattern_ids@,
                ids == catalog_ids(overlapping_patterns),
                grid@ == catalog_grid(overlapping_patterns),
                ids.len() == grid@.len(),
                len == catalog_len(overlapping_patterns),
                count == len,
                len <= MAX_CELLS,
                forall|j: u32| j < len ==> #[trigger] ids.contains(j),
                0 <= id <= count,
                pattern_tiles@.len() == id,
                forall|i: int|
                    0 <= i < ids.len() && ids[i] < id ==> pattern_tiles@[ids[i] as int] == grid@[i],
            decreases count - id,
        {
            let ghost j = id as u32;
            assert(ids.contains(j));
            let tile = catalog_top_left(&overlapping_patterns, id as u32);
            pattern_tiles.push(tile);
            id = id + 1;
        }
        Generator { width, height, grid, overlapping_patterns, pattern_ids, pattern_tiles }
    }

    /// Use a template of `width` x `height` tiles, given row by row.
    ///
    /// Fails when the number of tiles is not `width * height`, when a tile is the
    /// internal edge tile, or when the padded template is too large for the solver.
    pub fn from_array(width: u32, height: u32, map: &[Tile]) -> (r: Result<Generator, TemplateError>)
        ensures
            match array_error(width as int, height as int, map@) {
                Some(e) => r == Err::<Generator, TemplateError>(e),
                None => r is Ok && r->Ok_0.wf() && r->Ok_0@.width == width && r->Ok_0@.height
                    == height && r->Ok_0@.grid == padded(map@, width as int, height as int),
            },
    {
        assert(width as int * height as int <= 0xffff_fffe_0000_0001) by (nonlinear_arith)
            requires
                0 <= width <= 0xffff_ffff,
                0 <= height <= 0xffff_ffff,
        ;
        let cells: u64 = width as u64 * height as u64;
        if map.len() as u64 != cells {
            return Err(TemplateError::DimensionMismatch);
        }
        assert(map@.len() == width * height);
        let mut i: usize = 0;
        while i < map.len()
            invariant
                map@.len() == width * height,
                0 <= i <= map@.len(),
                forall|j: int| 0 <= j < i ==> map@[j] != Tile::Edge,
            decreases map@.len() - i,
        {
            if map[i] == Tile::Edge {
                assert(map@[i as int] == Tile::Edge);
                assert(map@.contains(Tile::Edge));
                return Err(TemplateError::UnknownSymbol);
            }
            i = i + 1;
        }
        if !fits_exec(width as u64, height as u64) {
            return Err(TemplateError::TooLarge);
        }
        let grid = pad_template(width, height, map);
        proof {
            let w = width + 2;
            let h = height + 2;
            assert forall|k: int| 0 <= k < grid@.len() implies (#[trigger] grid@[k] == Tile::Edge
                <==> on_ring(k % w, k / w, w, h)) by {
                lemma_grid_cell(k, w, h);
                let x = k % w;
                let y = k / w;
                if !on_ring(x, y, w, h) {
                    lemma_index_in_grid(width as int, height as int, x - 1, y - 1);
                    assert(map@.contains(map@[(y - 1) * width + (x - 1)]));
                }
            }
        }
        Ok(Self::from_padded(width, height, grid))
    }

    /// What a well-formed generator holds: its grid is the template with a ring
    /// of edge tiles and no edge tile inside it, each padded cell has a pattern
    /// of the catalog, every pattern sits somewhere, and each pattern's top-left
    /// tile is the tile of every cell where it sits.
    pub proof fn lemma_well_formed(&self)
        requires
            self.wf(),
        ensures
            ({
                let w = self@.width + 2 as int;
                let h = self@.height + 2 as int;
                let grid = self@.grid;
                let ids = self@.ids;
                let tiles = self@.pattern_tiles;
                &&& fits(self@.width as int, self@.height as int)
                &&& grid.len() == w * h
                &&& ids.len() == grid.len()
                &&& forall|k: int|
                    0 <= k < grid.len() ==> (#[trigger] grid[k] == Tile::Edge <==> on_ring(
                        k % w,
                        k / w,
                        w,
                        h,
                    ))
                &&& forall|k: int| 0 <= k < ids.len() ==> #[trigger] ids[k] < tiles.len()
                &&& forall|id: u32| id < tiles.len() ==> #[trigger] ids.contains(id)
                &&& forall|k: int| 0 <= k < ids.len() ==> tiles[#[trigger] ids[k] as int] == grid[k]
            }),
    {
    }

    /// Create the border rule of this generator's template: the patterns at its
    /// corners and at the middle of its top edge, and all patterns on its border.
    pub fn force_border_forbid(&self) -> (r: ForceBorderForbid)
        requires
            self.wf(),
        ensures
            ({
                let ids = self@.ids;
                let w = self@.width + 2 as int;
                let h = self@.height + 2 as int;
                &&& r.top_left == ids[0]
                &&& r.bot_left == ids[(h - 1) * w]
                &&& r.top_right == ids[w - 1]
                &&& r.bot_right == ids[(h - 1) * w + w - 1]
                &&& r.top_mid == ids[w / 2]
                &&& r.pattern_ids@ == border_ids(ids, w, h)
            }),
    {
        proof {
            lemma_fits(self.width as int, self.height as int);
        }
        let w = self.width as usize + 2;
        let h = self.height as usize + 2;
        let ghost ids = self.pattern_ids@;
        let ghost target = border_ids(ids, w as int, h as int);
        proof {
            lemma_index_in_grid(w as int, h as int, w - 1, h - 1);
            lemma_index_in_grid(w as int, h as int, 0, h - 1);
        }
        let top_left = self.pattern_ids[0];
        let bot_left = self.pattern_ids[(h - 1) * w];
        let top_right = self.pattern_ids[w - 1];
        let bot_right = self.pattern_ids[(h - 1) * w + w - 1];
        let top_mid = self.pattern_ids[w / 2];
        let mut pattern_ids: Vec<u32> = Vec::new();
        let mut x: usize = 0;
        while x < w
            invariant
                self.wf(),
                ids == self.pattern_ids@,
                w == self.width + 2,
                h == self.height + 2,
                ids.len() == w * h,
                target == border_ids(ids, w as int, h as int),
                0 <= x <= w,
                pattern_ids@.len() == 2 * x,
                forall|k: int| 0 <= k < pattern_ids@.len() ==> pattern_ids@[k] == target[k],
            decreases w - x,
        {
            proof {
                lemma_index_in_grid(w as int, h as int, x as int, h - 1);
                lemma_index_in_grid(w as int, h as int, x as int, 0);
            }
            pattern_ids.push(self.pattern_ids[x]);
            pattern_ids.push(self.pattern_ids[(h - 1) * w + x]);
            x = x + 1;
        }
        let mut y: usize = 0;
        while y < h
            invariant
                self.wf(),
                ids == self.pattern_ids@,
                w == self.width + 2,
                h == self.height + 2,
                ids.len() == w * h,
                target == border_ids(ids, w as int, h as int),
                0 <= y <= h,
                pattern_ids@.len() == 2 * w + 2 * y,
                forall|k: int| 0 <= k < pattern_ids@.len() ==> pattern_ids@[k] == target[k],
            decreases h - y,
        {
            proof {
                lemma_index_in_grid(w as int, h as int, 0, y as int);
                lemma_index_in_grid(w as int, h as int, w - 1, y as int);
            }
            pattern_ids.push(self.pattern_ids[y * w]);
            pattern_ids.push(self.pattern_ids[y * w + w - 1]);
            y = y + 1;
        }
        proof {
            assert(pattern_ids@ =~= target);
        }
        ForceBorderForbid { pattern_ids, top_left, bot_left, top_right, bot_right, top_mid }
    }

    /// A pattern that never occurs on the template's border does not hold the
    /// edge tile in its top-left corner.
    proof fn lemma_inner_pattern(&self, id: u32)
        requires
            self.wf(),
            id < self.pattern_tiles@.len(),
            !border_ids(self.pattern_ids@, self.width + 2, self.height + 2).contains(id),
        ensures
            self.pattern_tiles@[id as int] != Tile::Edge,
    {
        let w = self.width + 2;
        let h = self.height + 2;
        let ids = self.pattern_ids@;
        let border = border_ids(ids, w, h);
        if self.pattern_tiles@[id as int] == Tile::Edge {
            assert(ids.contains(id));
            let j = choose|j: int| 0 <= j < ids.len() && ids[j] == id;
            assert(self.grid@[j] == Tile::Edge);
            lemma_grid_cell(j, w, h);
            let x = j % w;
            let y = j / w;
            assert(j == y * w + x);
            if y == 0 {
                assert(j == x);
                assert((2 * x) % 2 == 0 && (2 * x) / 2 == x);
                assert(border[2 * x] == ids[j]);
            } else if y == h - 1 {
                assert((2 * x + 1) % 2 == 1 && (2 * x + 1) / 2 == x);
                assert(border[2 * x + 1] == ids[j]);
            } else if x == 0 {
                assert((2 * y) % 2 == 0 && (2 * y) / 2 == y);
                assert(border[2 * w + 2 * y] == ids[j]);
            } else {
                assert((2 * y + 1) % 2 == 1 && (2 * y + 1) / 2 == y);
                assert(border[2 * w + 2 * y + 1] == ids[j]);
            }
        }
    }

    /// Turn the solver's result for a `width` x `height` output into an engine.
    ///
    /// `chosen` holds, row by row, the pattern chosen for each cell of the output
    /// with its ring, `(width + 2)` x `(height + 2)`. Each pattern becomes its
    /// top-left tile, wildcards are filled from their neighbours, and the ring is
    /// stripped. Gives `None` where a cell has no pattern of the catalog, or the
    /// result breaks the border rule.
    pub fn skeleton_from_patterns(
        &self,
        width: u32,
        height: u32,
        chosen: &Vec<Option<u32>>,
    ) -> (r: Option<Engine>)
        requires
            self.wf(),
        ensures
            r is Some == accepts(self@, width as int, height as int, chosen@),
            r is Some ==> r->Some_0@ == (EngineView {
                width: width as nat,
                height: height as nat,
                tiles: skeleton_tiles(
                    top_left_tiles(chosen_ids(chosen@), self@.pattern_tiles),
                    width as int,
                    height as int,
                ),
            }),
            r is Some ==> forall|i: int|
                0 <= i < r->Some_0@.tiles.len() ==> r->Some_0@.tiles[i] != Tile::Edge
                    && r->Some_0@.tiles[i] != Tile::Any,
    {
        if !fits_exec(width as u64, height as u64) {
            return None;
        }
        proof {
            lemma_fits(width as int, height as int);
        }
        let cells: u64 = (width as u64 + 2) * (height as u64 + 2);
        if chosen.len() as u64 != cells {
            return None;
        }
        let w: u32 = width + 2;
        let h: u32 = height + 2;
        let ghost n = self.pattern_tiles@.len();
        let mut ids: Vec<u32> = Vec::new();
        let mut raw: Vec<Tile> = Vec::new();
        let mut k: usize = 0;
        while k < chosen.len()
            invariant
                self.wf(),
                n == self.pattern_tiles@.len(),
                0 <= k <= chosen@.len(),
                ids@ == chosen_ids(chosen@).take(k as int),
                raw@ == top_left_tiles(ids@, self.pattern_tiles@),
                forall|j: int| 0 <= j < k ==> (#[trigger] chosen@[j] is Some && chosen@[j]->0 < n),
            decreases chosen@.len() - k,
        {
            match chosen[k] {
                Some(id) => {
                    if id as usize >= self.pattern_tiles.len() {
                        return None;
                    }
                    ids.push(id);
                    raw.push(self.pattern_tiles[id as usize]);
                    proof {
                        assert(ids@ =~= chosen_ids(chosen@).take(k as int + 1));
                        assert(raw@ =~= top_left_tiles(ids@, self.pattern_tiles@));
                    }
                },
                None => {
                    return None;
                },
            }
            k = k + 1;
        }
        proof {
            assert(ids@ =~= chosen_ids(chosen@));
        }
        let rule = self.force_border_forbid();
        if !rule.honoured_by(&ids, w, h) {
            return None;
        }
        let tiles = strip_and_fill(&raw, width, height);
        proof {
            let tw = self.width + 2;
            let th = self.height + 2;
            assert forall|k: int| 0 <= k < tiles@.len() implies tiles@[k] != Tile::Edge
                && tiles@[k] != Tile::Any by {
                lemma_grid_cell(k, width as int, height as int);
                let x = k % (width as int) + 1;
                let y = k / (width as int) + 1;
                let i = y * w + x;
                lemma_index_in_grid(w as int, h as int, x, y);
                lemma_cell_index(i, w as int, x, y);
                assert(!on_ring(i % (w as int), i / (w as int), w as int, h as int));
                assert(!border_ids(self.pattern_ids@, tw, th).contains(ids@[i]));
                self.lemma_inner_pattern(ids@[i]);
            }
        }
        Some(Engine::new(width, height, tiles))
    }

    /// The template as it was given, without the ring of edge tiles.
    pub fn template(&self) -> (r: Engine)
        requires
            self.wf(),
        ensures
            r@ == (EngineView {
                width: self@.width,
                height: self@.height,
                tiles: unpadded(self@.grid, self@.width as int, self@.height as int),
            }),
    {
        proof {
            lemma_fits(self.width as int, self.height as int);
        }
        let w = self.width as usize + 2;
        let ghost h = self.height + 2;
        let ghost target = unpadded(self.grid@, self.width as int, self.height as int);
        let mut tiles: Vec<Tile> = Vec::new();
        let mut y: usize = 0;
        while y < self.height as usize
            invariant
                self.wf(),
                w == self.width + 2,
                h == self.height + 2,
                target == unpadded(self.grid@, self.width as int, self.height as int),
                0 <= y <= self.height,
                tiles@.len() == y * self.width,
                forall|k: int| 0 <= k < tiles@.len() ==> tiles@[k] == target[k],
                forall|k: int| 0 <= k < tiles@.len() ==> tiles@[k] != Tile::Edge,
            decreases self.height - y,
        {
            let mut x: usize = 0;
            while x < self.width as usize
                invariant
                    self.wf(),
                    w == self.width + 2,
                    h == self.height + 2,
                    target == unpadded(self.grid@, self.width as int, self.height as int),
                    0 <= y < self.height,
                    0 <= x <= self.width,
                    tiles@.len() == y * self.width + x,
                    forall|k: int| 0 <= k < tiles@.len() ==> tiles@[k] == target[k],
                    forall|k: int| 0 <= k < tiles@.len() ==> tiles@[k] != Tile::Edge,
                decreases self.width - x,
            {
                proof {
                    lemma_fits(self.width as int, self.height as int);
                    lemma_index_in_grid(self.width as int, self.height as int, x as int, y as int);
                    lemma_cell_index(tiles@.len() as int, self.width as int, x as int, y as int);
                    lemma_index_in_grid(w as int, h, x as int + 1, y as int + 1);
                    let i = (y + 1) * w + x + 1;
                    lemma_cell_index(i, w as int, x + 1, y + 1);
                }
                let i = (y + 1) * w + x + 1;
                tiles.push(self.grid[i]);
                x = x + 1;
            }
            assert((y + 1) * self.width == y * self.width + self.width) by (nonlinear_arith);
            y = y + 1;
        }
        proof {
            assert(self.height * self.width == self.width * self.height) by (nonlinear_arith);
            assert(tiles@ =~= target);
        }
        Engine::new(self.width, self.height, tiles)
    }

    /// The catalog of the template's patterns, for the solver.
    pub fn overlapping_patterns(&self) -> (r: &OverlappingPatterns<Tile>)
        requires
            self.wf(),
        ensures
            catalog_ids(*r) == self@.ids,
            catalog_grid(*r) == self@.grid,
    {
        &self.overlapping_patterns
    }

    /// The id of the pattern at each cell of the padded template, row by row.
    pub fn pattern_ids(&self) -> (r: &Vec<u32>)
        ensures
            r@ == self@.ids,
    {
        &self.pattern_ids
    }
}

} // verus!

//! The catalog of 3x3 patterns that the wave function collapse solver works on,
//! held in wfc's `OverlappingPatterns`.
use vstd::prelude::*;
use wfc::overlapping::OverlappingPatterns;
use crate::tile::Tile;

verus! {

/// Width and height of the square windows that the catalog collects.
pub const PATTERN_SIZE: u32 = 3;

/// The largest number of cells a grid handed to the solver may hold: its
/// coordinates are `i32` and its cell count is computed in `u32`.
pub const MAX_CELLS: u64 = 0x7fff_ffff;

#[verifier::external_type_specification]
#[verifier::external_body]
#[verifier::reject_recursive_types(T)]
pub struct ExOverlappingPatterns<T: Eq + Clone + std::hash::Hash>(OverlappingPatterns<T>);

/// The grid a catalog was built from, row by row.
pub uninterp spec fn catalog_grid(p: OverlappingPatterns<Tile>) -> Seq<Tile>;

/// For each cell of the grid a catalog was built from, row by row, the id of the
/// pattern whose top-left corner sits there.
pub uninterp spec fn catalog_ids(p: OverlappingPatterns<Tile>) -> Seq<u32>;

/// The number of distinct patterns in a catalog.
pub uninterp spec fn catalog_len(p: OverlappingPatterns<Tile>) -> nat;

/// Relies on wfc's `OverlappingPatterns::new_original_orientation`: it keeps the
/// grid, gives the window at each cell the id of the first equal window met in
/// row-major order, and numbers the distinct windows 0, 1, ... as it meets them,
/// so that every id below their count occurs in the grid and there are no more
/// patterns than cells. `Grid::new_iterator` turns the row-major vector into
/// the grid; the windows are `pattern_size` cells square.
#[verifier::external_body]
pub(crate) fn new_catalog(
    tiles: &Vec<Tile>,
    width: u32,
    height: u32,
    pattern_size: u32,
) -> (p: OverlappingPatterns<Tile>)
    requires
        1 <= pattern_size,
        tiles@.len() == width * height,
        1 <= width,
        1 <= height,
        width * height <= MAX_CELLS,
    ensures
        catalog_grid(p) == tiles@,
        catalog_ids(p).len() == tiles@.len(),
        catalog_len(p) <= tiles@.len(),
        forall|i: int| 0 <= i < catalog_ids(p).len() ==> catalog_ids(p)[i] < catalog_len(p),
        forall|id: u32| id < catalog_len(p) ==> #[trigger] catalog_ids(p).contains(id),
{
    let grid = grid_2d::Grid::new_iterator(coord_2d::Size::new(width, height), tiles.iter().cloned());
    OverlappingPatterns::new_original_orientation(
        grid,
        std::num::NonZeroU32::new(pattern_size).unwrap(),
    )
}

/// Relies on wfc's `OverlappingPatterns::id_grid_original_orientation`: the
/// pattern id at each cell, read out row by row.
#[verifier::external_body]
pub(crate) fn catalog_id_grid(p: &OverlappingPatterns<Tile>) -> (r: Vec<u32>)
    ensures
        r@ == catalog_ids(*p),
{
    p.id_grid_original_orientation().iter().cloned().collect()
}

/// Relies on wfc's `OverlappingPatterns::pattern_top_left_value`: the tile in the
/// top-left corner of a pattern, which is the tile of every cell where that
/// pattern sits. It indexes the pattern table, so the id must be in range.
#[verifier::external_body]
pub(crate) fn catalog_top_left(p: &OverlappingPatterns<Tile>, id: u32) -> (r: Tile)
    requires
        id < catalog_len(*p),
    ensures
        forall|i: int|
            0 <= i < catalog_ids(*p).len() && catalog_ids(*p)[i] == id ==> r == catalog_grid(*p)[i],
{
    *p.pattern_top_left_value(id)
}

} // verus!

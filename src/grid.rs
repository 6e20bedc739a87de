//! Grids stored row by row, and the ring of edge tiles around a template.
use vstd::prelude::*;
use vstd::arithmetic::div_mod::lemma_fundamental_div_mod_converse;
use crate::catalog::MAX_CELLS;
use crate::tile::Tile;

verus! {

/// Whether `(x, y)` lies on the outer ring of a grid `w` wide and `h` high.
pub open spec fn on_ring(x: int, y: int, w: int, h: int) -> bool {
    x == 0 || x == w - 1 || y == 0 || y == h - 1
}

/// Whether a template `w` wide and `h` high, padded, stays within the solver's reach.
pub open spec fn fits(w: int, h: int) -> bool {
    (w + 2) * (h + 2) <= MAX_CELLS
}

/// The cell at `(x, y)` of a `w` x `h` template padded with a ring of edge tiles.
pub open spec fn padded_cell(tiles: Seq<Tile>, w: int, h: int, x: int, y: int) -> Tile {
    if on_ring(x, y, w + 2, h + 2) {
        Tile::Edge
    } else {
        tiles[(y - 1) * w + (x - 1)]
    }
}

/// A `w` x `h` template, row by row, padded with a ring of edge tiles.
pub open spec fn padded(tiles: Seq<Tile>, w: int, h: int) -> Seq<Tile> {
    Seq::new(
        ((w + 2) * (h + 2)) as nat,
        |k: int| padded_cell(tiles, w, h, k % (w + 2), k / (w + 2)),
    )
}

/// The inside of a `(w + 2)` x `(h + 2)` grid: the grid without its outer ring.
pub open spec fn unpadded(grid: Seq<Tile>, w: int, h: int) -> Seq<Tile> {
    Seq::new((w * h) as nat, |k: int| grid[(k / w + 1) * (w + 2) + k % w + 1])
}

/// Padding a template and stripping the ring again gives the template back.
pub proof fn lemma_unpad_padded(tiles: Seq<Tile>, w: int, h: int)
    requires
        0 <= w,
        0 <= h,
        tiles.len() == w * h,
    ensures
        unpadded(padded(tiles, w, h), w, h) == tiles,
{
    let p = padded(tiles, w, h);
    let u = unpadded(p, w, h);
    assert forall|k: int| 0 <= k < tiles.len() implies u[k] == tiles[k] by {
        assert(w > 0) by (nonlinear_arith)
            requires
                0 <= k < w * h,
                0 <= h,
        ;
        lemma_grid_cell(k, w, h);
        let x = k % w + 1;
        let y = k / w + 1;
        let i = y * (w + 2) + x;
        lemma_index_in_grid(w + 2, h + 2, x, y);
        lemma_cell_index(i, w + 2, x, y);
        assert((y - 1) * w + (x - 1) == k) by (nonlinear_arith)
            requires
                y - 1 == k / w,
                x - 1 == k % w,
                k == (k / w) * w + k % w,
        ;
    }
    assert(u =~= tiles);
}

/// `k` is the index of `(x, y)` in a grid `w` wide.
pub proof fn lemma_cell_index(k: int, w: int, x: int, y: int)
    requires
        0 < w,
        0 <= x < w,
        0 <= y,
        k == y * w + x,
    ensures
        k % w == x,
        k / w == y,
{
    lemma_fundamental_div_mod_converse(k, w, y, x);
}

/// A cell inside a `w` x `h` grid has an index below `w * h`.
pub proof fn lemma_index_in_grid(w: int, h: int, x: int, y: int)
    requires
        0 <= x < w,
        0 <= y < h,
    ensures
        0 <= y * w + x < w * h,
{
    assert(0 <= y * w + x < w * h) by (nonlinear_arith)
        requires
            0 <= x < w,
            0 <= y < h,
    ;
}

/// An index below `w * h` is that of a cell inside the grid.
pub proof fn lemma_grid_cell(k: int, w: int, h: int)
    requires
        0 < w,
        0 <= k < w * h,
    ensures
        0 <= k % w < w,
        0 <= k / w < h,
        k == (k / w) * w + k % w,
{
    let q = k / w;
    let r = k % w;
    vstd::arithmetic::div_mod::lemma_fundamental_div_mod(k, w);
    vstd::arithmetic::div_mod::lemma_mod_pos_bound(k, w);
    vstd::arithmetic::div_mod::lemma_div_pos_is_pos(k, w);
    assert(k == q * w + r) by (nonlinear_arith)
        requires
            k == w * q + r,
    ;
    if q >= h {
        assert(q * w >= h * w) by (nonlinear_arith)
            requires
                q >= h,
                0 < w,
        ;
        assert(h * w == w * h) by (nonlinear_arith);
    }
}

/// A padded template that fits has sides and a cell count within `MAX_CELLS`.
pub proof fn lemma_fits(w: int, h: int)
    requires
        0 <= w,
        0 <= h,
        fits(w, h),
    ensures
        w + 2 <= MAX_CELLS,
        h + 2 <= MAX_CELLS,
        4 <= (w + 2) * (h + 2) <= MAX_CELLS,
        w * h <= (w + 2) * (h + 2),
{
    assert(w + 2 <= (w + 2) * (h + 2)) by (nonlinear_arith)
        requires
            0 <= w,
            0 <= h,
    ;
    assert(h + 2 <= (w + 2) * (h + 2)) by (nonlinear_arith)
        requires
            0 <= w,
            0 <= h,
    ;
    assert(4 <= (w + 2) * (h + 2)) by (nonlinear_arith)
        requires
            0 <= w,
            0 <= h,
    ;
    assert(w * h <= (w + 2) * (h + 2)) by (nonlinear_arith)
        requires
            0 <= w,
            0 <= h,
    ;
}

/// Whether a template `width` wide and `height` high, padded, stays within the
/// solver's reach.
pub fn fits_exec(width: u64, height: u64) -> (r: bool)
    ensures
        r == fits(width as int, height as int),
{
    if width > MAX_CELLS || height > MAX_CELLS {
        assert((width + 2) * (height + 2) > MAX_CELLS) by (nonlinear_arith)
            requires
                width > MAX_CELLS || height > MAX_CELLS,
                width >= 0,
                height >= 0,
        ;
        return false;
    }
    assert((width + 2) * (height + 2) <= 0x8000_0001 * 0x8000_0001) by (nonlinear_arith)
        requires
            0 <= width <= MAX_CELLS,
            0 <= height <= MAX_CELLS,
    ;
    (width + 2) * (height + 2) <= MAX_CELLS
}

} // verus!

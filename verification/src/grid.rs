//! Row-major pixel grids: a cell `(x, y)` of a grid `w` wide sits at index
//! `y * w + x`.

use vstd::arithmetic::div_mod::{lemma_fundamental_div_mod, lemma_fundamental_div_mod_converse};
use vstd::prelude::*;

verus! {

/// Whether `(x, y)` is a cell of a `w` by `h` grid.
pub open spec fn in_grid(w: int, h: int, x: int, y: int) -> bool {
    0 <= x < w && 0 <= y < h
}

/// Index of cell `(x, y)` in a grid `w` wide.
pub open spec fn cell(w: int, x: int, y: int) -> int {
    y * w + x
}

/// Column of the cell at index `k` in a grid `w` wide.
pub open spec fn col_of(w: int, k: int) -> int {
    k % w
}

/// Row of the cell at index `k` in a grid `w` wide.
pub open spec fn row_of(w: int, k: int) -> int {
    k / w
}

/// Whether a row-by-row scan of a grid `w` wide that stands at `(x, y)` has
/// passed the cell at index `k`.
pub open spec fn scanned_cell(w: int, k: int, x: int, y: int) -> bool {
    row_of(w, k) < y || (row_of(w, k) == y && col_of(w, k) < x)
}

/// A cell's index lies inside the grid's buffer and leads back to the cell.
pub proof fn lemma_cell(w: int, h: int, x: int, y: int)
    requires
        in_grid(w, h, x, y),
    ensures
        0 <= cell(w, x, y) < w * h,
        col_of(w, cell(w, x, y)) == x,
        row_of(w, cell(w, x, y)) == y,
{
    assert(0 <= y * w && y * w + w <= h * w && h * w == w * h) by (nonlinear_arith)
        requires
            0 <= y < h,
            0 < w,
    ;
    lemma_fundamental_div_mod_converse(cell(w, x, y), w, y, x);
}

/// An index inside the grid's buffer is the index of the cell at its column
/// and row.
pub proof fn lemma_index(w: int, h: int, k: int)
    requires
        0 <= k < w * h,
        0 <= w,
        0 <= h,
    ensures
        in_grid(w, h, col_of(w, k), row_of(w, k)),
        cell(w, col_of(w, k), row_of(w, k)) == k,
{
    assert(w > 0) by (nonlinear_arith)
        requires
            0 <= k < w * h,
            0 <= w,
    ;
    lemma_fundamental_div_mod(k, w);
    let q = k / w;
    let r = k % w;
    assert(w * q == q * w) by (nonlinear_arith);
    assert(0 <= r < w);
    assert(0 <= q < h) by (nonlinear_arith)
        requires
            k == q * w + r,
            0 <= r < w,
            0 <= k < w * h,
            0 <= h,
    ;
}

/// Index of cell `(x, y)` in a `w` by `h` grid.
pub fn cell_index(w: usize, h: usize, x: usize, y: usize) -> (k: usize)
    requires
        x < w,
        y < h,
        w * h <= usize::MAX,
    ensures
        k == cell(w as int, x as int, y as int),
        k < w * h,
{
    proof {
        lemma_cell(w as int, h as int, x as int, y as int);
        assert(0 <= y * w <= y * w + x) by (nonlinear_arith)
            requires
                0 <= y,
                0 <= w,
                0 <= x,
        ;
    }
    y * w + x
}

} // verus!

//! Facts about row-major cell indices `y * width + x`.
use vstd::prelude::*;

verus! {

/// A cell inside a `w` by `h` grid has a flat index inside the grid's storage, and its
/// whole row fits too.
pub proof fn lemma_cell_index(x: int, y: int, w: int, h: int)
    requires
        0 <= x < w,
        0 <= y < h,
    ensures
        0 <= y * w,
        0 <= y * w + x < w * h,
        y * w + w <= w * h,
        (y + 1) * w == y * w + w,
{
    assert(0 <= y * w) by (nonlinear_arith)
        requires
            0 <= y,
            0 <= w,
    ;
    assert(y * w + w <= w * h) by (nonlinear_arith)
        requires
            0 <= y < h,
            0 <= w,
    ;
    assert((y + 1) * w == y * w + w) by (nonlinear_arith);
}

/// Flat index `cy * w + cx` falls in `[y * w + a0, y * w + a1)` exactly for the cells of row
/// `y` between columns `a0` and `a1`.
pub proof fn lemma_row_range(cx: int, cy: int, w: int, y: int, a0: int, a1: int)
    requires
        0 <= cx < w,
        0 <= cy,
        0 <= y,
        0 <= a0 <= a1 <= w,
    ensures
        (y * w + a0 <= cy * w + cx < y * w + a1) <==> (cy == y && a0 <= cx < a1),
{
    if cy < y {
        assert(cy * w + w <= y * w) by (nonlinear_arith)
            requires
                cy < y,
                0 <= w,
        ;
    } else if cy > y {
        assert(y * w + w <= cy * w) by (nonlinear_arith)
            requires
                cy > y,
                0 <= w,
        ;
    }
}

/// Two cells of a grid with width `w` have the same flat index only if they are the same cell.
pub proof fn lemma_index_unique(x1: int, y1: int, x2: int, y2: int, w: int)
    requires
        0 <= x1 < w,
        0 <= x2 < w,
        0 <= y1,
        0 <= y2,
        y1 * w + x1 == y2 * w + x2,
    ensures
        x1 == x2,
        y1 == y2,
{
    lemma_row_range(x1, y1, w, y2, 0, w);
}

} // verus!

//! The grid layout: cells held column by column in one vector.
use vstd::prelude::*;
use crate::cell::{Cell, CellType};

verus! {

/// Cells laid out column by column: the cell at index `i` has coordinates
/// `(x, y)` with `x * h + y == i`.
pub open spec fn shaped(cells: Seq<Cell>, w: int, h: int) -> bool {
    &&& cells.len() == w * h
    &&& forall|i: int|
        0 <= i < cells.len() ==> (#[trigger] cells[i]).x < w && cells[i].y < h && cells[i].x * h
            + cells[i].y == i
}

pub(crate) proof fn lemma_index(w: int, h: int, x: int, y: int)
    requires
        0 <= x < w,
        0 <= y < h,
    ensures
        0 <= x * h + y < w * h,
{
    assert(0 <= x * h + y < w * h) by (nonlinear_arith)
        requires
            0 <= x < w,
            0 <= y < h,
    ;
}

pub(crate) proof fn lemma_index_unique(h: int, x1: int, y1: int, x2: int, y2: int)
    requires
        0 <= x1,
        0 <= x2,
        0 <= y1 < h,
        0 <= y2 < h,
        x1 * h + y1 == x2 * h + y2,
    ensures
        x1 == x2,
        y1 == y2,
{
    assert(x1 == x2) by (nonlinear_arith)
        requires
            0 <= x1,
            0 <= x2,
            0 <= y1 < h,
            0 <= y2 < h,
            x1 * h + y1 == x2 * h + y2,
    ;
}

pub(crate) proof fn lemma_area(w: int, h: int)
    requires
        0 <= w <= 65535,
        0 <= h <= 65535,
    ensures
        w * h <= 65535 * 65535,
{
    assert(w * h <= 65535 * 65535) by (nonlinear_arith)
        requires
            0 <= w <= 65535,
            0 <= h <= 65535,
    ;
}

/// In shaped cells, the cell at `x * h + y` is the one at `(x, y)`.
pub proof fn lemma_cell_coords(cells: Seq<Cell>, w: int, h: int, x: int, y: int)
    requires
        shaped(cells, w, h),
        0 <= x < w,
        0 <= y < h,
    ensures
        0 <= x * h + y < cells.len(),
        cells[x * h + y].x == x,
        cells[x * h + y].y == y,
{
    lemma_index(w, h, x, y);
    let c = cells[x * h + y];
    lemma_index_unique(h, c.x as int, c.y as int, x, y);
}

/// The coordinates of the empty cells among the first `n` of `cells`, in
/// order.
pub open spec fn empties_below(cells: Seq<Cell>, n: int) -> Seq<(usize, usize)>
    decreases n,
{
    if n <= 0 {
        Seq::empty()
    } else {
        let rest = empties_below(cells, n - 1);
        let c = cells[n - 1];
        if c.cell_type == CellType::Empty {
            rest.push((c.x, c.y))
        } else {
            rest
        }
    }
}

} // verus!

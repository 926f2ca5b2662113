use vstd::prelude::*;
use crate::cell::Cell;

verus! {

/// The same cells with every redraw mark taken off.
pub open spec fn cleared(cells: Seq<Cell>) -> Seq<Cell> {
    Seq::new(cells.len(), |i: int| Cell { changed_flag: false, ..cells[i] })
}

/// The cells marked for redraw, in grid order.
pub open spec fn dirty_of(cells: Seq<Cell>) -> Seq<Cell>
    decreases cells.len(),
{
    if cells.len() == 0 {
        Seq::empty()
    } else {
        let rest = dirty_of(cells.drop_last());
        if cells.last().changed_flag {
            rest.push(cells.last())
        } else {
            rest
        }
    }
}

/// Once every mark is taken off, a pass over the marked cells draws nothing:
/// drawing everything and then drawing what changed, with no change between,
/// draws no cell the second time.
pub proof fn lemma_render_round_trip(cells: Seq<Cell>)
    ensures
        dirty_of(cleared(cells)).len() == 0,
    decreases cells.len(),
{
    if cells.len() > 0 {
        assert(cleared(cells).drop_last() =~= cleared(cells.drop_last()));
        lemma_render_round_trip(cells.drop_last());
    }
}

} // verus!

//! The library's laws: facts that hold of every board and every move.

use vstd::prelude::*;
use crate::board::Direction;
use crate::model::{
    mag_sum, tile_count, eval_sum, cell_score, slide_spec, board_settled, is_tile,
};
use crate::slide::{lemma_slide_totals, lemma_slide_line, lemma_compact_line_settled,
    lemma_flat_inverse};
use crate::lemmas::{lemma_eval_sum_update, lemma_eval_sum_remove};

verus! {

/// A slide never changes the board's magnitude sum and never raises its
/// tile count: a merge replaces two equal tiles by their sum.
pub proof fn lemma_slide_preserves_totals(b: Seq<u32>, d: Direction)
    requires
        b.len() == 16,
        mag_sum(b) <= u32::MAX,
    ensures
        mag_sum(slide_spec(b, d)) == mag_sum(b),
        tile_count(slide_spec(b, d)) <= tile_count(b),
{
    lemma_slide_totals(b, d);
}

/// Sliding a board that is already settled toward an edge, in the
/// direction of that same edge, returns the identical board.
pub proof fn lemma_slide_settled_identity(b: Seq<u32>, d: Direction)
    requires
        b.len() == 16,
        board_settled(b, d),
    ensures
        slide_spec(b, d) == b,
{
    assert forall|j: int| 0 <= j < 16 implies slide_spec(b, d)[j] == b[j] by {
        lemma_flat_inverse(d, j);
        let i = crate::model::line_of(d, j);
        lemma_slide_line(b, d, i);
        lemma_compact_line_settled(crate::model::scan_line(b, d, i));
        assert(crate::model::scan_line(b, d, i)[crate::model::pos_of(d, j)] == b[j]);
    }
    assert(slide_spec(b, d) =~= b);
}

/// Replacing one occupied cell's magnitude with a strictly larger tile
/// magnitude strictly raises the board's heuristic score.
pub proof fn lemma_eval_strictly_monotone(b: Seq<u32>, j: int, v: u32)
    requires
        0 <= j < b.len(),
        b[j] != 0,
        is_tile(b[j]),
        is_tile(v),
        v > b[j],
    ensures
        eval_sum(b.update(j, v)) > eval_sum(b),
{
    lemma_eval_sum_update(b, j, v);
    let w = b[j];
    assert(v * v > w * w) by (nonlinear_arith)
        requires
            v > w >= 1,
    ;
}

/// An empty cell contributes exactly 1 to the board's heuristic score.
pub proof fn lemma_empty_cell_contributes_one(b: Seq<u32>, j: int)
    requires
        0 <= j < b.len(),
        b[j] == 0,
    ensures
        eval_sum(b) == eval_sum(b.remove(j)) + 1,
{
    lemma_eval_sum_remove(b, j);
}

} // verus!

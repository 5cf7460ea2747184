//! Facts about the line and board sums of the model.

use vstd::prelude::*;
use crate::model::{mag_sum, tile_count, eval_sum, cell_score};

verus! {

/// A sum of magnitudes is never negative.
pub proof fn lemma_mag_sum_nonneg(s: Seq<u32>)
    ensures
        mag_sum(s) >= 0,
    decreases s.len(),
{
    if s.len() > 0 {
        lemma_mag_sum_nonneg(s.skip(1));
    }
}

/// Every magnitude is at most the sum of its line or board.
pub proof fn lemma_mag_sum_elem(s: Seq<u32>, i: int)
    requires
        0 <= i < s.len(),
    ensures
        s[i] <= mag_sum(s),
    decreases s.len(),
{
    lemma_mag_sum_nonneg(s.skip(1));
    if i > 0 {
        lemma_mag_sum_elem(s.skip(1), i - 1);
    }
}

/// Appending a cell adds its magnitude to the sum.
pub proof fn lemma_mag_sum_push(s: Seq<u32>, v: u32)
    ensures
        mag_sum(s.push(v)) == mag_sum(s) + v,
    decreases s.len(),
{
    if s.len() == 0 {
        assert(s.push(v)[0] == v);
        assert(s.push(v).skip(1) =~= Seq::<u32>::empty());
        assert(mag_sum(s.push(v)) == s.push(v)[0] + mag_sum(s.push(v).skip(1)));
        assert(mag_sum(Seq::<u32>::empty()) == 0);
    } else {
        assert(s.push(v)[0] == s[0]);
        assert(s.push(v).skip(1) =~= s.skip(1).push(v));
        lemma_mag_sum_push(s.skip(1), v);
        assert(mag_sum(s.push(v)) == s.push(v)[0] + mag_sum(s.push(v).skip(1)));
        assert(mag_sum(s.push(v).skip(1)) == mag_sum(s.skip(1).push(v)));
    }
}

/// Overwriting one cell changes the sum by the difference of magnitudes.
pub proof fn lemma_mag_sum_update(s: Seq<u32>, i: int, v: u32)
    requires
        0 <= i < s.len(),
    ensures
        mag_sum(s.update(i, v)) == mag_sum(s) - s[i] + v,
    decreases s.len(),
{
    if i == 0 {
        assert(s.update(0, v).skip(1) =~= s.skip(1));
    } else {
        assert(s.update(i, v).skip(1) =~= s.skip(1).update(i - 1, v));
        lemma_mag_sum_update(s.skip(1), i - 1, v);
    }
}

/// The tile count lies between zero and the number of cells.
pub proof fn lemma_tile_count_bounds(s: Seq<u32>)
    ensures
        0 <= tile_count(s) <= s.len(),
    decreases s.len(),
{
    if s.len() > 0 {
        lemma_tile_count_bounds(s.skip(1));
    }
}

/// Appending a cell raises the tile count exactly when it is occupied.
pub proof fn lemma_tile_count_push(s: Seq<u32>, v: u32)
    ensures
        tile_count(s.push(v)) == tile_count(s) + (if v != 0 { 1int } else { 0int }),
    decreases s.len(),
{
    if s.len() == 0 {
        assert(s.push(v)[0] == v);
        assert(s.push(v).skip(1) =~= Seq::<u32>::empty());
        assert(tile_count(s.push(v)) == (if s.push(v)[0] != 0 { 1int } else { 0int }) + tile_count(s.push(v).skip(1)));
        assert(tile_count(Seq::<u32>::empty()) == 0);
    } else {
        assert(s.push(v)[0] == s[0]);
        assert(s.push(v).skip(1) =~= s.skip(1).push(v));
        lemma_tile_count_push(s.skip(1), v);
        assert(tile_count(s.push(v)) == (if s.push(v)[0] != 0 { 1int } else { 0int }) + tile_count(s.push(v).skip(1)));
        assert(tile_count(s.push(v).skip(1)) == tile_count(s.skip(1).push(v)));
    }
}

/// Overwriting one cell changes the tile count by the occupancy difference.
pub proof fn lemma_tile_count_update(s: Seq<u32>, i: int, v: u32)
    requires
        0 <= i < s.len(),
    ensures
        tile_count(s.update(i, v)) == tile_count(s) - (if s[i] != 0 { 1int } else { 0int })
            + (if v != 0 { 1int } else { 0int }),
    decreases s.len(),
{
    if i == 0 {
        assert(s.update(0, v).skip(1) =~= s.skip(1));
    } else {
        assert(s.update(i, v).skip(1) =~= s.skip(1).update(i - 1, v));
        lemma_tile_count_update(s.skip(1), i - 1, v);
    }
}

/// A board with fewer tiles than cells has an empty cell.
pub proof fn lemma_missing_tile_gives_empty(s: Seq<u32>)
    requires
        tile_count(s) < s.len(),
    ensures
        exists|j: int| 0 <= j < s.len() && s[j] == 0,
    decreases s.len(),
{
    if s[0] == 0 {
        assert(0 <= 0 < s.len() && s[0] == 0);
    } else {
        lemma_tile_count_bounds(s.skip(1));
        lemma_missing_tile_gives_empty(s.skip(1));
        let j = choose|j: int| 0 <= j < s.skip(1).len() && s.skip(1)[j] == 0;
        assert(s[j + 1] == 0);
    }
}

/// A board with an empty cell has fewer tiles than cells.
pub proof fn lemma_empty_lowers_count(s: Seq<u32>, j: int)
    requires
        0 <= j < s.len(),
        s[j] == 0,
    ensures
        tile_count(s) < s.len(),
    decreases s.len(),
{
    if j == 0 {
        lemma_tile_count_bounds(s.skip(1));
    } else {
        lemma_empty_lowers_count(s.skip(1), j - 1);
    }
}

/// Every cell is worth at least 1, so a score is at least the cell count.
pub proof fn lemma_eval_sum_ge_len(s: Seq<u32>)
    ensures
        eval_sum(s) >= s.len(),
    decreases s.len(),
{
    if s.len() > 0 {
        lemma_eval_sum_ge_len(s.skip(1));
        if s[0] != 0 {
            assert(s[0] * s[0] >= 1) by (nonlinear_arith)
                requires
                    s[0] >= 1,
            ;
        }
    }
}

/// A score is bounded by the square of the magnitude sum, plus one per cell.
pub proof fn lemma_eval_sum_bound(s: Seq<u32>)
    ensures
        eval_sum(s) <= mag_sum(s) * mag_sum(s) + s.len(),
    decreases s.len(),
{
    if s.len() > 0 {
        lemma_eval_sum_bound(s.skip(1));
        lemma_mag_sum_nonneg(s.skip(1));
        let a = s[0] as int;
        let m = mag_sum(s.skip(1));
        assert(a * a + m * m <= (a + m) * (a + m)) by (nonlinear_arith)
            requires
                a >= 0,
                m >= 0,
        ;
        assert(m * m <= (a + m) * (a + m)) by (nonlinear_arith)
            requires
                a >= 0,
                m >= 0,
        ;
    }
}

/// Appending a cell adds its worth to the score.
pub proof fn lemma_eval_sum_push(s: Seq<u32>, v: u32)
    ensures
        eval_sum(s.push(v)) == eval_sum(s) + cell_score(v),
    decreases s.len(),
{
    if s.len() == 0 {
        assert(s.push(v)[0] == v);
        assert(s.push(v).skip(1) =~= Seq::<u32>::empty());
        assert(eval_sum(s.push(v)) == cell_score(s.push(v)[0]) + eval_sum(s.push(v).skip(1)));
        assert(eval_sum(Seq::<u32>::empty()) == 0);
    } else {
        assert(s.push(v)[0] == s[0]);
        assert(s.push(v).skip(1) =~= s.skip(1).push(v));
        lemma_eval_sum_push(s.skip(1), v);
        assert(eval_sum(s.push(v)) == cell_score(s.push(v)[0]) + eval_sum(s.push(v).skip(1)));
        assert(eval_sum(s.push(v).skip(1)) == eval_sum(s.skip(1).push(v)));
    }
}

/// Overwriting one cell changes the score by the difference of worths.
pub proof fn lemma_eval_sum_update(s: Seq<u32>, i: int, v: u32)
    requires
        0 <= i < s.len(),
    ensures
        eval_sum(s.update(i, v)) == eval_sum(s) - cell_score(s[i]) + cell_score(v),
    decreases s.len(),
{
    if i == 0 {
        assert(s.update(0, v).skip(1) =~= s.skip(1));
    } else {
        assert(s.update(i, v).skip(1) =~= s.skip(1).update(i - 1, v));
        lemma_eval_sum_update(s.skip(1), i - 1, v);
    }
}

/// Dropping one cell lowers the score by exactly that cell's worth.
pub proof fn lemma_eval_sum_remove(s: Seq<u32>, i: int)
    requires
        0 <= i < s.len(),
    ensures
        eval_sum(s.remove(i)) == eval_sum(s) - cell_score(s[i]),
    decreases s.len(),
{
    if i == 0 {
        assert(s.remove(0) =~= s.skip(1));
    } else {
        assert(s.remove(i).skip(1) =~= s.skip(1).remove(i - 1));
        lemma_eval_sum_remove(s.skip(1), i - 1);
    }
}

} // verus!

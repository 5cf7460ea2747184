//! The deterministic slide-and-merge move, with its correctness proofs.

use vstd::prelude::*;
use crate::board::{Board, Direction};
use crate::model::{
    mag_sum, tile_count, eval_sum, cell_score, compact_rec, pad_zeros, compact_line_spec,
    scan_idx, line_of, pos_of, scan_line, slide_spec, line_settled, lead_tiles, has_empty,
};
use crate::lemmas::{
    lemma_mag_sum_nonneg, lemma_mag_sum_elem, lemma_mag_sum_push, lemma_mag_sum_update,
    lemma_tile_count_bounds, lemma_tile_count_push, lemma_tile_count_update,
    lemma_eval_sum_push, lemma_eval_sum_update, lemma_empty_lowers_count,
    lemma_missing_tile_gives_empty,
};

verus! {

/// One scan never loses magnitude, never gains tiles, and never lowers the
/// heuristic worth once the removed cells are counted back as empties.
pub proof fn lemma_compact_rec_totals(s: Seq<u32>, acc: Seq<u32>, open: bool)
    requires
        mag_sum(acc) + mag_sum(s) <= u32::MAX,
    ensures
        acc.len() <= compact_rec(s, acc, open).len(),
        compact_rec(s, acc, open).len() <= acc.len() + tile_count(s),
        mag_sum(compact_rec(s, acc, open)) == mag_sum(acc) + mag_sum(s),
        tile_count(compact_rec(s, acc, open)) <= tile_count(acc) + tile_count(s),
        eval_sum(compact_rec(s, acc, open)) + acc.len() + s.len()
            >= eval_sum(acc) + eval_sum(s) + compact_rec(s, acc, open).len(),
    decreases s.len(),
{
    if s.len() == 0 {
    } else {
        let s1 = s.skip(1);
        let v = s[0];
        lemma_mag_sum_nonneg(s1);
        if v == 0 {
            lemma_compact_rec_totals(s1, acc, open);
        } else if open && acc.len() > 0 && acc.last() == v {
            lemma_mag_sum_elem(acc, acc.len() - 1);
            // both partners of the merge are counted in the magnitude sums,
            // so the doubled tile does not exceed u32::MAX
            assert(2 * v <= mag_sum(acc) + mag_sum(s));
            let w = (2 * v) as u32;
            let acc2 = acc.update(acc.len() - 1, w);
            lemma_mag_sum_update(acc, acc.len() - 1, w);
            lemma_tile_count_update(acc, acc.len() - 1, w);
            lemma_eval_sum_update(acc, acc.len() - 1, w);
            lemma_compact_rec_totals(s1, acc2, false);
            assert(w * w + 1 >= 2 * (v * v)) by (nonlinear_arith)
                requires
                    v >= 1,
                    w == 2 * v,
            ;
        } else {
            lemma_mag_sum_push(acc, v);
            lemma_tile_count_push(acc, v);
            lemma_eval_sum_push(acc, v);
            lemma_compact_rec_totals(s1, acc.push(v), true);
        }
    }
}

/// Padding with empty cells keeps the magnitude sum and the tile count and
/// adds one point of worth per added cell.
pub proof fn lemma_pad_zeros_totals(s: Seq<u32>, n: nat)
    requires
        s.len() <= n,
    ensures
        mag_sum(pad_zeros(s, n)) == mag_sum(s),
        tile_count(pad_zeros(s, n)) == tile_count(s),
        eval_sum(pad_zeros(s, n)) == eval_sum(s) + (n - s.len()),
    decreases n,
{
    if n == s.len() {
        assert(pad_zeros(s, n) =~= s);
    } else {
        assert(pad_zeros(s, n) =~= pad_zeros(s, (n - 1) as nat).push(0));
        lemma_pad_zeros_totals(s, (n - 1) as nat);
        lemma_mag_sum_push(pad_zeros(s, (n - 1) as nat), 0);
        lemma_tile_count_push(pad_zeros(s, (n - 1) as nat), 0);
        lemma_eval_sum_push(pad_zeros(s, (n - 1) as nat), 0);
    }
}

/// Sliding one line keeps its magnitude sum, never gains tiles, and never
/// lowers its heuristic worth.
pub proof fn lemma_compact_line_totals(l: Seq<u32>)
    requires
        mag_sum(l) <= u32::MAX,
    ensures
        compact_line_spec(l).len() == l.len(),
        mag_sum(compact_line_spec(l)) == mag_sum(l),
        tile_count(compact_line_spec(l)) <= tile_count(l),
        eval_sum(compact_line_spec(l)) >= eval_sum(l),
{
    let core = compact_rec(l, Seq::empty(), false);
    lemma_mag_sum_nonneg(l);
    lemma_compact_rec_totals(l, Seq::empty(), false);
    lemma_tile_count_bounds(l);
    lemma_pad_zeros_totals(core, l.len());
}

/// The leading tiles of a line are occupied; the first cell after them,
/// if any, is empty.
pub proof fn lemma_lead_tiles(s: Seq<u32>)
    ensures
        0 <= lead_tiles(s) <= s.len(),
        forall|i: int| 0 <= i < lead_tiles(s) ==> s[i] != 0,
        lead_tiles(s) < s.len() ==> s[lead_tiles(s)] == 0,
    decreases s.len(),
{
    if s.len() > 0 && s[0] != 0 {
        lemma_lead_tiles(s.skip(1));
        assert forall|i: int| 0 <= i < lead_tiles(s) implies s[i] != 0 by {
            if i > 0 {
                assert(s.skip(1)[i - 1] != 0);
            }
        }
    }
}

/// Scanning a settled line replaces nothing: every tile is pushed through
/// unchanged, so the placed tiles are the line's leading tiles.
proof fn lemma_compact_rec_settled(s: Seq<u32>, acc: Seq<u32>, open: bool)
    requires
        line_settled(s),
        open ==> acc.len() > 0 && acc.last() != 0 && (s.len() > 0 ==> acc.last() != s[0]),
    ensures
        compact_rec(s, acc, open) == acc + s.take(lead_tiles(s)),
    decreases s.len(),
{
    if s.len() == 0 {
        assert(compact_rec(s, acc, open) =~= acc + s.take(0));
    } else {
        let s1 = s.skip(1);
        assert(line_settled(s1)) by {
            assert forall|k1: int, k2: int|
                0 <= k1 <= k2 < s1.len() && s1[k1] == 0 implies s1[k2] == 0 by {
                assert(s[k1 + 1] == 0);
                assert(s[k2 + 1] == 0);
            }
            assert forall|k: int|
                0 <= k < s1.len() - 1 && #[trigger] s1[k] != 0 && s1[k + 1] != 0
                implies s1[k] != s1[k + 1] by {
                assert(s[k + 1] != 0 && s[k + 2] != 0);
            }
        }
        if s[0] == 0 {
            // a settled line is empty from its first empty cell on
            assert(forall|k: int| 0 <= k < s.len() ==> s[k] == 0);
            lemma_compact_rec_settled(s1, acc, open);
            assert(lead_tiles(s1) == 0);
            assert(compact_rec(s, acc, open) =~= acc + s.take(0));
        } else {
            lemma_compact_rec_settled(s1, acc.push(s[0]), true);
            lemma_lead_tiles(s1);
            assert(acc.push(s[0]) + s1.take(lead_tiles(s1))
                =~= acc + s.take(lead_tiles(s)));
        }
    }
}

/// Sliding a settled line returns it unchanged.
pub proof fn lemma_compact_line_settled(l: Seq<u32>)
    requires
        line_settled(l),
    ensures
        compact_line_spec(l) == l,
{
    lemma_compact_rec_settled(l, Seq::empty(), false);
    lemma_lead_tiles(l);
    let core = compact_rec(l, Seq::empty(), false);
    assert(core =~= l.take(lead_tiles(l)));
    assert forall|i: int| 0 <= i < l.len() implies pad_zeros(core, l.len())[i] == l[i] by {
        if i >= lead_tiles(l) {
            assert(l[lead_tiles(l)] == 0);
            assert(l[i] == 0);
        }
    }
    assert(pad_zeros(core, l.len()) =~= l);
}

/// A scan index lies on the board, in the line and at the position it was
/// built from.
pub proof fn lemma_scan_idx(d: Direction, i: int, k: int)
    requires
        0 <= i < 4,
        0 <= k < 4,
    ensures
        0 <= scan_idx(d, i, k) < 16,
        line_of(d, scan_idx(d, i, k)) == i,
        pos_of(d, scan_idx(d, i, k)) == k,
{
}

/// Every board cell is the unique scan cell of its line and position.
pub proof fn lemma_flat_inverse(d: Direction, j: int)
    requires
        0 <= j < 16,
    ensures
        0 <= line_of(d, j) < 4,
        0 <= pos_of(d, j) < 4,
        scan_idx(d, line_of(d, j), pos_of(d, j)) == j,
{
}

/// A cell-by-cell weighting of a line or a board, summed.
pub open spec fn wsum(s: Seq<u32>, f: spec_fn(u32) -> int) -> int
    decreases s.len(),
{
    if s.len() == 0 {
        0
    } else {
        f(s[0]) + wsum(s.skip(1), f)
    }
}

/// Unfolds a weighted sum by one cell.
proof fn lemma_wsum_step(s: Seq<u32>, k: int, f: spec_fn(u32) -> int)
    requires
        0 <= k < s.len(),
    ensures
        wsum(s.skip(k), f) == f(s[k]) + wsum(s.skip(k + 1), f),
{
    assert(s.skip(k)[0] == s[k]);
    assert(s.skip(k).skip(1) =~= s.skip(k + 1));
}

/// A line's weighted sum, written out cell by cell.
proof fn lemma_wsum_expand4(s: Seq<u32>, f: spec_fn(u32) -> int)
    requires
        s.len() == 4,
    ensures
        wsum(s, f) == f(s[0]) + f(s[1]) + f(s[2]) + f(s[3]),
{
    assert(s.skip(0) =~= s);
    lemma_wsum_step(s, 0, f);
    lemma_wsum_step(s, 1, f);
    lemma_wsum_step(s, 2, f);
    lemma_wsum_step(s, 3, f);
    assert(s.skip(4).len() == 0);
}

/// A board's weighted sum is the total over its four scan lines, for any
/// direction: the scan lines partition the board's cells.
proof fn lemma_wsum_lines(b: Seq<u32>, d: Direction, f: spec_fn(u32) -> int)
    requires
        b.len() == 16,
    ensures
        wsum(b, f) == wsum(scan_line(b, d, 0), f) + wsum(scan_line(b, d, 1), f)
            + wsum(scan_line(b, d, 2), f) + wsum(scan_line(b, d, 3), f),
{
    assert(b.skip(0) =~= b);
    lemma_wsum_step(b, 0, f);
    lemma_wsum_step(b, 1, f);
    lemma_wsum_step(b, 2, f);
    lemma_wsum_step(b, 3, f);
    lemma_wsum_step(b, 4, f);
    lemma_wsum_step(b, 5, f);
    lemma_wsum_step(b, 6, f);
    lemma_wsum_step(b, 7, f);
    lemma_wsum_step(b, 8, f);
    lemma_wsum_step(b, 9, f);
    lemma_wsum_step(b, 10, f);
    lemma_wsum_step(b, 11, f);
    lemma_wsum_step(b, 12, f);
    lemma_wsum_step(b, 13, f);
    lemma_wsum_step(b, 14, f);
    lemma_wsum_step(b, 15, f);
    assert(b.skip(16).len() == 0);
    assert(wsum(b, f) == f(b[0]) + f(b[1]) + f(b[2]) + f(b[3]) + f(b[4]) + f(b[5]) + f(b[6]) + f(b[7]) + f(b[8]) + f(b[9]) + f(b[10]) + f(b[11]) + f(b[12]) + f(b[13]) + f(b[14]) + f(b[15]));
    lemma_wsum_expand4(scan_line(b, d, 0), f);
    lemma_wsum_expand4(scan_line(b, d, 1), f);
    lemma_wsum_expand4(scan_line(b, d, 2), f);
    lemma_wsum_expand4(scan_line(b, d, 3), f);
    match d {
        Direction::Left => {
        assert(scan_line(b, Direction::Left, 0)[0] == b[0]);
        assert(scan_line(b, Direction::Left, 0)[1] == b[1]);
        assert(scan_line(b, Direction::Left, 0)[2] == b[2]);
        assert(scan_line(b, Direction::Left, 0)[3] == b[3]);
        assert(scan_line(b, Direction::Left, 1)[0] == b[4]);
        assert(scan_line(b, Direction::Left, 1)[1] == b[5]);
        assert(scan_line(b, Direction::Left, 1)[2] == b[6]);
        assert(scan_line(b, Direction::Left, 1)[3] == b[7]);
        assert(scan_line(b, Direction::Left, 2)[0] == b[8]);
        assert(scan_line(b, Direction::Left, 2)[1] == b[9]);
        assert(scan_line(b, Direction::Left, 2)[2] == b[10]);
        assert(scan_line(b, Direction::Left, 2)[3] == b[11]);
        assert(scan_line(b, Direction::Left, 3)[0] == b[12]);
        assert(scan_line(b, Direction::Left, 3)[1] == b[13]);
        assert(scan_line(b, Direction::Left, 3)[2] == b[14]);
        assert(scan_line(b, Direction::Left, 3)[3] == b[15]);
        },
        Direction::Right => {
        assert(scan_line(b, Direction::Right, 0)[0] == b[3]);
        assert(scan_line(b, Direction::Right, 0)[1] == b[2]);
        assert(scan_line(b, Direction::Right, 0)[2] == b[1]);
        assert(scan_line(b, Direction::Right, 0)[3] == b[0]);
        assert(scan_line(b, Direction::Right, 1)[0] == b[7]);
        assert(scan_line(b, Direction::Right, 1)[1] == b[6]);
        assert(scan_line(b, Direction::Right, 1)[2] == b[5]);
        assert(scan_line(b, Direction::Right, 1)[3] == b[4]);
        assert(scan_line(b, Direction::Right, 2)[0] == b[11]);
        assert(scan_line(b, Direction::Right, 2)[1] == b[10]);
        assert(scan_line(b, Direction::Right, 2)[2] == b[9]);
        assert(scan_line(b, Direction::Right, 2)[3] == b[8]);
        assert(scan_line(b, Direction::Right, 3)[0] == b[15]);
        assert(scan_line(b, Direction::Right, 3)[1] == b[14]);
        assert(scan_line(b, Direction::Right, 3)[2] == b[13]);
        assert(scan_line(b, Direction::Right, 3)[3] == b[12]);
        },
        Direction::Up => {
        assert(scan_line(b, Direction::Up, 0)[0] == b[0]);
        assert(scan_line(b, Direction::Up, 0)[1] == b[4]);
        assert(scan_line(b, Direction::Up, 0)[2] == b[8]);
        assert(scan_line(b, Direction::Up, 0)[3] == b[12]);
        assert(scan_line(b, Direction::Up, 1)[0] == b[1]);
        assert(scan_line(b, Direction::Up, 1)[1] == b[5]);
        assert(scan_line(b, Direction::Up, 1)[2] == b[9]);
        assert(scan_line(b, Direction::Up, 1)[3] == b[13]);
        assert(scan_line(b, Direction::Up, 2)[0] == b[2]);
        assert(scan_line(b, Direction::Up, 2)[1] == b[6]);
        assert(scan_line(b, Direction::Up, 2)[2] == b[10]);
        assert(scan_line(b, Direction::Up, 2)[3] == b[14]);
        assert(scan_line(b, Direction::Up, 3)[0] == b[3]);
        assert(scan_line(b, Direction::Up, 3)[1] == b[7]);
        assert(scan_line(b, Direction::Up, 3)[2] == b[11]);
        assert(scan_line(b, Direction::Up, 3)[3] == b[15]);
        },
        Direction::Down => {
        assert(scan_line(b, Direction::Down, 0)[0] == b[12]);
        assert(scan_line(b, Direction::Down, 0)[1] == b[8]);
        assert(scan_line(b, Direction::Down, 0)[2] == b[4]);
        assert(scan_line(b, Direction::Down, 0)[3] == b[0]);
        assert(scan_line(b, Direction::Down, 1)[0] == b[13]);
        assert(scan_line(b, Direction::Down, 1)[1] == b[9]);
        assert(scan_line(b, Direction::Down, 1)[2] == b[5]);
        assert(scan_line(b, Direction::Down, 1)[3] == b[1]);
        assert(scan_line(b, Direction::Down, 2)[0] == b[14]);
        assert(scan_line(b, Direction::Down, 2)[1] == b[10]);
        assert(scan_line(b, Direction::Down, 2)[2] == b[6]);
        assert(scan_line(b, Direction::Down, 2)[3] == b[2]);
        assert(scan_line(b, Direction::Down, 3)[0] == b[15]);
        assert(scan_line(b, Direction::Down, 3)[1] == b[11]);
        assert(scan_line(b, Direction::Down, 3)[2] == b[7]);
        assert(scan_line(b, Direction::Down, 3)[3] == b[3]);
        },
    }
}

/// The three sums are weighted sums.
proof fn lemma_sums_as_wsum(s: Seq<u32>)
    ensures
        mag_sum(s) == wsum(s, |v: u32| v as int),
        tile_count(s) == wsum(s, |v: u32| if v != 0 { 1int } else { 0int }),
        eval_sum(s) == wsum(s, |v: u32| cell_score(v)),
    decreases s.len(),
{
    if s.len() > 0 {
        lemma_sums_as_wsum(s.skip(1));
    }
}

/// The three sums of a board are the totals of its four scan lines, for
/// any direction: the scan lines partition the board's cells.
pub proof fn lemma_board_line_sums(b: Seq<u32>, d: Direction)
    requires
        b.len() == 16,
    ensures
        mag_sum(b) == mag_sum(scan_line(b, d, 0)) + mag_sum(scan_line(b, d, 1))
            + mag_sum(scan_line(b, d, 2)) + mag_sum(scan_line(b, d, 3)),
        tile_count(b) == tile_count(scan_line(b, d, 0)) + tile_count(scan_line(b, d, 1))
            + tile_count(scan_line(b, d, 2)) + tile_count(scan_line(b, d, 3)),
        eval_sum(b) == eval_sum(scan_line(b, d, 0)) + eval_sum(scan_line(b, d, 1))
            + eval_sum(scan_line(b, d, 2)) + eval_sum(scan_line(b, d, 3)),
{
    lemma_sums_as_wsum(b);
    lemma_sums_as_wsum(scan_line(b, d, 0));
    lemma_sums_as_wsum(scan_line(b, d, 1));
    lemma_sums_as_wsum(scan_line(b, d, 2));
    lemma_sums_as_wsum(scan_line(b, d, 3));
    lemma_wsum_lines(b, d, |v: u32| v as int);
    lemma_wsum_lines(b, d, |v: u32| if v != 0 { 1int } else { 0int });
    lemma_wsum_lines(b, d, |v: u32| cell_score(v));
}

/// Each scan line of a slid board is the slide of the same scan line of
/// the board it came from.
pub proof fn lemma_slide_line(b: Seq<u32>, d: Direction, i: int)
    requires
        b.len() == 16,
        0 <= i < 4,
    ensures
        scan_line(slide_spec(b, d), d, i) == compact_line_spec(scan_line(b, d, i)),
{
    assert forall|k: int| 0 <= k < 4
        implies scan_line(slide_spec(b, d), d, i)[k] == compact_line_spec(scan_line(b, d, i))[k] by {
        lemma_scan_idx(d, i, k);
        assert(slide_spec(b, d)[scan_idx(d, i, k)]
            == compact_line_spec(scan_line(b, d, i))[k]);
    }
    assert(scan_line(slide_spec(b, d), d, i) =~= compact_line_spec(scan_line(b, d, i)));
}

/// Every scan line's magnitudes sum to at most the whole board's.
pub proof fn lemma_scan_line_mag_le(b: Seq<u32>, d: Direction, i: int)
    requires
        b.len() == 16,
        0 <= i < 4,
    ensures
        mag_sum(scan_line(b, d, i)) <= mag_sum(b),
{
    lemma_board_line_sums(b, d);
    lemma_mag_sum_nonneg(scan_line(b, d, 0));
    lemma_mag_sum_nonneg(scan_line(b, d, 1));
    lemma_mag_sum_nonneg(scan_line(b, d, 2));
    lemma_mag_sum_nonneg(scan_line(b, d, 3));
}

/// A slide keeps the board's magnitude sum, never gains tiles, and never
/// lowers the board's heuristic worth.
pub proof fn lemma_slide_totals(b: Seq<u32>, d: Direction)
    requires
        b.len() == 16,
        mag_sum(b) <= u32::MAX,
    ensures
        mag_sum(slide_spec(b, d)) == mag_sum(b),
        tile_count(slide_spec(b, d)) <= tile_count(b),
        eval_sum(slide_spec(b, d)) >= eval_sum(b),
{
    let sl = slide_spec(b, d);
    lemma_board_line_sums(b, d);
    lemma_board_line_sums(sl, d);
    lemma_slide_line(b, d, 0);
    lemma_slide_line(b, d, 1);
    lemma_slide_line(b, d, 2);
    lemma_slide_line(b, d, 3);
    lemma_scan_line_mag_le(b, d, 0);
    lemma_scan_line_mag_le(b, d, 1);
    lemma_scan_line_mag_le(b, d, 2);
    lemma_scan_line_mag_le(b, d, 3);
    lemma_compact_line_totals(scan_line(b, d, 0));
    lemma_compact_line_totals(scan_line(b, d, 1));
    lemma_compact_line_totals(scan_line(b, d, 2));
    lemma_compact_line_totals(scan_line(b, d, 3));
}

/// A slide never fills the last empty cell: a board with an empty cell
/// slides to a board with an empty cell, since merging only frees cells.
pub proof fn lemma_slide_keeps_empty(b: Seq<u32>, d: Direction)
    requires
        b.len() == 16,
        mag_sum(b) <= u32::MAX,
        has_empty(b),
    ensures
        has_empty(slide_spec(b, d)),
{
    let j0 = choose|j: int| 0 <= j < b.len() && b[j] == 0;
    lemma_empty_lowers_count(b, j0);
    lemma_slide_totals(b, d);
    lemma_missing_tile_gives_empty(slide_spec(b, d));
}

/// The flat board index of the k-th scan cell of line i for direction d.
fn scan_index(d: Direction, i: usize, k: usize) -> (r: usize)
    requires
        i < 4,
        k < 4,
    ensures
        r == scan_idx(d, i as int, k as int),
        r < 16,
{
    match d {
        Direction::Left => 4 * i + k,
        Direction::Right => 4 * i + (3 - k),
        Direction::Up => 4 * k + i,
        Direction::Down => 4 * (3 - k) + i,
    }
}

/// Slides one line of four magnitudes toward index 0, merging equal
/// neighbours at most once per placed tile.
fn compact_line(line: &Vec<u32>) -> (out: Vec<u32>)
    requires
        line@.len() == 4,
        mag_sum(line@) <= u32::MAX,
    ensures
        out@.len() == 4,
        out@ == compact_line_spec(line@),
{
    let lv = Ghost(line@);
    let mut acc: Vec<u32> = Vec::new();
    let mut open = false;
    proof {
        assert(lv@.skip(0) =~= lv@);
        assert(mag_sum(Seq::<u32>::empty()) == 0);
        assert(acc@ =~= Seq::<u32>::empty());
    }
    for j in 0..4
        invariant
            lv@ == line@,
            lv@.len() == 4,
            mag_sum(lv@) <= u32::MAX,
            open ==> acc@.len() > 0,
            mag_sum(acc@) + mag_sum(lv@.skip(j as int)) == mag_sum(lv@),
            compact_rec(lv@, Seq::empty(), false) == compact_rec(lv@.skip(j as int), acc@, open),
    {
        let ghost rest = lv@.skip(j as int);
        let ghost acc0 = acc@;
        let ghost open0 = open;
        proof {
            assert(rest[0] == lv@[j as int]);
            assert(rest.skip(1) =~= lv@.skip(j + 1));
        }
        let v = line[j];
        if v != 0 {
            if open && acc[acc.len() - 1] == v {
                proof {
                    lemma_mag_sum_elem(acc@, acc@.len() - 1);
                    lemma_mag_sum_nonneg(rest.skip(1));
                    assert(mag_sum(rest) == v + mag_sum(rest.skip(1)));
                    assert(2 * v <= mag_sum(acc@) + mag_sum(rest));
                }
                let n = acc.len();
                let doubled = 2 * v;
                proof {
                    lemma_mag_sum_update(acc@, acc@.len() - 1, doubled);
                }
                acc.set(n - 1, doubled);
                open = false;
            } else {
                proof {
                    lemma_mag_sum_push(acc@, v);
                }
                acc.push(v);
                open = true;
            }
        }
        proof {
            assert(compact_rec(rest, acc0, open0) == compact_rec(rest.skip(1), acc@, open));
        }
    }
    proof {
        assert(lv@.skip(4).len() == 0);
        assert(compact_rec(lv@, Seq::empty(), false) == acc@);
        lemma_mag_sum_nonneg(lv@);
        lemma_compact_rec_totals(lv@, Seq::empty(), false);
        lemma_tile_count_bounds(lv@);
        assert(acc@.len() <= 4);
    }
    let ghost core = acc@;
    while acc.len() < 4
        invariant
            core.len() <= acc@.len() <= 4,
            core == acc@.take(core.len() as int),
            forall|t: int| core.len() <= t < acc@.len() ==> acc@[t] == 0,
        decreases 4 - acc@.len(),
    {
        proof {
            let ghost before = acc@;
            assert(before.push(0).take(core.len() as int) =~= before.take(core.len() as int));
        }
        acc.push(0);
    }
    proof {
        assert(acc@ =~= pad_zeros(core, lv@.len()));
    }
    acc
}

impl Board {
    /// The board after sliding every line of this board toward the edge
    /// `direction` points to, merging equal tiles at most once per placed
    /// tile.  This board is left untouched.
    pub fn move_direction(&self, direction: Direction) -> (res: Board)
        requires
            self.wf(),
            mag_sum(self@) <= u32::MAX,
        ensures
            res.wf(),
            res@ == slide_spec(self@, direction),
    {
        let mut out = Board::new_empty();
        for i in 0..4
            invariant
                self.wf(),
                mag_sum(self@) <= u32::MAX,
                out.wf(),
                forall|j: int|
                    0 <= j < 16 && line_of(direction, j) < i
                        ==> out@[j] == #[trigger] slide_spec(self@, direction)[j],
                forall|j: int|
                    0 <= j < 16 && line_of(direction, j) >= i ==> out@[j] == 0,
        {
            let mut line: Vec<u32> = Vec::new();
            for k in 0..4
                invariant
                    self.wf(),
                    0 <= i < 4,
                    line@.len() == k,
                    forall|t: int|
                        0 <= t < k ==> line@[t] == self@[scan_idx(direction, i as int, t)],
            {
                let idx = scan_index(direction, i, k);
                line.push(self.cells[idx]);
            }
            proof {
                assert forall|t: int| 0 <= t < 4
                    implies line@[t] == scan_line(self@, direction, i as int)[t] by {
                    lemma_scan_idx(direction, i as int, t);
                }
                assert(line@ =~= scan_line(self@, direction, i as int));
                lemma_scan_line_mag_le(self@, direction, i as int);
            }
            let packed = compact_line(&line);
            for k in 0..4
                invariant
                    0 <= i < 4,
                    out.wf(),
                    self@.len() == 16,
                    packed@.len() == 4,
                    packed@ == compact_line_spec(scan_line(self@, direction, i as int)),
                    forall|j: int|
                        0 <= j < 16 && line_of(direction, j) < i
                            ==> out@[j] == #[trigger] slide_spec(self@, direction)[j],
                    forall|j: int|
                        0 <= j < 16 && line_of(direction, j) == i && pos_of(direction, j) < k
                            ==> out@[j] == #[trigger] slide_spec(self@, direction)[j],
                    forall|j: int|
                        0 <= j < 16
                            && (line_of(direction, j) > i
                                || (line_of(direction, j) == i && pos_of(direction, j) >= k))
                            ==> out@[j] == 0,
            {
                let idx = scan_index(direction, i, k);
                let value = packed[k];
                proof {
                    lemma_scan_idx(direction, i as int, k as int);
                    assert(slide_spec(self@, direction)[idx as int]
                        == compact_line_spec(scan_line(self@, direction, i as int))[k as int]);
                }
                out.cells.set(idx, value);
            }
        }
        proof {
            assert forall|j: int| 0 <= j < 16
                implies out@[j] == slide_spec(self@, direction)[j] by {
                lemma_flat_inverse(direction, j);
            }
            assert(out@ =~= slide_spec(self@, direction));
        }
        out
    }
}

} // verus!

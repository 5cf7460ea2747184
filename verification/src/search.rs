//! The heuristic evaluator, the composite move, and the lookahead search.

use vstd::prelude::*;
use crate::board::{Board, Direction};
use crate::model::{mag_sum, eval_sum, cell_score, slide_spec, has_empty};
use crate::lemmas::{lemma_mag_sum_nonneg, lemma_mag_sum_update, lemma_eval_sum_update,
    lemma_eval_sum_ge_len, lemma_eval_sum_bound};
use crate::slide::{lemma_slide_totals, lemma_slide_keeps_empty};

verus! {

/// What a lookahead search decided: the best first move found, the finding
/// that no sampled move beats staying put, or a rejected depth of zero.
#[derive(Clone, Copy, Debug, PartialEq, Eq, Structural)]
pub enum SearchOutcome {
    Chosen(Direction),
    NoImprovingMove,
    InvalidDepth,
}

/// The direction the search scans at each of its four steps.
pub open spec fn dir_at(i: int) -> Direction {
    if i == 0 {
        Direction::Up
    } else if i == 1 {
        Direction::Down
    } else if i == 2 {
        Direction::Left
    } else {
        Direction::Right
    }
}

/// The four directions in the order the search scans them.
fn dir_from_index(i: usize) -> (d: Direction)
    requires
        i < 4,
    ensures
        d == dir_at(i as int),
{
    match i {
        0 => Direction::Up,
        1 => Direction::Down,
        2 => Direction::Left,
        _ => Direction::Right,
    }
}

/// Every direction is scanned: each one is `dir_at` of some step.
proof fn lemma_dir_at_covers(d: Direction)
    ensures
        exists|t: int| 0 <= t < 4 && dir_at(t) == d,
{
    match d {
        Direction::Up => assert(dir_at(0) == d),
        Direction::Down => assert(dir_at(1) == d),
        Direction::Left => assert(dir_at(2) == d),
        Direction::Right => assert(dir_at(3) == d),
    }
}

impl Board {
    /// The board's heuristic worth: each empty cell counts 1 and each tile
    /// counts the square of its magnitude, summed over all 16 cells.
    pub fn evaluate(&self) -> (score: u64)
        requires
            self.wf(),
            mag_sum(self@) <= u32::MAX,
        ensures
            score == eval_sum(self@),
    {
        proof {
            lemma_eval_sum_bound(self@);
            lemma_mag_sum_nonneg(self@);
            assert(mag_sum(self@) * mag_sum(self@) <= (u32::MAX as int) * (u32::MAX as int))
                by (nonlinear_arith)
                requires
                    0 <= mag_sum(self@) <= u32::MAX as int,
            ;
            assert(self@.skip(0) =~= self@);
        }
        let mut score: u64 = 0;
        for t in 0..16usize
            invariant
                self.wf(),
                mag_sum(self@) <= u32::MAX,
                score + eval_sum(self@.skip(t as int)) == eval_sum(self@),
                eval_sum(self@) <= (u32::MAX as int) * (u32::MAX as int) + 16,
        {
            let ghost rest = self@.skip(t as int);
            proof {
                assert(rest[0] == self@[t as int]);
                assert(rest.skip(1) =~= self@.skip(t as int + 1));
                lemma_eval_sum_ge_len(rest.skip(1));
            }
            let v = self.cells[t];
            if v == 0 {
                score = score + 1;
            } else {
                proof {
                    assert((v as u64) * (v as u64) == cell_score(v)) by (nonlinear_arith)
                        requires
                            v >= 1,
                    ;
                }
                score = score + (v as u64) * (v as u64);
            }
        }
        proof {
            assert(self@.skip(16).len() == 0);
        }
        score
    }

    /// One full move: slide this board in the given direction, then spawn
    /// one random tile into the slid board.  Returns the spawned board, or
    /// nothing exactly when the slid board has no empty cell — the spawn is
    /// attempted even when the slide moved nothing.
    pub fn play(&self, direction: Direction) -> (r: Option<Board>)
        requires
            self.wf(),
            mag_sum(self@) <= u32::MAX,
        ensures
            r is None <==> !has_empty(slide_spec(self@, direction)),
            r is Some ==> r->Some_0.wf(),
            r is Some ==> exists|j: int|
                0 <= j < 16 && slide_spec(self@, direction)[j] == 0
                    && (r->Some_0@ == slide_spec(self@, direction).update(j, 2u32)
                        || r->Some_0@ == slide_spec(self@, direction).update(j, 4u32)),
            r is Some ==> mag_sum(r->Some_0@) <= mag_sum(self@) + 4,
            r is Some ==> eval_sum(r->Some_0@) >= eval_sum(self@) + 3,
            has_empty(self@) ==> r is Some,
    {
        let mut new_board = self.move_direction(direction);
        let ghost sl = slide_spec(self@, direction);
        let r = new_board.generate_random();
        proof {
            lemma_slide_totals(self@, direction);
            if r is Some {
                let j = choose|j: int|
                    0 <= j < 16 && sl[j] == 0
                        && (new_board@ == sl.update(j, 2u32) || new_board@ == sl.update(j, 4u32));
                lemma_mag_sum_update(sl, j, 2u32);
                lemma_mag_sum_update(sl, j, 4u32);
                lemma_eval_sum_update(sl, j, 2u32);
                lemma_eval_sum_update(sl, j, 4u32);
            }
            if has_empty(self@) {
                lemma_slide_keeps_empty(self@, direction);
            }
        }
        r
    }

    /// The best heuristic score among the boards in the deepest sampled
    /// layer reached from this board by first moving in `direction` and
    /// then playing every direction for `depth - 1` further plies; nothing
    /// when every sampled path died on a full board — in particular
    /// whenever the very first move already finds the slid board full.
    /// Each branch samples one random spawn, so two calls may explore
    /// different boards; a one-ply search is deterministic in whether it
    /// finds a board, and any board it finds beats this one.
    fn subtree_best(&self, direction: Direction, depth: u8) -> (best: Option<u64>)
        requires
            self.wf(),
            depth >= 1,
            mag_sum(self@) + 4 * (depth as int) <= u32::MAX,
        ensures
            !has_empty(slide_spec(self@, direction)) ==> best is None,
            depth == 1 ==> (best is Some <==> has_empty(slide_spec(self@, direction))),
            depth == 1 && best is Some ==> best->Some_0 > eval_sum(self@),
    {
        let ghost base = self@;
        proof {
            lemma_mag_sum_nonneg(self@);
        }
        let first = self.play(direction);
        let ghost first_g = first;
        let mut layer: Vec<Option<Board>> = Vec::new();
        layer.push(first);
        let mut ply: u8 = 1;
        while ply < depth
            invariant
                1 <= ply <= depth,
                self.wf(),
                base == self@,
                mag_sum(base) + 4 * (depth as int) <= u32::MAX,
                mag_sum(base) >= 0,
                forall|t: int|
                    0 <= t < layer@.len() && (#[trigger] layer@[t]) is Some
                        ==> layer@[t]->Some_0.wf()
                            && mag_sum(layer@[t]->Some_0@) <= mag_sum(base) + 4 * (ply as int),
                first_g is None ==> forall|t: int|
                    0 <= t < layer@.len() ==> (#[trigger] layer@[t]) is None,
                depth == 1 ==> layer@ == seq![first_g],
            decreases depth - ply,
        {
            let mut next: Vec<Option<Board>> = Vec::new();
            for di in 0..4usize
                invariant
                    self.wf(),
                    1 <= ply < depth,
                    mag_sum(base) + 4 * (depth as int) <= u32::MAX,
                    mag_sum(base) >= 0,
                    forall|t: int|
                        0 <= t < layer@.len() && (#[trigger] layer@[t]) is Some
                            ==> layer@[t]->Some_0.wf()
                                && mag_sum(layer@[t]->Some_0@) <= mag_sum(base) + 4 * (ply as int),
                    first_g is None ==> forall|t: int|
                        0 <= t < layer@.len() ==> (#[trigger] layer@[t]) is None,
                    first_g is None ==> next@.len() == 0,
                    forall|t: int|
                        0 <= t < next@.len() && (#[trigger] next@[t]) is Some
                            ==> next@[t]->Some_0.wf()
                                && mag_sum(next@[t]->Some_0@) <= mag_sum(base) + 4 * (ply as int) + 4,
            {
                let post_direction = dir_from_index(di);
                for t in 0..layer.len()
                    invariant
                        self.wf(),
                        1 <= ply < depth,
                        mag_sum(base) + 4 * (depth as int) <= u32::MAX,
                        mag_sum(base) >= 0,
                        forall|u: int|
                            0 <= u < layer@.len() && (#[trigger] layer@[u]) is Some
                                ==> layer@[u]->Some_0.wf()
                                    && mag_sum(layer@[u]->Some_0@) <= mag_sum(base) + 4 * (ply as int),
                        first_g is None ==> forall|u: int|
                            0 <= u < layer@.len() ==> (#[trigger] layer@[u]) is None,
                        first_g is None ==> next@.len() == 0,
                        forall|u: int|
                            0 <= u < next@.len() && (#[trigger] next@[u]) is Some
                                ==> next@[u]->Some_0.wf()
                                    && mag_sum(next@[u]->Some_0@)
                                        <= mag_sum(base) + 4 * (ply as int) + 4,
                {
                    match &layer[t] {
                        Some(b) => {
                            next.push(b.play(post_direction));
                        },
                        None => {},
                    }
                }
            }
            layer = next;
            ply = ply + 1;
        }
        let mut best: Option<u64> = None;
        for t in 0..layer.len()
            invariant
                self.wf(),
                base == self@,
                ply == depth,
                mag_sum(base) + 4 * (depth as int) <= u32::MAX,
                mag_sum(base) >= 0,
                forall|u: int|
                    0 <= u < layer@.len() && (#[trigger] layer@[u]) is Some
                        ==> layer@[u]->Some_0.wf()
                            && mag_sum(layer@[u]->Some_0@) <= mag_sum(base) + 4 * (depth as int),
                first_g is None ==> forall|u: int|
                    0 <= u < layer@.len() ==> (#[trigger] layer@[u]) is None,
                first_g is None ==> best is None,
                depth == 1 ==> layer@ == seq![first_g],
                depth == 1 && first_g is Some
                    ==> eval_sum(first_g->Some_0@) >= eval_sum(base) + 3,
                depth == 1 && first_g is Some && t >= 1
                    ==> best is Some && best->Some_0 > eval_sum(base),
        {
            match &layer[t] {
                Some(b) => {
                    let s = b.evaluate();
                    match best {
                        Some(m) => {
                            if s > m {
                                best = Some(s);
                            }
                        },
                        None => {
                            best = Some(s);
                        },
                    }
                },
                None => {},
            }
        }
        best
    }

    /// The direction whose sampled lookahead subtree of `projection_nb`
    /// plies reaches the highest heuristic score, scanning Up, Down, Left,
    /// Right in that order and keeping the earlier direction on ties.
    /// Reports a rejected depth exactly when `projection_nb` is 0, and no
    /// improving move when no sampled board beats this board's own score —
    /// deterministically so when every direction's slide leaves the board
    /// full.  A one-ply search chooses a direction exactly when some slide
    /// leaves an empty cell, so in particular on any board with an empty
    /// cell.
    pub fn best_move(&self, projection_nb: u8) -> (r: SearchOutcome)
        requires
            self.wf(),
            projection_nb == 0 || mag_sum(self@) + 4 * (projection_nb as int) <= u32::MAX,
        ensures
            r == SearchOutcome::InvalidDepth <==> projection_nb == 0,
            projection_nb >= 1 && (forall|d: Direction| !has_empty(#[trigger] slide_spec(self@, d)))
                ==> r == SearchOutcome::NoImprovingMove,
            projection_nb == 1
                ==> (r is Chosen <==> exists|d: Direction| has_empty(#[trigger] slide_spec(self@, d))),
            projection_nb == 1 && has_empty(self@) ==> r is Chosen,
    {
        if projection_nb == 0 {
            return SearchOutcome::InvalidDepth;
        }
        proof {
            lemma_mag_sum_nonneg(self@);
        }
        let initial_score = self.evaluate();
        let mut best_dir = Direction::Up;
        let mut best_score = initial_score;
        for di in 0..4usize
            invariant
                self.wf(),
                projection_nb >= 1,
                mag_sum(self@) + 4 * (projection_nb as int) <= u32::MAX,
                initial_score == eval_sum(self@),
                best_score >= initial_score,
                (forall|d: Direction| !has_empty(#[trigger] slide_spec(self@, d)))
                    ==> best_score == initial_score,
                best_score > initial_score
                    ==> exists|d: Direction| has_empty(#[trigger] slide_spec(self@, d)),
                projection_nb == 1
                    ==> forall|t: int|
                        0 <= t < di && has_empty(#[trigger] slide_spec(self@, dir_at(t)))
                            ==> best_score > initial_score,
        {
            let d = dir_from_index(di);
            let sb = self.subtree_best(d, projection_nb);
            match sb {
                Some(s) => {
                    if s > best_score {
                        best_dir = d;
                        best_score = s;
                    }
                },
                None => {},
            }
        }
        proof {
            if projection_nb == 1 {
                if exists|d: Direction| has_empty(#[trigger] slide_spec(self@, d)) {
                    let d = choose|d: Direction| has_empty(#[trigger] slide_spec(self@, d));
                    lemma_dir_at_covers(d);
                }
            }
            if has_empty(self@) {
                lemma_slide_keeps_empty(self@, Direction::Up);
                assert(has_empty(slide_spec(self@, Direction::Up)));
            }
        }
        if best_score == initial_score {
            SearchOutcome::NoImprovingMove
        } else {
            SearchOutcome::Chosen(best_dir)
        }
    }
}

} // verus!

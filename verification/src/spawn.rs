//! The random tile spawner.

use vstd::prelude::*;
use rand::RngExt;
use crate::board::Board;

verus! {

/// Relies on rand::rng and rand::RngExt::random_range: for a non-empty
/// range `0..n` the sampled value lies in that range.  Nothing further is
/// claimed of which value comes back.
#[verifier::external_body]
fn random_below(n: usize) -> (r: usize)
    requires
        n > 0,
    ensures
        r < n,
{
    rand::rng().random_range(0..n)
}

impl Board {
    /// Writes one freshly spawned tile into the cell at flat index `j`:
    /// magnitude 4 with probability 1/10, magnitude 2 otherwise.
    fn generate_at(&mut self, j: usize)
        requires
            old(self).wf(),
            j < 16,
        ensures
            final(self).wf(),
            final(self)@ == old(self)@.update(j as int, 2u32)
                || final(self)@ == old(self)@.update(j as int, 4u32),
    {
        let line = j / 4;
        let column = j % 4;
        if random_below(10) == 0 {
            self.set(line, column, 4);
        } else {
            self.set(line, column, 2);
        }
    }

    /// Spawns one tile of magnitude 2 or 4 into an empty cell chosen
    /// uniformly at random, and returns the resulting board; returns
    /// nothing, leaving the board untouched, exactly when the board is
    /// full.  A spawned tile never lands on an occupied cell.
    pub fn generate_random(&mut self) -> (r: Option<Board>)
        requires
            old(self).wf(),
        ensures
            final(self).wf(),
            r is None <==> !crate::model::has_empty(old(self)@),
            r is None ==> final(self)@ == old(self)@,
            r is Some ==> r.unwrap()@ == final(self)@,
            r is Some ==> exists|j: int|
                0 <= j < 16 && old(self)@[j] == 0
                    && (final(self)@ == old(self)@.update(j, 2u32)
                        || final(self)@ == old(self)@.update(j, 4u32)),
    {
        let mut empty_cells: Vec<usize> = Vec::new();
        for t in 0..16usize
            invariant
                self.wf(),
                forall|e: int|
                    0 <= e < empty_cells@.len()
                        ==> #[trigger] empty_cells@[e] < 16 && self@[empty_cells@[e] as int] == 0,
                forall|j: int|
                    0 <= j < t && self@[j] == 0
                        ==> exists|e: int|
                            0 <= e < empty_cells@.len() && empty_cells@[e] == j,
        {
            let ghost before = empty_cells@;
            let v = self.value_at(t / 4, t % 4);
            proof {
                assert(4 * (t as int / 4) + t as int % 4 == t as int);
                assert(v == self@[t as int]);
            }
            if v == 0 {
                empty_cells.push(t);
            }
            proof {
                assert forall|j: int|
                    0 <= j < t + 1 && self@[j] == 0
                    implies exists|e: int|
                        0 <= e < empty_cells@.len() && empty_cells@[e] == j by {
                    if j == t as int {
                        assert(empty_cells@[empty_cells@.len() - 1] == j);
                    } else {
                        let e = choose|e: int| 0 <= e < before.len() && before[e] == j;
                        assert(empty_cells@[e] == j);
                    }
                }
            }
        }
        let n = empty_cells.len();
        if n == 0 {
            proof {
                assert forall|j: int| 0 <= j < 16 implies self@[j] != 0 by {
                    if self@[j] == 0 {
                        let e = choose|e: int|
                            0 <= e < empty_cells@.len() && empty_cells@[e] == j;
                        assert(false);
                    }
                }
            }
            None
        } else {
            let pick = random_below(n);
            let j = empty_cells[pick];
            self.generate_at(j);
            Some(self.clone())
        }
    }
}

} // verus!

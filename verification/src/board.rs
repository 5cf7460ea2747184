//! The board value type and the four move directions.

use vstd::prelude::*;

verus! {

use vstd::pervasive::VecAdditionalExecFns;

/// Side length of the square board.
pub const N: usize = 4;

/// Magnitude stored in an empty cell.
pub const EMPTY_CELL: u32 = 0;

/// A 4x4 grid of tile magnitudes, stored row-major; 0 denotes an empty cell.
///
/// A board is a value: two boards are equal exactly when every cell agrees.
#[derive(Debug, Eq, Hash)]
pub struct Board {
    pub cells: Vec<u32>,
}

/// One of the four compass directions a move can slide toward.
#[derive(Clone, Copy, Debug, PartialEq, Eq, Structural, Hash)]
pub enum Direction {
    Up,
    Down,
    Left,
    Right,
}

impl View for Board {
    type V = Seq<u32>;

    open spec fn view(&self) -> Seq<u32> {
        self.cells@
    }
}

impl Board {
    /// A board is well formed when it holds exactly one magnitude per cell.
    pub open spec fn wf(self) -> bool {
        self@.len() == 16
    }

    /// The all-empty board.
    pub fn new_empty() -> (b: Board)
        ensures
            b.wf(),
            forall|j: int| 0 <= j < 16 ==> b@[j] == 0,
    {
        let mut cells: Vec<u32> = Vec::new();
        while cells.len() < 16
            invariant
                cells@.len() <= 16,
                forall|j: int| 0 <= j < cells@.len() ==> cells@[j] == 0,
            decreases 16 - cells@.len(),
        {
            cells.push(0);
        }
        Board { cells }
    }

    /// A board holding the given rows of magnitudes.
    pub fn new(cells: [[u32; 4]; 4]) -> (b: Board)
        ensures
            b.wf(),
            forall|i: int, j: int|
                0 <= i < 4 && 0 <= j < 4 ==> b@[4 * i + j] == cells@[i]@[j],
    {
        let mut flat: Vec<u32> = Vec::new();
        for i in 0..4
            invariant
                flat@.len() == 4 * i,
                forall|r: int, c: int|
                    0 <= r < i && 0 <= c < 4 ==> flat@[4 * r + c] == cells@[r]@[c],
        {
            let row = cells[i];
            for j in 0..4
                invariant
                    0 <= i < 4,
                    row == cells@[i as int],
                    flat@.len() == 4 * i + j,
                    forall|r: int, c: int|
                        0 <= r < i && 0 <= c < 4 ==> flat@[4 * r + c] == cells@[r]@[c],
                    forall|c: int| 0 <= c < j ==> flat@[4 * i + c] == cells@[i as int]@[c],
            {
                flat.push(row[j]);
            }
        }
        Board { cells: flat }
    }

    /// The magnitude at the given row and column.
    pub fn value_at(&self, line: usize, column: usize) -> (v: u32)
        requires
            self.wf(),
            line < 4,
            column < 4,
        ensures
            v == self@[4 * line + column],
    {
        self.cells[4 * line + column]
    }

    /// Writes a magnitude at the given row and column.
    ///
    /// No magnitude is validated here: keeping every non-zero cell a power
    /// of two at least 2 is the caller's responsibility.
    pub fn set(&mut self, line: usize, column: usize, value: u32)
        requires
            old(self).wf(),
            line < 4,
            column < 4,
        ensures
            final(self)@ == old(self)@.update(4 * line + column, value),
            final(self).wf(),
    {
        self.cells.set(4 * line + column, value);
    }
}

impl Clone for Board {
    /// Cloning copies every cell: the clone's view equals the original's.
    fn clone(&self) -> (res: Board)
        ensures
            res@ == self@,
    {
        let cells = self.cells.clone();
        proof {
            assert(cells@ =~= self.cells@);
        }
        Board { cells }
    }
}

impl PartialEq for Board {
    fn eq(&self, other: &Board) -> (r: bool) {
        if self.cells.len() != other.cells.len() {
            return false;
        }
        for t in 0..self.cells.len()
            invariant
                self@.len() == other@.len(),
                forall|j: int| 0 <= j < t ==> self@[j] == other@[j],
        {
            if self.cells[t] != other.cells[t] {
                return false;
            }
        }
        proof {
            assert(self.cells@ =~= other.cells@);
        }
        true
    }
}

impl vstd::std_specs::cmp::PartialEqSpecImpl for Board {
    open spec fn obeys_eq_spec() -> bool {
        true
    }

    open spec fn eq_spec(&self, other: &Board) -> bool {
        self.cells@ == other.cells@
    }
}

} // verus!

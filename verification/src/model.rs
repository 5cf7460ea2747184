//! The mathematical model of boards, lines and moves.
//!
//! A board is a sequence of 16 magnitudes in row-major order; a line is a
//! sequence of 4 magnitudes read from the edge a move compacts toward.
//! Every executable transform is specified against the functions here.

use vstd::prelude::*;
use crate::board::Direction;

verus! {

/// Sum of the magnitudes of a line or a board.
pub open spec fn mag_sum(s: Seq<u32>) -> int
    decreases s.len(),
{
    if s.len() == 0 {
        0
    } else {
        s[0] + mag_sum(s.skip(1))
    }
}

/// Number of occupied cells of a line or a board.
pub open spec fn tile_count(s: Seq<u32>) -> int
    decreases s.len(),
{
    if s.len() == 0 {
        0
    } else {
        (if s[0] != 0 { 1int } else { 0int }) + tile_count(s.skip(1))
    }
}

/// Heuristic worth of one cell: a flat 1 for an empty cell, the square of
/// the magnitude otherwise.
pub open spec fn cell_score(v: u32) -> int {
    if v == 0 {
        1
    } else {
        v * v
    }
}

/// Heuristic score of a line or a board: the sum of its cells' worth.
pub open spec fn eval_sum(s: Seq<u32>) -> int
    decreases s.len(),
{
    if s.len() == 0 {
        0
    } else {
        cell_score(s[0]) + eval_sum(s.skip(1))
    }
}

/// Whether some cell of the board is empty.
pub open spec fn has_empty(s: Seq<u32>) -> bool {
    exists|j: int| 0 <= j < s.len() && s[j] == 0
}

/// One scan of a line: values are taken in order, empties are skipped, and
/// a value merges into the last placed tile when the two are equal and that
/// tile has not itself just absorbed a merge — so no tile merges twice in
/// one slide.  `acc` holds the tiles placed so far; `open` says whether the
/// last placed tile may still merge.
pub open spec fn compact_rec(s: Seq<u32>, acc: Seq<u32>, open: bool) -> Seq<u32>
    decreases s.len(),
{
    if s.len() == 0 {
        acc
    } else if s[0] == 0 {
        compact_rec(s.skip(1), acc, open)
    } else if open && acc.len() > 0 && acc.last() == s[0] {
        compact_rec(s.skip(1), acc.update(acc.len() - 1, (2 * s[0]) as u32), false)
    } else {
        compact_rec(s.skip(1), acc.push(s[0]), true)
    }
}

/// `s` extended with empty cells up to length `n`.
pub open spec fn pad_zeros(s: Seq<u32>, n: nat) -> Seq<u32> {
    Seq::new(n, |i: int| if i < s.len() { s[i] } else { 0 })
}

/// The slide-and-merge of one line, scanned from the compacting edge:
/// tiles compact toward index 0, merging at most once per placed tile.
pub open spec fn compact_line_spec(l: Seq<u32>) -> Seq<u32> {
    pad_zeros(compact_rec(l, Seq::empty(), false), l.len())
}

/// Flat board index of the k-th cell, in scan order, of line i for a move
/// in direction d.  Lines are rows for Left/Right and columns for Up/Down;
/// the scan starts at the edge the move compacts toward.
pub open spec fn scan_idx(d: Direction, i: int, k: int) -> int {
    match d {
        Direction::Left => 4 * i + k,
        Direction::Right => 4 * i + (3 - k),
        Direction::Up => 4 * k + i,
        Direction::Down => 4 * (3 - k) + i,
    }
}

/// Which line of direction d the flat cell j belongs to.
pub open spec fn line_of(d: Direction, j: int) -> int {
    match d {
        Direction::Left => j / 4,
        Direction::Right => j / 4,
        Direction::Up => j % 4,
        Direction::Down => j % 4,
    }
}

/// The scan position of the flat cell j within its line for direction d.
pub open spec fn pos_of(d: Direction, j: int) -> int {
    match d {
        Direction::Left => j % 4,
        Direction::Right => 3 - j % 4,
        Direction::Up => j / 4,
        Direction::Down => 3 - j / 4,
    }
}

/// Line i of board b, in scan order for direction d.
pub open spec fn scan_line(b: Seq<u32>, d: Direction, i: int) -> Seq<u32> {
    Seq::new(4, |k: int| b[scan_idx(d, i, k)])
}

/// The board after sliding board b in direction d: every line, read from
/// the compacting edge, is replaced by its slide-and-merge.
pub open spec fn slide_spec(b: Seq<u32>, d: Direction) -> Seq<u32> {
    Seq::new(16, |j: int| compact_line_spec(scan_line(b, d, line_of(d, j)))[pos_of(d, j)])
}

/// A line is settled when its tiles already sit against the compacting
/// edge and no two neighbouring tiles are equal: sliding it changes nothing.
pub open spec fn line_settled(l: Seq<u32>) -> bool {
    &&& (forall|k1: int, k2: int|
        0 <= k1 <= k2 < l.len() && l[k1] == 0 ==> l[k2] == 0)
    &&& (forall|k: int|
        0 <= k < l.len() - 1 && #[trigger] l[k] != 0 && l[k + 1] != 0 ==> l[k] != l[k + 1])
}

/// Whether a magnitude is one a tile can carry: a power of two at least 2.
pub open spec fn is_tile(v: u32) -> bool
    decreases v,
{
    v == 2 || (v > 2 && v % 2 == 0 && is_tile(v / 2))
}

/// The number of leading occupied cells of a line.
pub open spec fn lead_tiles(s: Seq<u32>) -> int
    decreases s.len(),
{
    if s.len() == 0 || s[0] == 0 {
        0
    } else {
        1 + lead_tiles(s.skip(1))
    }
}

/// A board is settled toward direction d when each of its scan lines is.
pub open spec fn board_settled(b: Seq<u32>, d: Direction) -> bool {
    forall|i: int| 0 <= i < 4 ==> line_settled(#[trigger] scan_line(b, d, i))
}

} // verus!

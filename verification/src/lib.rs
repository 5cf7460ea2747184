//! A verified engine for a sliding-tile merge puzzle on a 4x4 grid.
//!
//! Directional moves compact and merge equal tiles, a random tile spawns
//! after each move, and a depth-limited stochastic search picks the move
//! whose best sampled outcome scores highest under a heuristic evaluator.

pub mod board;
pub mod laws;
pub mod lemmas;
pub mod model;
pub mod search;
pub mod slide;
pub mod spawn;

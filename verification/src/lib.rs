//! Two-dimensional cellular automata on a bounded grid.
//!
//! A grid of cells is seeded, every cell is wired to its neighbours under a
//! neighbourhood topology, a table of per-state rules is attached, and the
//! automaton is then advanced one generation at a time.

pub mod errors;
pub mod state;
pub mod grid;
pub mod rule;
pub mod automaton;
pub mod parse;

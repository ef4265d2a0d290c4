//! A synchronous cellular automaton: a closed set of cell states evolving on
//! a 2-D grid. Each tick, every cell's next state is computed from its own
//! state and its four orthogonal neighbors, via a two-phase protocol: each
//! neighbor proposes at most one influence, and simultaneous proposals are
//! merged left-to-right by a fixed conflict-resolution rule.

pub mod automata;
pub mod automata_field;

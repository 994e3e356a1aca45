//! P2Life: a two-player variant of Conway's Game of Life.
//!
//! Two populations share one bounded grid.  Every generation each cell counts
//! the neighbours that belong to either player and survives, dies or is born
//! by the difference of the two counts; a birth that both players claim is
//! decided by a coin.  The crate holds the grid, the rule, and the session
//! controller that walks a game from placement to its outcome.

pub mod cell;
pub mod rules;
pub mod board;
pub mod grid;
mod random;
pub mod session;

//! Stepwise shortest-path search over a two-dimensional grid of tiles.
//!
//! The grid, the search engine and its four selection strategies are
//! verified; every public function carries a contract over the
//! mathematical model of the data it touches.

pub mod pathfinders;
pub mod ui;

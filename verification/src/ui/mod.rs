//! The decisions of the user interface that need no screen: the options
//! of a grid, the names of the selectable items, and what a pointer on the
//! grid means.

pub mod grid;
pub mod options;

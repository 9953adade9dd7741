//! Maps: the grid of units and its training parameters.

pub mod grid;
pub mod som;

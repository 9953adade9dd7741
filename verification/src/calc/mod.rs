//! Calculations: metrics, neighborhoods, nearest-neighbor search and
//! normalization.

pub mod metric;
pub mod neighborhood;
pub mod nn;
pub mod norm;

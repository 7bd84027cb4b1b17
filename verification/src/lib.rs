//! Exhaustive search for the placements of a small image inside a larger one,
//! ranked by total squared error.

pub mod image;
pub mod metric;
pub mod outcome;
pub mod results;
pub mod search;

//! A look into a recording of which only some byte ranges are read.

pub mod probe;
pub mod ranges;
pub mod report;
pub mod summary;

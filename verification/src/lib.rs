//! Core logic for converting a mesh tally into a visualization-ready
//! subset: resolving user filter requests (by bin index, by physical
//! value, or a totals-only shortcut) into concrete bin index sets,
//! deriving the output file name, and assembling the conversion
//! configuration handed to the external converter.

pub mod config;
pub mod model;
pub mod name;
pub mod parse;
pub mod resolve;

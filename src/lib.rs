//! Recursive literal-substring search: classification of file samples,
//! line scanning, permit accounting for open files, result merging and
//! aligned rendering of matches.

pub mod classify;
pub mod scan;
pub mod governor;
pub mod walk;
pub mod render;

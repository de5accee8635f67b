//! A three-way line merge: aligning "mine", "older" and "yours" versions of a
//! file, grouping the alignment into hunks, and rendering the result in the
//! merge, normal and ed output formats.

pub mod align;
pub mod diffing;
pub mod lines;
pub mod merge;
pub mod output;
pub mod writers;
pub mod options;
pub mod run;

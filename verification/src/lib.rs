//! Line-by-line comparison of two texts, decided by the length of the longest
//! common subsequence of each pair of lines.

pub mod args;
pub mod differ;
pub mod engine;
pub mod file;
pub mod matrix;
pub mod subsequence;

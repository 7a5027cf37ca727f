//! Pairwise Euclidean distances between coverage profiles.
//!
//! The crate reads tab-separated coverage tables into a [`types::CoverageVector`]
//! and builds the upper-triangular matrix of distances between its samples.
//! The scalar type of a distance is a parameter: the caller supplies its
//! arithmetic, and every contract is stated relative to what those
//! operations promise.
pub mod distance;
pub mod matrix;
pub mod message;
pub mod number;
pub mod tsv;
pub mod types;

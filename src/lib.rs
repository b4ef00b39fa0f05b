//! Sensitivity analysis for queries over video-derived event tables.
//!
//! The library models queries as a typed tree, binds logical table names to
//! the statements that produce them, and computes for every sub-tree a bound
//! on how much one individual can change what the tree releases.
pub mod number;
pub mod text;
pub mod names;
pub mod error;
pub mod split;
pub mod process;
pub mod policy;
pub mod aggregation;
pub mod resolve;
pub mod sensitivity;
pub mod laws;
pub mod duration;

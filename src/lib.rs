//! Parallel, leaf-first deletion of directory trees.
//!
//! Discovery lists the tree once and records every directory with its parent
//! link; the broker then hands directories to workers only after all their
//! subdirectories have been completed, so every directory is empty of
//! subdirectories by the time a worker removes it.
pub mod broker;
pub mod error;
pub mod run;
pub mod stats;
pub mod tree;
pub mod worker;

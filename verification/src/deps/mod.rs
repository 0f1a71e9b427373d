//! Dependency graph and transaction engine.
//!
//! The graph is built from a snapshot of loaded units; a transaction is the
//! ordered list of jobs that a request expands to.

pub mod declarations;
pub mod graph;
pub mod job;
pub mod order;
pub mod propagation;
pub mod reasons;
pub mod transaction;

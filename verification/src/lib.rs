//! Reconciliation engine of a file-synchronization client.
//!
//! Three observations of one file tree (the current local scan, the baseline
//! saved by the last successful synchronization, and the current remote
//! listing) are joined item by item; each joined item is classified into one
//! action, and applying an action advances the baseline.

pub mod error;
pub mod item;
pub mod tree;
pub mod filesystem;
pub mod scan;
pub mod remote;
pub mod diff;
pub mod repository;
pub mod join;
pub mod actions;

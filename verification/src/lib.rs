//! An in-memory browser for a local version-control repository's branches:
//! enumerating local and remote branches, walking each branch's commit
//! ancestry up to a bounded depth, and keeping a sortable, filterable
//! catalog of the results with a stable cursor.

pub mod branch;
pub mod catalog;
pub mod errors;
pub mod order;
pub mod repo;
pub mod timestamp;

//! Discovery of repositories beneath the configured directories and of the
//! local branches they hold.

pub mod branch_collecting;
pub mod guarantees;
pub mod recency;
pub mod repo_scanning;

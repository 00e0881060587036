//! Work-log helper: discovers local branches of version-controlled
//! repositories and turns a week of choices into logged hours.

pub mod cli;
pub mod configuration;
pub mod log;
pub mod repo;

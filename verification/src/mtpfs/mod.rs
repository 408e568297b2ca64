//! A telephone as a filesystem.

pub mod args;
pub mod backend;
pub mod cache;
pub mod error;
pub mod fs;
pub mod path;
pub mod pending;
pub mod startup;
pub mod tree;

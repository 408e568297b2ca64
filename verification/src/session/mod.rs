//! One MTP session over two bulk endpoints.
//!
//! An operation is a command, then an optional data phase in one direction, then a response. The
//! host does the transfers; this module says which transfer is due, and takes in what it gave.

pub mod answer;
pub mod config;
pub mod drain;
pub mod error;
pub mod exchange;
pub mod outcome;
pub mod repair;
pub mod sending;
pub mod state;

//! The PTP and MTP wire format: containers, datasets and the fields they are made of.
//!
//! Every function here stops on every input, and reports damaged input as a
//! [`error::ParseError`].

pub mod association;
pub mod bytes;
pub mod container;
pub mod datatype;
pub mod device_info;
pub mod error;
pub mod format;
pub mod object;
pub mod op;
pub mod prop;
pub mod prop_list;
pub mod reader;
pub mod resp;
pub mod storage;
pub mod utf16;

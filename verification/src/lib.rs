//! Reads and writes the files of an Android device over MTP, on FreeBSD.
//!
//! The library decides; it does no input or output of its own. A host program moves the bytes: it does
//! each transfer, listing or wait that the library names, and hands back what came of it.

pub mod fixture;
pub mod mtpfs;
pub mod probe;
pub mod ptp;
pub mod session;
pub mod text;
pub mod time;
pub mod usb;

//! Values for the third parameter of `GetObjectHandles`, which names a folder.
//!
//! Two values are special, and the standards do not agree about which value does what. The names
//! follow what a Samsung SM-S901U with 2059 objects answered: 2059 handles to the first value, and
//! 13 to the second.

use vstd::prelude::*;

verus! {

/// The value that returned every object on the test device.
pub const EVERY_OBJECT: u32 = 0x0000_0000;
/// The value that returned the objects of the root folder on the test
/// device.
pub const ROOT_ONLY: u32 = 0xffff_ffff;

} // verus!

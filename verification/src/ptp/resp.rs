//! Response codes.

use vstd::prelude::*;

verus! {

/// The device did the operation.
pub const OK: u16 = 0x2001;
/// The device already has a session.
pub const SESSION_ALREADY_OPEN: u16 = 0x201e;

} // verus!

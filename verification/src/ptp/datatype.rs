//! Data type codes of PTP. A property value carries its own type.

use vstd::prelude::*;

verus! {

pub const INT8: u16 = 0x0001;
pub const UINT8: u16 = 0x0002;
pub const INT16: u16 = 0x0003;
pub const UINT16: u16 = 0x0004;
pub const INT32: u16 = 0x0005;
pub const UINT32: u16 = 0x0006;
pub const INT64: u16 = 0x0007;
pub const UINT64: u16 = 0x0008;
pub const INT128: u16 = 0x0009;
pub const UINT128: u16 = 0x000a;
pub const STR: u16 = 0xffff;

} // verus!

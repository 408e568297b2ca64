//! Object property codes that give the name, the size and the place of an object.

use vstd::prelude::*;

verus! {

/// The storage that holds the object.
pub const STORAGE_ID: u16 = 0xdc01;
/// The format code. `format::ASSOCIATION` means a folder.
pub const OBJECT_FORMAT: u16 = 0xdc02;
/// The size of the object, in bytes.
pub const OBJECT_SIZE: u16 = 0xdc04;
/// The name of the object.
pub const OBJECT_FILE_NAME: u16 = 0xdc07;
/// The handle of the folder that holds the object.
pub const PARENT_OBJECT: u16 = 0xdc0b;
/// Asks for every property. The value goes in parameter 3.
pub const ALL_PROPERTIES: u32 = 0xffff_ffff;

} // verus!

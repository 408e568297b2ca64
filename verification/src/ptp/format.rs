//! Object format codes that tell a folder from a file, and a few common kinds of file.

use vstd::prelude::*;

verus! {

/// A folder. PTP calls a folder an association.
pub const ASSOCIATION: u16 = 0x3001;
/// A file the device does not classify.
pub const UNDEFINED: u16 = 0x3000;
/// A text file.
pub const TEXT: u16 = 0x3004;
/// An HTML file.
pub const HTML: u16 = 0x3005;
/// A JPEG image.
pub const EXIF_JPEG: u16 = 0x3801;
/// A PNG image.
pub const PNG: u16 = 0x380b;
/// An MP3 file.
pub const MP3: u16 = 0x3009;
/// An MP4 file.
pub const MP4: u16 = 0xb982;

} // verus!

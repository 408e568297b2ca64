//! What a host knows of USB devices: descriptors, transfers and the search for a telephone.

pub mod descriptor;
pub mod device;
pub mod discover;

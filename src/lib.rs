//! Recovers JPEG images from a raw byte stream (a disk or partition image)
//! by scanning for their start, vendor-tag and end markers.
pub mod marker;
pub mod scanner;
pub mod recovery;
pub mod properties;

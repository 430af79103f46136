//! A reader for the PNG container format.
//!
//! The crate validates the file signature, walks the chunk sequence while
//! checking each chunk's CRC-32, sorts the payloads into image data and
//! auxiliary chunks, and decodes the image header. Entropy decoding of the
//! image data is left to a decompressor that the caller supplies.

pub mod bytes;
pub mod checksum;
pub mod chunk;
pub mod error;
pub mod header;
pub mod png;

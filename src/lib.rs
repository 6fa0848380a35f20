//! Decoding and encoding of Windows Bitmap (BMP) images.
//!
//! The decoder turns a complete BMP byte stream into a top-down, row-major
//! buffer of pixels; the encoder writes such a buffer back as an uncompressed
//! BMP stream. Every step is verified against the specification functions
//! defined next to it.

pub mod error;
pub mod bytes;
pub mod header;
pub mod pixels;
pub mod rle;
pub mod decoder;
pub mod encoder;
pub mod laws;

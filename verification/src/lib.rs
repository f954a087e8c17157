//! Decoder for the QOI lossless image format.
//!
//! The stream starts with a fixed header (magic bytes, big-endian geometry,
//! channel count, colorspace tag), continues with a sequence of variable-width
//! opcodes that reconstruct pixels one at a time, and ends with a fixed
//! eight-byte marker.  The decoder interprets the opcodes while maintaining a
//! previous-pixel register and a 64-slot pixel history cache, and returns the
//! raw pixel bytes together with the image geometry.

pub mod decode;
pub mod laws;
pub mod model;
pub mod types;

//! The value types of the decoder: pixels, the pixel hash, channel and
//! colorspace tags, and the error taxonomy.

use vstd::prelude::*;

verus! {

/// One pixel: red, green, blue and alpha channel values.
#[derive(Clone, Copy, Debug, PartialEq, Eq, Structural)]
pub struct Pixel(pub u8, pub u8, pub u8, pub u8);

/// The position in the 64-slot history cache that a pixel hashes to.
pub open spec fn hash_of(p: Pixel) -> int {
    (p.0 * 3 + p.1 * 5 + p.2 * 7 + p.3 * 11) % 64
}

impl Pixel {
    /// The history-cache slot of this pixel.  All four channels take part,
    /// including alpha, even for images that store only three channels.
    pub fn hash(self) -> (h: usize)
        ensures
            h == hash_of(self),
            h < 64,
    {
        let r = self.0 as usize;
        let g = self.1 as usize;
        let b = self.2 as usize;
        let a = self.3 as usize;
        (r * 3 + g * 5 + b * 7 + a * 11) % 64
    }
}

/// How many channels the stream stores per pixel.
#[derive(Clone, Copy, Debug, PartialEq, Eq, Structural)]
pub enum Channels {
    Rgb,
    Rgba,
}

/// The colorspace tag of the header.  Recorded for the caller; it does not
/// affect the decoding arithmetic.
#[derive(Clone, Copy, Debug, PartialEq, Eq, Structural)]
pub enum Colorspace {
    Srgb,
    Linear,
}

/// Why a decode failed.  Every failure aborts the decode; there is no
/// partial result.
#[derive(Clone, Copy, Debug, PartialEq, Eq, Structural)]
pub enum QoiError {
    /// The first four bytes are not the format's magic identifier.
    InvalidMagic,
    /// The stream ended while a field or an opcode payload was expected.
    UnexpectedEof,
    /// The header's channel count is neither 3 nor 4.
    InvalidChannelCount,
    /// The header's colorspace tag is neither 0 nor 1.
    InvalidColorspace,
    /// An opcode byte matched no known bit pattern.  The bit patterns
    /// partition all byte values, so this is a defensive branch.
    InvalidOpcode,
    /// The trailing eight bytes are not the fixed end marker.
    InvalidEndMarker,
}

} // verus!

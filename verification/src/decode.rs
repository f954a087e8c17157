//! The executable decoder.  [`QoiImage::decode`] interprets a complete byte
//! stream and is proved to return exactly what the model's
//! [`spec_decode`] function says, error cases included.

use vstd::prelude::*;

use crate::model::{
    be_u32, decode_ops, emit, emit_run_capped, initial_history, initial_pixel, lemma_ops_done,
    lemma_ops_eof, lemma_ops_eof_luma, lemma_ops_eof_rgb, lemma_ops_eof_rgba, lemma_ops_invalid,
    lemma_step_diff, lemma_step_index, lemma_step_luma, lemma_step_rgb, lemma_step_rgba,
    lemma_step_run, spec_decode, step_to, SpecImage,
};
use crate::types::{hash_of, Channels, Colorspace, Pixel, QoiError};

verus! {

/// The channel count a tag stands for: 3 bytes per pixel for RGB, 4 for RGBA.
pub open spec fn channel_count(c: Channels) -> u32 {
    match c {
        Channels::Rgb => 3,
        Channels::Rgba => 4,
    }
}

/// A decoded image: the geometry and tags from the header and the raw pixel
/// bytes, `width * height` pixels of `channel_count(channels)` bytes each,
/// rows packed with no padding.
#[derive(Debug)]
pub struct QoiImage {
    pub width: u32,
    pub height: u32,
    pub channels: Channels,
    pub colorspace: Colorspace,
    pub pixels: Vec<u8>,
}

impl View for QoiImage {
    type V = SpecImage;

    open spec fn view(&self) -> SpecImage {
        SpecImage {
            width: self.width,
            height: self.height,
            channels: self.channels,
            colorspace: self.colorspace,
            pixels: self.pixels@,
        }
    }
}

/// Whether the outcome `r` of the executable decoder is exactly the outcome
/// `s` of the model: the same error, or an image whose view is the model's.
pub open spec fn decode_result_matches(
    r: Result<QoiImage, QoiError>,
    s: Result<SpecImage, QoiError>,
) -> bool {
    match r {
        Ok(img) => s == Ok::<SpecImage, QoiError>(img@),
        Err(e) => s == Err::<SpecImage, QoiError>(e),
    }
}

/// A 32-bit big-endian integer read from four bytes of the stream.
fn read_be_u32(data: &[u8], off: usize) -> (r: u32)
    requires
        off + 4 <= data@.len(),
    ensures
        r == be_u32(
            data@[off as int],
            data@[off as int + 1],
            data@[off as int + 2],
            data@[off as int + 3],
        ),
{
    (data[off] as u32) * 0x100_0000 + (data[off + 1] as u32) * 0x1_0000 + (data[off + 2] as u32)
        * 0x100 + (data[off + 3] as u32)
}

impl QoiImage {
    /// Decode a complete QOI byte stream: validate the header, interpret the
    /// opcode stream, and validate the end marker.  Returns the decoded
    /// image, or the error of the first stage that fails; a stream that ends
    /// early at any stage fails with `UnexpectedEof`.
    #[verifier::rlimit(100)]
    pub fn decode(data: &[u8]) -> (r: Result<QoiImage, QoiError>)
        ensures
            decode_result_matches(r, spec_decode(data@)),
    {
        if data.len() < 4 {
            return Err(QoiError::UnexpectedEof);
        }
        if !(data[0] == 0x71 && data[1] == 0x6F && data[2] == 0x69 && data[3] == 0x66) {
            return Err(QoiError::InvalidMagic);
        }
        if data.len() < 14 {
            return Err(QoiError::UnexpectedEof);
        }
        let width = read_be_u32(data, 4);
        let height = read_be_u32(data, 8);
        let channels = data[12];
        let colorspace = data[13];
        if channels != 3 && channels != 4 {
            return Err(QoiError::InvalidChannelCount);
        }
        if colorspace != 0 && colorspace != 1 {
            return Err(QoiError::InvalidColorspace);
        }

        proof {
            vstd::arithmetic::mul::lemma_mul_upper_bound(
                width as int,
                0xFFFF_FFFF,
                height as int,
                0xFFFF_FFFF,
            );
            vstd::arithmetic::mul::lemma_mul_upper_bound(
                width as int * height as int,
                0xFFFF_FFFFint * 0xFFFF_FFFFint,
                channels as int,
                4,
            );
        }
        let target: u128 = (width as u128) * (height as u128) * (channels as u128);
        let ghost t: int = target as int;

        let mut pixels: Vec<u8> = Vec::new();
        let mut prev = Pixel(0, 0, 0, 255);
        let mut hist: Vec<Pixel> = Vec::new();
        let mut i: usize = 0;
        while i < 64
            invariant
                i <= 64,
                hist@.len() == i,
                forall|j: int| 0 <= j < i ==> hist@[j] == Pixel(0u8, 0u8, 0u8, 0u8),
            decreases 64 - i,
        {
            hist.push(Pixel(0, 0, 0, 0));
            i = i + 1;
        }
        let h0 = prev.hash();
        hist[h0] = prev;
        proof {
            assert(hist@ =~= initial_history());
            assert(pixels@ =~= Seq::<u8>::empty());
        }

        let mut pos: usize = 14;
        while (pixels.len() as u128) < target
            invariant
                14 <= pos <= data@.len(),
                hist@.len() == 64,
                channels == 3 || channels == 4,
                data@.len() >= 14,
                data@[0] == 0x71,
                data@[1] == 0x6F,
                data@[2] == 0x69,
                data@[3] == 0x66,
                channels == data@[12],
                colorspace == 0 || colorspace == 1,
                colorspace == data@[13],
                width == be_u32(data@[4], data@[5], data@[6], data@[7]),
                height == be_u32(data@[8], data@[9], data@[10], data@[11]),
                t == width * height * channels,
                t == target,
                decode_ops(data@, pos as int, prev, hist@, pixels@, channels, t) == decode_ops(
                    data@,
                    14,
                    initial_pixel(),
                    initial_history(),
                    Seq::empty(),
                    channels,
                    t,
                ),
            decreases data@.len() - pos,
        {
            let ghost pos0: int = pos as int;
            let ghost prev0 = prev;
            let ghost hist0 = hist@;
            let ghost out0 = pixels@;

            if pos >= data.len() {
                proof {
                    lemma_ops_eof(data@, pos0, prev0, hist0, out0, channels, t);
                }
                return Err(QoiError::UnexpectedEof);
            }
            let op = data[pos];
            if op == 0xFE {
                // RGB: three payload bytes, alpha carried over.
                if data.len() - pos < 4 {
                    proof {
                        lemma_ops_eof_rgb(data@, pos0, prev0, hist0, out0, channels, t);
                    }
                    return Err(QoiError::UnexpectedEof);
                }
                let p = Pixel(data[pos + 1], data[pos + 2], data[pos + 3], prev.3);
                let h = p.hash();
                hist[h] = p;
                prev = p;
                pixels.push(p.0);
                pixels.push(p.1);
                pixels.push(p.2);
                if channels == 4 {
                    pixels.push(p.3);
                }
                pos = pos + 4;
                proof {
                    lemma_step_rgb(data@, pos0, prev0, hist0, out0, channels, t);
                    assert(pixels@ =~= out0 + emit(p, channels));
                    assert(step_to(data@, pos0 + 4, p, hist0, out0, channels, t) == decode_ops(
                        data@,
                        pos as int,
                        prev,
                        hist@,
                        pixels@,
                        channels,
                        t,
                    ));
                }
            } else if op == 0xFF {
                // RGBA: four payload bytes.
                if data.len() - pos < 5 {
                    proof {
                        lemma_ops_eof_rgba(data@, pos0, prev0, hist0, out0, channels, t);
                    }
                    return Err(QoiError::UnexpectedEof);
                }
                let p = Pixel(data[pos + 1], data[pos + 2], data[pos + 3], data[pos + 4]);
                let h = p.hash();
                hist[h] = p;
                prev = p;
                pixels.push(p.0);
                pixels.push(p.1);
                pixels.push(p.2);
                if channels == 4 {
                    pixels.push(p.3);
                }
                pos = pos + 5;
                proof {
                    lemma_step_rgba(data@, pos0, prev0, hist0, out0, channels, t);
                    assert(pixels@ =~= out0 + emit(p, channels));
                    assert(step_to(data@, pos0 + 5, p, hist0, out0, channels, t) == decode_ops(
                        data@,
                        pos as int,
                        prev,
                        hist@,
                        pixels@,
                        channels,
                        t,
                    ));
                }
            } else if op & 0xC0 == 0x00 {
                // INDEX: replay a pixel from the history cache.
                assert((op & 0x3F) < 64) by (bit_vector);
                let idx = (op & 0x3F) as usize;
                let p = hist[idx];
                let h = p.hash();
                hist[h] = p;
                prev = p;
                pixels.push(p.0);
                pixels.push(p.1);
                pixels.push(p.2);
                if channels == 4 {
                    pixels.push(p.3);
                }
                pos = pos + 1;
                proof {
                    lemma_step_index(data@, pos0, prev0, hist0, out0, channels, t);
                    assert(pixels@ =~= out0 + emit(p, channels));
                    assert(step_to(data@, pos0 + 1, p, hist0, out0, channels, t) == decode_ops(
                        data@,
                        pos as int,
                        prev,
                        hist@,
                        pixels@,
                        channels,
                        t,
                    ));
                }
            } else if op & 0xC0 == 0x40 {
                // DIFF: 2-bit channel deltas embedded in the opcode.
                let dr = (op >> 4) & 3;
                let dg = (op >> 2) & 3;
                let db = op & 3;
                let p = Pixel(
                    prev.0.wrapping_add(dr).wrapping_sub(2),
                    prev.1.wrapping_add(dg).wrapping_sub(2),
                    prev.2.wrapping_add(db).wrapping_sub(2),
                    prev.3,
                );
                let h = p.hash();
                hist[h] = p;
                prev = p;
                pixels.push(p.0);
                pixels.push(p.1);
                pixels.push(p.2);
                if channels == 4 {
                    pixels.push(p.3);
                }
                pos = pos + 1;
                proof {
                    lemma_step_diff(data@, pos0, prev0, hist0, out0, channels, t);
                    assert(pixels@ =~= out0 + emit(p, channels));
                    assert(step_to(data@, pos0 + 1, p, hist0, out0, channels, t) == decode_ops(
                        data@,
                        pos as int,
                        prev,
                        hist@,
                        pixels@,
                        channels,
                        t,
                    ));
                }
            } else if op & 0xC0 == 0x80 {
                // LUMA: 6-bit green delta plus a payload byte of nibbles.
                if data.len() - pos < 2 {
                    proof {
                        lemma_ops_eof_luma(data@, pos0, prev0, hist0, out0, channels, t);
                    }
                    return Err(QoiError::UnexpectedEof);
                }
                let payload = data[pos + 1];
                let dg = (op & 0x3F).wrapping_sub(32);
                let dr = (payload >> 4).wrapping_add(dg).wrapping_sub(8);
                let db = (payload & 0xF).wrapping_add(dg).wrapping_sub(8);
                let p = Pixel(
                    prev.0.wrapping_add(dr),
                    prev.1.wrapping_add(dg),
                    prev.2.wrapping_add(db),
                    prev.3,
                );
                let h = p.hash();
                hist[h] = p;
                prev = p;
                pixels.push(p.0);
                pixels.push(p.1);
                pixels.push(p.2);
                if channels == 4 {
                    pixels.push(p.3);
                }
                pos = pos + 2;
                proof {
                    lemma_step_luma(data@, pos0, prev0, hist0, out0, channels, t);
                    assert(pixels@ =~= out0 + emit(p, channels));
                    assert(step_to(data@, pos0 + 2, p, hist0, out0, channels, t) == decode_ops(
                        data@,
                        pos as int,
                        prev,
                        hist@,
                        pixels@,
                        channels,
                        t,
                    ));
                }
            } else if op & 0xC0 == 0xC0 {
                // RUN: repeat the previous pixel until the run count or the
                // target length is exhausted; the register and the history
                // already hold this pixel, so neither is touched.
                assert((op & 0x3F) < 64) by (bit_vector);
                let run: u8 = (op & 0x3F) + 1;
                let mut k: u8 = 0;
                while k < run && (pixels.len() as u128) < target
                    invariant
                        k <= run,
                        t == target,
                        emit_run_capped(prev, channels, run - k, pixels@, t) == emit_run_capped(
                            prev,
                            channels,
                            run as int,
                            out0,
                            t,
                        ),
                    decreases run - k,
                {
                    let ghost cur0 = pixels@;
                    pixels.push(prev.0);
                    pixels.push(prev.1);
                    pixels.push(prev.2);
                    if channels == 4 {
                        pixels.push(prev.3);
                    }
                    proof {
                        assert(pixels@ =~= cur0 + emit(prev, channels));
                        assert(emit_run_capped(prev, channels, run - k, cur0, t)
                            == emit_run_capped(prev, channels, run - k - 1, pixels@, t));
                    }
                    k = k + 1;
                }
                pos = pos + 1;
                proof {
                    lemma_step_run(data@, pos0, prev0, hist0, out0, channels, t);
                    assert(emit_run_capped(prev, channels, run - k, pixels@, t) == pixels@);
                    assert(run as int == (data@[pos0] & 0x3F) + 1);
                    assert(decode_ops(data@, pos0, prev0, hist0, out0, channels, t) == decode_ops(
                        data@,
                        pos as int,
                        prev,
                        hist@,
                        pixels@,
                        channels,
                        t,
                    ));
                }
                continue;
            } else {
                proof {
                    lemma_ops_invalid(data@, pos0, prev0, hist0, out0, channels, t);
                }
                return Err(QoiError::InvalidOpcode);
            }
            proof {
                assert(decode_ops(data@, pos as int, prev, hist@, pixels@, channels, t)
                    == decode_ops(data@, pos0, prev0, hist0, out0, channels, t));
            }
        }

        proof {
            lemma_ops_done(data@, pos as int, prev, hist@, pixels@, channels, t);
        }
        if data.len() - pos < 8 {
            return Err(QoiError::UnexpectedEof);
        }
        if !(data[pos] == 0 && data[pos + 1] == 0 && data[pos + 2] == 0 && data[pos + 3] == 0
            && data[pos + 4] == 0 && data[pos + 5] == 0 && data[pos + 6] == 0 && data[pos + 7]
            == 1) {
            return Err(QoiError::InvalidEndMarker);
        }

        Ok(
            QoiImage {
                width,
                height,
                channels: if channels == 3 {
                    Channels::Rgb
                } else {
                    Channels::Rgba
                },
                colorspace: if colorspace == 0 {
                    Colorspace::Srgb
                } else {
                    Colorspace::Linear
                },
                pixels,
            },
        )
    }

    /// The number of bytes the output buffer stores per pixel.
    pub fn bytes_per_pixel(&self) -> (n: u32)
        ensures
            n == channel_count(self.channels),
    {
        match self.channels {
            Channels::Rgb => 3,
            Channels::Rgba => 4,
        }
    }

    /// The number of bytes per image row: width times bytes per pixel, with
    /// no padding between rows.
    pub fn pitch(&self) -> (n: u32)
        requires
            self.width * channel_count(self.channels) <= u32::MAX,
        ensures
            n == self.width * channel_count(self.channels),
    {
        self.width * self.bytes_per_pixel()
    }
}

} // verus!

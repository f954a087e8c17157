//! The mathematical model of the decoder: what each opcode reconstructs, how
//! the previous-pixel register and the history cache evolve, and what the
//! whole decode of a byte stream returns.  The executable decoder is proved
//! to return exactly what [`spec_decode`] says.

use vstd::prelude::*;
use vstd::wrapping::u8_specs;

use crate::types::{hash_of, Channels, Colorspace, Pixel, QoiError};

verus! {

/// A 32-bit big-endian integer read from four bytes.
pub open spec fn be_u32(b0: u8, b1: u8, b2: u8, b3: u8) -> u32 {
    (b0 * 0x100_0000 + b1 * 0x1_0000 + b2 * 0x100 + b3) as u32
}

/// The channel bytes one pixel contributes to the output buffer: r, g, b,
/// and the alpha byte only when the image stores four channels.
pub open spec fn emit(p: Pixel, channels: u8) -> Seq<u8> {
    if channels == 4 {
        seq![p.0, p.1, p.2, p.3]
    } else {
        seq![p.0, p.1, p.2]
    }
}

/// `n` copies of one pixel's channel bytes, in output order.
pub open spec fn emit_repeat(p: Pixel, channels: u8, n: int) -> Seq<u8>
    decreases n,
{
    if n <= 0 {
        Seq::empty()
    } else {
        emit_repeat(p, channels, n - 1) + emit(p, channels)
    }
}

/// What a RUN opcode appends: one copy of the register pixel's channel
/// bytes per remaining run count, stopping as soon as the output reaches
/// the target length, so a run near the end of the image never writes past
/// `width * height * channels` bytes.
pub open spec fn emit_run_capped(
    p: Pixel,
    channels: u8,
    run: int,
    out: Seq<u8>,
    target: int,
) -> Seq<u8>
    decreases run,
{
    if run <= 0 || out.len() >= target {
        out
    } else {
        emit_run_capped(p, channels, run - 1, out + emit(p, channels), target)
    }
}

/// The pixel a DIFF opcode reconstructs: each of r, g, b moves by the 2-bit
/// field embedded in the opcode minus the bias 2, with 8-bit wraparound;
/// alpha is carried over.
pub open spec fn diff_pixel(prev: Pixel, op: u8) -> Pixel {
    let dr = (op >> 4) & 3;
    let dg = (op >> 2) & 3;
    let db = op & 3;
    Pixel(
        u8_specs::wrapping_sub(u8_specs::wrapping_add(prev.0, dr), 2),
        u8_specs::wrapping_sub(u8_specs::wrapping_add(prev.1, dg), 2),
        u8_specs::wrapping_sub(u8_specs::wrapping_add(prev.2, db), 2),
        prev.3,
    )
}

/// The pixel a LUMA opcode reconstructs: the green delta is the opcode's low
/// six bits minus the bias 32; the red and blue deltas are the payload
/// byte's nibbles minus the bias 8, each relative to the green delta.  All
/// arithmetic wraps at 8 bits; alpha is carried over.
pub open spec fn luma_pixel(prev: Pixel, op: u8, payload: u8) -> Pixel {
    let dg = u8_specs::wrapping_sub(op & 0x3F, 32);
    let dr = u8_specs::wrapping_sub(u8_specs::wrapping_add(payload >> 4, dg), 8);
    let db = u8_specs::wrapping_sub(u8_specs::wrapping_add(payload & 0xF, dg), 8);
    Pixel(
        u8_specs::wrapping_add(prev.0, dr),
        u8_specs::wrapping_add(prev.1, dg),
        u8_specs::wrapping_add(prev.2, db),
        prev.3,
    )
}

/// The pixel register before the first opcode.
pub open spec fn initial_pixel() -> Pixel {
    Pixel(0, 0, 0, 255)
}

/// The history cache before the first opcode: 64 cleared slots, except that
/// the initial pixel is already written to its own hash slot.
pub open spec fn initial_history() -> Seq<Pixel> {
    Seq::new(64, |i: int| Pixel(0, 0, 0, 0)).update(hash_of(initial_pixel()), initial_pixel())
}

/// One run of the opcode interpreter from position `pos` with register
/// `prev`, history `hist` and output so far `out`, until the output holds at
/// least `target` bytes.  Returns the final output and the position just
/// after the last opcode consumed, or the error that aborted the decode.
///
/// Opcode bytes are classified in priority order: the two exact forms RGB
/// (`0xFE`) and RGBA (`0xFF`) first, then by the top two bits: INDEX (`00`),
/// DIFF (`01`), LUMA (`10`), RUN (`11`).  Every branch but RUN writes the new
/// pixel to the register and to its history slot; RUN repeats the register
/// pixel without touching either, and stops early if the output reaches
/// the target mid-run.
#[verifier::opaque]
pub open spec fn decode_ops(
    data: Seq<u8>,
    pos: int,
    prev: Pixel,
    hist: Seq<Pixel>,
    out: Seq<u8>,
    channels: u8,
    target: int,
) -> Result<(Seq<u8>, int), QoiError>
    decreases data.len() - pos,
{
    if out.len() >= target {
        Ok((out, pos))
    } else if pos >= data.len() {
        Err(QoiError::UnexpectedEof)
    } else {
        let op = data[pos];
        if op == 0xFE {
            if data.len() - pos < 4 {
                Err(QoiError::UnexpectedEof)
            } else {
                let p = Pixel(data[pos + 1], data[pos + 2], data[pos + 3], prev.3);
                decode_ops(
                    data,
                    pos + 4,
                    p,
                    hist.update(hash_of(p), p),
                    out + emit(p, channels),
                    channels,
                    target,
                )
            }
        } else if op == 0xFF {
            if data.len() - pos < 5 {
                Err(QoiError::UnexpectedEof)
            } else {
                let p = Pixel(data[pos + 1], data[pos + 2], data[pos + 3], data[pos + 4]);
                decode_ops(
                    data,
                    pos + 5,
                    p,
                    hist.update(hash_of(p), p),
                    out + emit(p, channels),
                    channels,
                    target,
                )
            }
        } else if op & 0xC0 == 0x00 {
            let p = hist[(op & 0x3F) as int];
            decode_ops(
                data,
                pos + 1,
                p,
                hist.update(hash_of(p), p),
                out + emit(p, channels),
                channels,
                target,
            )
        } else if op & 0xC0 == 0x40 {
            let p = diff_pixel(prev, op);
            decode_ops(
                data,
                pos + 1,
                p,
                hist.update(hash_of(p), p),
                out + emit(p, channels),
                channels,
                target,
            )
        } else if op & 0xC0 == 0x80 {
            if data.len() - pos < 2 {
                Err(QoiError::UnexpectedEof)
            } else {
                let p = luma_pixel(prev, op, data[pos + 1]);
                decode_ops(
                    data,
                    pos + 2,
                    p,
                    hist.update(hash_of(p), p),
                    out + emit(p, channels),
                    channels,
                    target,
                )
            }
        } else if op & 0xC0 == 0xC0 {
            let run = (op & 0x3F) + 1;
            decode_ops(
                data,
                pos + 1,
                prev,
                hist,
                emit_run_capped(prev, channels, run as int, out, target),
                channels,
                target,
            )
        } else {
            Err(QoiError::InvalidOpcode)
        }
    }
}

/// The interpreter state after the common post-processing step: the new
/// pixel `p` becomes the register, is written to its history slot, and its
/// channel bytes are appended to the output.  Every opcode but RUN ends in
/// this step.
pub open spec fn step_to(
    data: Seq<u8>,
    pos: int,
    p: Pixel,
    hist: Seq<Pixel>,
    out: Seq<u8>,
    channels: u8,
    target: int,
) -> Result<(Seq<u8>, int), QoiError> {
    decode_ops(data, pos, p, hist.update(hash_of(p), p), out + emit(p, channels), channels, target)
}

/// With the output complete, the interpreter stops where it stands.
pub proof fn lemma_ops_done(
    data: Seq<u8>,
    pos: int,
    prev: Pixel,
    hist: Seq<Pixel>,
    out: Seq<u8>,
    channels: u8,
    target: int,
)
    requires
        out.len() >= target,
    ensures
        decode_ops(data, pos, prev, hist, out, channels, target) == Ok::<(Seq<u8>, int), QoiError>(
            (out, pos),
        ),
{
    reveal_with_fuel(decode_ops, 1);
}

/// With output still owed and no byte left to read, the decode aborts.
pub proof fn lemma_ops_eof(
    data: Seq<u8>,
    pos: int,
    prev: Pixel,
    hist: Seq<Pixel>,
    out: Seq<u8>,
    channels: u8,
    target: int,
)
    requires
        out.len() < target,
        pos >= data.len(),
    ensures
        decode_ops(data, pos, prev, hist, out, channels, target) == Err::<
            (Seq<u8>, int),
            QoiError,
        >(QoiError::UnexpectedEof),
{
    reveal_with_fuel(decode_ops, 1);
}

/// An RGB opcode whose three payload bytes are cut short aborts the decode.
pub proof fn lemma_ops_eof_rgb(
    data: Seq<u8>,
    pos: int,
    prev: Pixel,
    hist: Seq<Pixel>,
    out: Seq<u8>,
    channels: u8,
    target: int,
)
    requires
        out.len() < target,
        0 <= pos < data.len(),
        data[pos] == 0xFE,
        data.len() - pos < 4,
    ensures
        decode_ops(data, pos, prev, hist, out, channels, target) == Err::<
            (Seq<u8>, int),
            QoiError,
        >(QoiError::UnexpectedEof),
{
    reveal_with_fuel(decode_ops, 1);
}

/// An RGB opcode reconstructs its payload bytes over the carried alpha.
pub proof fn lemma_step_rgb(
    data: Seq<u8>,
    pos: int,
    prev: Pixel,
    hist: Seq<Pixel>,
    out: Seq<u8>,
    channels: u8,
    target: int,
)
    requires
        out.len() < target,
        0 <= pos < data.len(),
        data[pos] == 0xFE,
        data.len() - pos >= 4,
    ensures
        decode_ops(data, pos, prev, hist, out, channels, target) == step_to(
            data,
            pos + 4,
            Pixel(data[pos + 1], data[pos + 2], data[pos + 3], prev.3),
            hist,
            out,
            channels,
            target,
        ),
{
    reveal_with_fuel(decode_ops, 1);
}

/// An RGBA opcode whose four payload bytes are cut short aborts the decode.
pub proof fn lemma_ops_eof_rgba(
    data: Seq<u8>,
    pos: int,
    prev: Pixel,
    hist: Seq<Pixel>,
    out: Seq<u8>,
    channels: u8,
    target: int,
)
    requires
        out.len() < target,
        0 <= pos < data.len(),
        data[pos] == 0xFF,
        data.len() - pos < 5,
    ensures
        decode_ops(data, pos, prev, hist, out, channels, target) == Err::<
            (Seq<u8>, int),
            QoiError,
        >(QoiError::UnexpectedEof),
{
    reveal_with_fuel(decode_ops, 1);
}

/// An RGBA opcode reconstructs all four channels from its payload.
pub proof fn lemma_step_rgba(
    data: Seq<u8>,
    pos: int,
    prev: Pixel,
    hist: Seq<Pixel>,
    out: Seq<u8>,
    channels: u8,
    target: int,
)
    requires
        out.len() < target,
        0 <= pos < data.len(),
        data[pos] == 0xFF,
        data.len() - pos >= 5,
    ensures
        decode_ops(data, pos, prev, hist, out, channels, target) == step_to(
            data,
            pos + 5,
            Pixel(data[pos + 1], data[pos + 2], data[pos + 3], data[pos + 4]),
            hist,
            out,
            channels,
            target,
        ),
{
    reveal_with_fuel(decode_ops, 1);
}

/// An INDEX opcode replays the history slot its low six bits name.
pub proof fn lemma_step_index(
    data: Seq<u8>,
    pos: int,
    prev: Pixel,
    hist: Seq<Pixel>,
    out: Seq<u8>,
    channels: u8,
    target: int,
)
    requires
        out.len() < target,
        0 <= pos < data.len(),
        data[pos] != 0xFE,
        data[pos] != 0xFF,
        data[pos] & 0xC0 == 0x00,
    ensures
        decode_ops(data, pos, prev, hist, out, channels, target) == step_to(
            data,
            pos + 1,
            hist[(data[pos] & 0x3F) as int],
            hist,
            out,
            channels,
            target,
        ),
{
    reveal_with_fuel(decode_ops, 1);
}

/// A DIFF opcode moves each of r, g, b by its embedded 2-bit delta.
pub proof fn lemma_step_diff(
    data: Seq<u8>,
    pos: int,
    prev: Pixel,
    hist: Seq<Pixel>,
    out: Seq<u8>,
    channels: u8,
    target: int,
)
    requires
        out.len() < target,
        0 <= pos < data.len(),
        data[pos] != 0xFE,
        data[pos] != 0xFF,
        data[pos] & 0xC0 != 0x00,
        data[pos] & 0xC0 == 0x40,
    ensures
        decode_ops(data, pos, prev, hist, out, channels, target) == step_to(
            data,
            pos + 1,
            diff_pixel(prev, data[pos]),
            hist,
            out,
            channels,
            target,
        ),
{
    reveal_with_fuel(decode_ops, 1);
}

/// A LUMA opcode cut short before its payload byte aborts the decode.
pub proof fn lemma_ops_eof_luma(
    data: Seq<u8>,
    pos: int,
    prev: Pixel,
    hist: Seq<Pixel>,
    out: Seq<u8>,
    channels: u8,
    target: int,
)
    requires
        out.len() < target,
        0 <= pos < data.len(),
        data[pos] != 0xFE,
        data[pos] != 0xFF,
        data[pos] & 0xC0 != 0x00,
        data[pos] & 0xC0 != 0x40,
        data[pos] & 0xC0 == 0x80,
        data.len() - pos < 2,
    ensures
        decode_ops(data, pos, prev, hist, out, channels, target) == Err::<
            (Seq<u8>, int),
            QoiError,
        >(QoiError::UnexpectedEof),
{
    reveal_with_fuel(decode_ops, 1);
}

/// A LUMA opcode applies its green delta and the payload byte's nibbles.
pub proof fn lemma_step_luma(
    data: Seq<u8>,
    pos: int,
    prev: Pixel,
    hist: Seq<Pixel>,
    out: Seq<u8>,
    channels: u8,
    target: int,
)
    requires
        out.len() < target,
        0 <= pos < data.len(),
        data[pos] != 0xFE,
        data[pos] != 0xFF,
        data[pos] & 0xC0 != 0x00,
        data[pos] & 0xC0 != 0x40,
        data[pos] & 0xC0 == 0x80,
        data.len() - pos >= 2,
    ensures
        decode_ops(data, pos, prev, hist, out, channels, target) == step_to(
            data,
            pos + 2,
            luma_pixel(prev, data[pos], data[pos + 1]),
            hist,
            out,
            channels,
            target,
        ),
{
    reveal_with_fuel(decode_ops, 1);
}

/// A RUN opcode emits copies of the register pixel, one per run count,
/// capped at the target length, and leaves both the register and the
/// history untouched.
pub proof fn lemma_step_run(
    data: Seq<u8>,
    pos: int,
    prev: Pixel,
    hist: Seq<Pixel>,
    out: Seq<u8>,
    channels: u8,
    target: int,
)
    requires
        out.len() < target,
        0 <= pos < data.len(),
        data[pos] != 0xFE,
        data[pos] != 0xFF,
        data[pos] & 0xC0 != 0x00,
        data[pos] & 0xC0 != 0x40,
        data[pos] & 0xC0 != 0x80,
        data[pos] & 0xC0 == 0xC0,
    ensures
        decode_ops(data, pos, prev, hist, out, channels, target) == decode_ops(
            data,
            pos + 1,
            prev,
            hist,
            emit_run_capped(prev, channels, (data[pos] & 0x3F) + 1, out, target),
            channels,
            target,
        ),
{
    reveal_with_fuel(decode_ops, 1);
}

/// An opcode byte outside every bit pattern aborts the decode.  The four
/// patterns of the top two bits partition all byte values, so no byte
/// reaches this case; the branch is defensive.
pub proof fn lemma_ops_invalid(
    data: Seq<u8>,
    pos: int,
    prev: Pixel,
    hist: Seq<Pixel>,
    out: Seq<u8>,
    channels: u8,
    target: int,
)
    requires
        out.len() < target,
        0 <= pos < data.len(),
        data[pos] != 0xFE,
        data[pos] != 0xFF,
        data[pos] & 0xC0 != 0x00,
        data[pos] & 0xC0 != 0x40,
        data[pos] & 0xC0 != 0x80,
        data[pos] & 0xC0 != 0xC0,
    ensures
        decode_ops(data, pos, prev, hist, out, channels, target) == Err::<
            (Seq<u8>, int),
            QoiError,
        >(QoiError::InvalidOpcode),
{
    reveal_with_fuel(decode_ops, 1);
}

/// The decoded image as a mathematical value: the geometry and tags from the
/// header, and the sequence of output channel bytes.
pub struct SpecImage {
    pub width: u32,
    pub height: u32,
    pub channels: Channels,
    pub colorspace: Colorspace,
    pub pixels: Seq<u8>,
}

/// Whether the eight bytes of `data` starting at `pos` are the fixed end
/// marker `00 00 00 00 00 00 00 01`.
pub open spec fn end_marker_at(data: Seq<u8>, pos: int) -> bool {
    data[pos] == 0 && data[pos + 1] == 0 && data[pos + 2] == 0 && data[pos + 3] == 0
        && data[pos + 4] == 0 && data[pos + 5] == 0 && data[pos + 6] == 0 && data[pos + 7] == 1
}

/// What decoding a whole byte stream returns: the header is read and
/// validated (magic `"qoif"`, big-endian width and height, channel count 3
/// or 4, colorspace tag 0 or 1), the opcodes reconstruct
/// `width * height * channels` output bytes, and the stream must then offer
/// the eight-byte end marker.  Each clause that fails yields its own error;
/// a stream that ends too early yields `UnexpectedEof`.
pub open spec fn spec_decode(data: Seq<u8>) -> Result<SpecImage, QoiError> {
    if data.len() < 4 {
        Err(QoiError::UnexpectedEof)
    } else if !(data[0] == 0x71 && data[1] == 0x6F && data[2] == 0x69 && data[3] == 0x66) {
        Err(QoiError::InvalidMagic)
    } else if data.len() < 14 {
        Err(QoiError::UnexpectedEof)
    } else {
        let width = be_u32(data[4], data[5], data[6], data[7]);
        let height = be_u32(data[8], data[9], data[10], data[11]);
        let channels = data[12];
        let colorspace = data[13];
        if channels != 3 && channels != 4 {
            Err(QoiError::InvalidChannelCount)
        } else if colorspace != 0 && colorspace != 1 {
            Err(QoiError::InvalidColorspace)
        } else {
            let target = width * height * channels;
            match decode_ops(
                data,
                14,
                initial_pixel(),
                initial_history(),
                Seq::empty(),
                channels,
                target,
            ) {
                Err(e) => Err(e),
                Ok((out, pos)) => {
                    if data.len() - pos < 8 {
                        Err(QoiError::UnexpectedEof)
                    } else if !end_marker_at(data, pos) {
                        Err(QoiError::InvalidEndMarker)
                    } else {
                        Ok(
                            SpecImage {
                                width,
                                height,
                                channels: if channels == 3 {
                                    Channels::Rgb
                                } else {
                                    Channels::Rgba
                                },
                                colorspace: if colorspace == 0 {
                                    Colorspace::Srgb
                                } else {
                                    Colorspace::Linear
                                },
                                pixels: out,
                            },
                        )
                    }
                },
            }
        }
    }
}

} // verus!

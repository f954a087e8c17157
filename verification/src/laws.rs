//! The decoder's stated laws, proved against the model: the size and shape
//! of the output buffer, the behaviour of the history cache, and the
//! round-trip properties of the two delta opcodes.

use vstd::prelude::*;
use vstd::wrapping::u8_specs;

use crate::decode::channel_count;
use crate::model::{
    be_u32, decode_ops, diff_pixel, emit, emit_repeat, emit_run_capped, initial_history, initial_pixel,
    lemma_ops_done, lemma_ops_eof, lemma_ops_eof_luma, lemma_ops_eof_rgb, lemma_ops_eof_rgba,
    lemma_ops_invalid, lemma_step_diff, lemma_step_index, lemma_step_luma, lemma_step_rgb,
    lemma_step_rgba, lemma_step_run, luma_pixel, spec_decode,
};
use crate::types::{hash_of, Pixel};

verus! {

/// A repeated emission holds `n` pixels' worth of bytes.
pub proof fn lemma_emit_repeat_len(p: Pixel, channels: u8, n: int)
    requires
        n >= 0,
    ensures
        emit_repeat(p, channels, n).len() == n * emit(p, channels).len(),
    decreases n,
{
    if n > 0 {
        lemma_emit_repeat_len(p, channels, n - 1);
        let len = emit(p, channels).len() as int;
        assert((n - 1) * len + len == n * len) by (nonlinear_arith);
    }
}

/// Each of the `n` pixel-sized slices of a repeated emission is exactly the
/// emitted pixel's channel bytes.
pub proof fn lemma_emit_repeat_copies(p: Pixel, channels: u8, n: int, j: int)
    requires
        channels == 3 || channels == 4,
        0 <= j < n,
    ensures
        ({
            let len = emit(p, channels).len() as int;
            emit_repeat(p, channels, n).subrange(j * len, (j + 1) * len) == emit(p, channels)
        }),
    decreases n,
{
    let len = emit(p, channels).len() as int;
    lemma_emit_repeat_len(p, channels, n - 1);
    lemma_emit_repeat_len(p, channels, n);
    if j == n - 1 {
        assert(emit_repeat(p, channels, n).subrange(j * len, (j + 1) * len) =~= emit(
            p,
            channels,
        ));
    } else {
        lemma_emit_repeat_copies(p, channels, n - 1, j);
        assert(0 <= j * len && (j + 1) * len <= (n - 1) * len) by (nonlinear_arith)
            requires
                0 <= j,
                j + 1 <= n - 1,
                len >= 0,
        ;
        assert(emit_repeat(p, channels, n) == emit_repeat(p, channels, n - 1) + emit(p, channels));
        assert(emit_repeat(p, channels, n - 1).len() == (n - 1) * len);
        assert((j + 1) * len == j * len + len) by (nonlinear_arith);
        assert forall|i: int| 0 <= i < len implies #[trigger] emit_repeat(p, channels, n)[j * len
            + i] == emit_repeat(p, channels, n - 1)[j * len + i] by {
            assert(0 <= j * len + i);
            assert(j * len + i < (n - 1) * len);
            assert((emit_repeat(p, channels, n - 1) + emit(p, channels))[j * len + i]
                == emit_repeat(p, channels, n - 1)[j * len + i]);
        }
        assert(emit_repeat(p, channels, n).subrange(j * len, (j + 1) * len) =~= emit_repeat(
            p,
            channels,
            n - 1,
        ).subrange(j * len, (j + 1) * len));
    }
}

/// A repeated emission can also be unfolded from the front: the first copy
/// followed by the remaining `n - 1`.
pub proof fn lemma_emit_repeat_unfold_front(p: Pixel, channels: u8, n: int)
    requires
        n >= 1,
    ensures
        emit_repeat(p, channels, n) == emit(p, channels) + emit_repeat(p, channels, n - 1),
    decreases n,
{
    if n == 1 {
        assert(emit_repeat(p, channels, 1) =~= emit(p, channels) + emit_repeat(p, channels, 0));
    } else {
        lemma_emit_repeat_unfold_front(p, channels, n - 1);
        assert((emit(p, channels) + emit_repeat(p, channels, n - 2)) + emit(p, channels) =~= emit(
            p,
            channels,
        ) + (emit_repeat(p, channels, n - 2) + emit(p, channels)));
    }
}

/// Two multiples of `cc` that differ, differ by at least `cc`.
proof fn lemma_multiple_gap(a: int, b: int, cc: int)
    requires
        cc > 0,
        a % cc == 0,
        b % cc == 0,
        a < b,
    ensures
        b - a >= cc,
{
    vstd::arithmetic::div_mod::lemma_fundamental_div_mod(a, cc);
    vstd::arithmetic::div_mod::lemma_fundamental_div_mod(b, cc);
    assert(b - a >= cc) by (nonlinear_arith)
        requires
            a == cc * (a / cc),
            b == cc * (b / cc),
            a < b,
            cc > 0,
    ;
}

/// A capped run emission keeps the output a whole number of pixels and
/// never writes past the target.
pub proof fn lemma_emit_run_capped_len(p: Pixel, channels: u8, run: int, out: Seq<u8>, target: int)
    requires
        channels == 3 || channels == 4,
        (out.len() as int) % (channels as int) == 0,
        target % (channels as int) == 0,
        out.len() <= target,
    ensures
        ({
            let r = emit_run_capped(p, channels, run, out, target);
            (r.len() as int) % (channels as int) == 0 && out.len() <= r.len() <= target
        }),
    decreases run,
{
    let cc = channels as int;
    if run <= 0 || out.len() >= target {
    } else {
        lemma_multiple_gap(out.len() as int, target, cc);
        vstd::arithmetic::div_mod::lemma_mod_multiples_vanish(1, out.len() as int, cc);
        lemma_emit_run_capped_len(p, channels, run - 1, out + emit(p, channels), target);
    }
}

/// A run whose copies all fit before the target is not capped at all: it
/// appends its full repeated emission.
pub proof fn lemma_emit_run_capped_full(
    p: Pixel,
    channels: u8,
    run: int,
    out: Seq<u8>,
    target: int,
)
    requires
        run >= 0,
        out.len() + run * emit(p, channels).len() <= target,
    ensures
        emit_run_capped(p, channels, run, out, target) == out + emit_repeat(p, channels, run),
    decreases run,
{
    let len = emit(p, channels).len() as int;
    if run <= 0 {
        assert(out + emit_repeat(p, channels, 0) =~= out);
    } else {
        assert(run * len >= len) by (nonlinear_arith)
            requires
                run >= 1,
                len >= 0,
        ;
        assert((run - 1) * len == run * len - len) by (nonlinear_arith);
        lemma_emit_run_capped_full(p, channels, run - 1, out + emit(p, channels), target);
        lemma_emit_repeat_unfold_front(p, channels, run);
        assert((out + emit(p, channels)) + emit_repeat(p, channels, run - 1) =~= out + (emit(
            p,
            channels,
        ) + emit_repeat(p, channels, run - 1)));
    }
}

/// A history write touches exactly one slot: writing a pixel leaves every
/// slot other than the pixel's own hash slot as it was.  Together with the
/// INDEX step law this says an INDEX opcode reproduces the pixel most
/// recently written to its slot, however many opcodes earlier that was, as
/// long as no later pixel hashed to the same slot.
pub proof fn lemma_history_slot_persists(hist: Seq<Pixel>, p: Pixel, i: int)
    requires
        hist.len() == 64,
        0 <= i < hist.len(),
        i != hash_of(p),
    ensures
        hist.update(hash_of(p), p)[i] == hist[i],
{
    assert(0 <= hash_of(p) < 64);
}

/// The output of a successful opcode run lands on the target exactly:
/// single-pixel opcodes each add one pixel's bytes, and a run stops at the
/// target, so an output that starts at or below the target (as a whole
/// number of pixels) finishes with exactly `target` bytes.
#[verifier::rlimit(100)]
#[verifier::spinoff_prover]
pub proof fn lemma_ops_output_len(
    data: Seq<u8>,
    pos: int,
    prev: Pixel,
    hist: Seq<Pixel>,
    out: Seq<u8>,
    channels: u8,
    target: int,
)
    requires
        0 <= pos,
        channels == 3 || channels == 4,
        (out.len() as int) % (channels as int) == 0,
        target % (channels as int) == 0,
        out.len() <= target,
        decode_ops(data, pos, prev, hist, out, channels, target) is Ok,
    ensures
        decode_ops(data, pos, prev, hist, out, channels, target)->Ok_0.0.len() == target,
    decreases data.len() - pos,
{
    let cc = channels as int;
    if out.len() >= target {
        lemma_ops_done(data, pos, prev, hist, out, channels, target);
    } else if pos >= data.len() {
        lemma_ops_eof(data, pos, prev, hist, out, channels, target);
    } else {
        lemma_multiple_gap(out.len() as int, target, cc);
        let op = data[pos];
        if op == 0xFE {
            if data.len() - pos < 4 {
                lemma_ops_eof_rgb(data, pos, prev, hist, out, channels, target);
            } else {
                lemma_step_rgb(data, pos, prev, hist, out, channels, target);
                let p = Pixel(data[pos + 1], data[pos + 2], data[pos + 3], prev.3);
                let out2 = out + emit(p, channels);
                vstd::arithmetic::div_mod::lemma_mod_multiples_vanish(1, out.len() as int, cc);
                lemma_ops_output_len(
                    data,
                    pos + 4,
                    p,
                    hist.update(hash_of(p), p),
                    out2,
                    channels,
                    target,
                );
            }
        } else if op == 0xFF {
            if data.len() - pos < 5 {
                lemma_ops_eof_rgba(data, pos, prev, hist, out, channels, target);
            } else {
                lemma_step_rgba(data, pos, prev, hist, out, channels, target);
                let p = Pixel(data[pos + 1], data[pos + 2], data[pos + 3], data[pos + 4]);
                let out2 = out + emit(p, channels);
                vstd::arithmetic::div_mod::lemma_mod_multiples_vanish(1, out.len() as int, cc);
                lemma_ops_output_len(
                    data,
                    pos + 5,
                    p,
                    hist.update(hash_of(p), p),
                    out2,
                    channels,
                    target,
                );
            }
        } else if op & 0xC0 == 0x00 {
            lemma_step_index(data, pos, prev, hist, out, channels, target);
            let p = hist[(op & 0x3F) as int];
            let out2 = out + emit(p, channels);
            vstd::arithmetic::div_mod::lemma_mod_multiples_vanish(1, out.len() as int, cc);
            lemma_ops_output_len(
                data,
                pos + 1,
                p,
                hist.update(hash_of(p), p),
                out2,
                channels,
                target,
            );
        } else if op & 0xC0 == 0x40 {
            lemma_step_diff(data, pos, prev, hist, out, channels, target);
            let p = diff_pixel(prev, op);
            let out2 = out + emit(p, channels);
            vstd::arithmetic::div_mod::lemma_mod_multiples_vanish(1, out.len() as int, cc);
            lemma_ops_output_len(
                data,
                pos + 1,
                p,
                hist.update(hash_of(p), p),
                out2,
                channels,
                target,
            );
        } else if op & 0xC0 == 0x80 {
            if data.len() - pos < 2 {
                lemma_ops_eof_luma(data, pos, prev, hist, out, channels, target);
            } else {
                lemma_step_luma(data, pos, prev, hist, out, channels, target);
                let p = luma_pixel(prev, op, data[pos + 1]);
                let out2 = out + emit(p, channels);
                vstd::arithmetic::div_mod::lemma_mod_multiples_vanish(1, out.len() as int, cc);
                lemma_ops_output_len(
                    data,
                    pos + 2,
                    p,
                    hist.update(hash_of(p), p),
                    out2,
                    channels,
                    target,
                );
            }
        } else if op & 0xC0 == 0xC0 {
            lemma_step_run(data, pos, prev, hist, out, channels, target);
            let runlen = ((op & 0x3F) + 1) as int;
            lemma_emit_run_capped_len(prev, channels, runlen, out, target);
            let out2 = emit_run_capped(prev, channels, runlen, out, target);
            lemma_ops_output_len(data, pos + 1, prev, hist, out2, channels, target);
        } else {
            lemma_ops_invalid(data, pos, prev, hist, out, channels, target);
        }
    }
}

/// The size of a decoded image's pixel buffer: exactly
/// `width * height * channel_count` bytes, whatever opcodes the stream
/// used to reach it.
pub proof fn lemma_output_length(data: Seq<u8>)
    requires
        spec_decode(data) is Ok,
    ensures
        ({
            let img = spec_decode(data)->Ok_0;
            img.pixels.len() == img.width * img.height * (channel_count(img.channels) as int)
        }),
{
    let channels = data[12];
    let width = be_u32(data[4], data[5], data[6], data[7]);
    let height = be_u32(data[8], data[9], data[10], data[11]);
    let target = width * height * channels;
    vstd::arithmetic::mul::lemma_mul_nonnegative(width as int, height as int);
    vstd::arithmetic::mul::lemma_mul_nonnegative(width as int * height as int, channels as int);
    vstd::arithmetic::div_mod::lemma_mod_multiples_vanish(
        width as int * height as int,
        0,
        channels as int,
    );
    lemma_ops_output_len(
        data,
        14,
        initial_pixel(),
        initial_history(),
        Seq::empty(),
        channels,
        target,
    );
}

/// The DIFF encoding of the move from `prev` to `q`: top bits 01, then the
/// three channel deltas, each biased by 2, in 2-bit fields.
pub open spec fn encode_diff(prev: Pixel, q: Pixel) -> u8 {
    (0x40 + u8_specs::wrapping_add(u8_specs::wrapping_sub(q.0, prev.0), 2) * 16
        + u8_specs::wrapping_add(u8_specs::wrapping_sub(q.1, prev.1), 2) * 4
        + u8_specs::wrapping_add(u8_specs::wrapping_sub(q.2, prev.2), 2)) as u8
}

/// Whether a channel moved by a delta a DIFF opcode can carry: within
/// [-2, 1] of the previous value, modulo 256.
pub open spec fn diff_delta_ok(d: u8) -> bool {
    d <= 1 || d >= 254
}

/// DIFF round-trip: a pixel whose r, g and b each sit within [-2, 1] of
/// the previous pixel (modulo 256) and whose alpha is unchanged is
/// reconstructed exactly by the DIFF opcode that encodes those deltas with
/// bias 2, and that opcode byte is classified as DIFF.
pub proof fn lemma_diff_round_trip(prev: Pixel, q: Pixel)
    requires
        q.3 == prev.3,
        diff_delta_ok(u8_specs::wrapping_sub(q.0, prev.0)),
        diff_delta_ok(u8_specs::wrapping_sub(q.1, prev.1)),
        diff_delta_ok(u8_specs::wrapping_sub(q.2, prev.2)),
    ensures
        encode_diff(prev, q) != 0xFE,
        encode_diff(prev, q) != 0xFF,
        encode_diff(prev, q) & 0xC0 != 0x00,
        encode_diff(prev, q) & 0xC0 == 0x40,
        diff_pixel(prev, encode_diff(prev, q)) == q,
{
    let a = u8_specs::wrapping_add(u8_specs::wrapping_sub(q.0, prev.0), 2);
    let b = u8_specs::wrapping_add(u8_specs::wrapping_sub(q.1, prev.1), 2);
    let c = u8_specs::wrapping_add(u8_specs::wrapping_sub(q.2, prev.2), 2);
    assert(a <= 3 && b <= 3 && c <= 3);
    let op = encode_diff(prev, q);
    assert(op == (0x40 + a * 16 + b * 4 + c) as u8);
    assert(op != 0xFE && op != 0xFF && op & 0xC0 != 0x00 && op & 0xC0 == 0x40 && (op >> 4) & 3
        == a && (op >> 2) & 3 == b && op & 3 == c) by (bit_vector)
        requires
            a <= 3,
            b <= 3,
            c <= 3,
            op == (0x40 + a * 16 + b * 4 + c) as u8,
    ;
    assert(u8_specs::wrapping_sub(u8_specs::wrapping_add(prev.0, a), 2) == q.0);
    assert(u8_specs::wrapping_sub(u8_specs::wrapping_add(prev.1, b), 2) == q.1);
    assert(u8_specs::wrapping_sub(u8_specs::wrapping_add(prev.2, c), 2) == q.2);
    assert(diff_pixel(prev, op) == q);
}

/// The green delta a LUMA opcode would carry for the move from `prev` to
/// `q`, modulo 256.
pub open spec fn luma_dg(prev: Pixel, q: Pixel) -> u8 {
    u8_specs::wrapping_sub(q.1, prev.1)
}

/// The red-minus-green delta a LUMA opcode would carry, modulo 256.
pub open spec fn luma_dr_dg(prev: Pixel, q: Pixel) -> u8 {
    u8_specs::wrapping_sub(u8_specs::wrapping_sub(q.0, prev.0), luma_dg(prev, q))
}

/// The blue-minus-green delta a LUMA opcode would carry, modulo 256.
pub open spec fn luma_db_dg(prev: Pixel, q: Pixel) -> u8 {
    u8_specs::wrapping_sub(u8_specs::wrapping_sub(q.2, prev.2), luma_dg(prev, q))
}

/// Whether the green delta fits a LUMA opcode: within [-32, 31], modulo 256.
pub open spec fn luma_dg_ok(d: u8) -> bool {
    d <= 31 || d >= 224
}

/// Whether a red or blue delta relative to the green delta fits a LUMA
/// opcode: within [-8, 7], modulo 256.
pub open spec fn luma_dx_ok(d: u8) -> bool {
    d <= 7 || d >= 248
}

/// The LUMA opcode byte for the move from `prev` to `q`: top bits 10, then
/// the green delta biased by 32 in the low six bits.
pub open spec fn encode_luma_op(prev: Pixel, q: Pixel) -> u8 {
    (0x80 + u8_specs::wrapping_add(luma_dg(prev, q), 32)) as u8
}

/// The LUMA payload byte for the move from `prev` to `q`: the red and blue
/// deltas relative to the green delta, each biased by 8, in two nibbles.
pub open spec fn encode_luma_payload(prev: Pixel, q: Pixel) -> u8 {
    (u8_specs::wrapping_add(luma_dr_dg(prev, q), 8) * 16 + u8_specs::wrapping_add(
        luma_db_dg(prev, q),
        8,
    )) as u8
}

/// LUMA round-trip: a pixel whose green delta sits within [-32, 31] of the
/// previous pixel and whose red and blue deltas sit within [-8, 7] of that
/// green delta (all modulo 256), with alpha unchanged, is reconstructed
/// exactly by the LUMA opcode and payload that encode those deltas, and
/// that opcode byte is classified as LUMA.
pub proof fn lemma_luma_round_trip(prev: Pixel, q: Pixel)
    requires
        q.3 == prev.3,
        luma_dg_ok(luma_dg(prev, q)),
        luma_dx_ok(luma_dr_dg(prev, q)),
        luma_dx_ok(luma_db_dg(prev, q)),
    ensures
        encode_luma_op(prev, q) != 0xFE,
        encode_luma_op(prev, q) != 0xFF,
        encode_luma_op(prev, q) & 0xC0 != 0x00,
        encode_luma_op(prev, q) & 0xC0 != 0x40,
        encode_luma_op(prev, q) & 0xC0 == 0x80,
        luma_pixel(prev, encode_luma_op(prev, q), encode_luma_payload(prev, q)) == q,
{
    let dg = luma_dg(prev, q);
    let drg = luma_dr_dg(prev, q);
    let dbg = luma_db_dg(prev, q);
    let u = u8_specs::wrapping_add(dg, 32);
    let r8 = u8_specs::wrapping_add(drg, 8);
    let b8 = u8_specs::wrapping_add(dbg, 8);
    assert(u <= 63 && r8 <= 15 && b8 <= 15);
    let op = encode_luma_op(prev, q);
    let pay = encode_luma_payload(prev, q);
    assert(op == (0x80 + u) as u8);
    assert(pay == (r8 * 16 + b8) as u8);
    assert(op != 0xFE && op != 0xFF && op & 0xC0 != 0x00 && op & 0xC0 != 0x40 && op & 0xC0 == 0x80
        && op & 0x3F == u) by (bit_vector)
        requires
            u <= 63,
            op == (0x80 + u) as u8,
    ;
    assert(pay >> 4 == r8 && pay & 0xF == b8) by (bit_vector)
        requires
            r8 <= 15,
            b8 <= 15,
            pay == (r8 * 16 + b8) as u8,
    ;
    assert(u8_specs::wrapping_sub(u, 32) == dg);
    assert(u8_specs::wrapping_add(prev.0, u8_specs::wrapping_sub(u8_specs::wrapping_add(r8, dg), 8))
        == q.0);
    assert(u8_specs::wrapping_add(prev.1, dg) == q.1);
    assert(u8_specs::wrapping_add(prev.2, u8_specs::wrapping_sub(u8_specs::wrapping_add(b8, dg), 8))
        == q.2);
    assert(luma_pixel(prev, op, pay) == q);
}

/// A RUN opcode with embedded value `n` whose `n + 1` copies all fit
/// before the image's end emits exactly `n + 1` copies of the register
/// pixel's channel bytes, one per pixel slot; a run that meets the target
/// mid-way stops there instead.  Together with the RUN step law, which
/// leaves the register and the history untouched, this is the whole effect
/// of a RUN opcode.
pub proof fn lemma_run_emits_copies(prev: Pixel, channels: u8, n: u8, out: Seq<u8>, target: int)
    requires
        channels == 3 || channels == 4,
        n <= 61,
        out.len() + (n + 1) * emit(prev, channels).len() <= target,
    ensures
        emit_run_capped(prev, channels, n + 1, out, target) == out + emit_repeat(
            prev,
            channels,
            n + 1,
        ),
        emit_repeat(prev, channels, n + 1).len() == (n + 1) * emit(prev, channels).len(),
        forall|j: int|
            0 <= j <= n ==> #[trigger] emit_repeat(prev, channels, n + 1).subrange(
                j * emit(prev, channels).len(),
                (j + 1) * emit(prev, channels).len(),
            ) == emit(prev, channels),
{
    lemma_emit_run_capped_full(prev, channels, n + 1, out, target);
    lemma_emit_repeat_len(prev, channels, n + 1);
    assert forall|j: int| 0 <= j <= n implies #[trigger] emit_repeat(prev, channels, n + 1)
        .subrange(
        j * emit(prev, channels).len(),
        (j + 1) * emit(prev, channels).len(),
    ) == emit(prev, channels) by {
        lemma_emit_repeat_copies(prev, channels, n + 1, j);
    }
}

/// A three-channel image emits exactly three bytes per pixel — r, g and b,
/// never a fourth alpha byte — while alpha is still tracked in the decoder
/// state: the RGB, DIFF, LUMA and RUN reconstruction rules all carry the
/// previous pixel's alpha forward.
pub proof fn lemma_no_alpha_byte_for_rgb(p: Pixel)
    ensures
        emit(p, 3).len() == 3,
        emit(p, 3) == seq![p.0, p.1, p.2],
        emit(p, 4) == seq![p.0, p.1, p.2, p.3],
{
}

} // verus!


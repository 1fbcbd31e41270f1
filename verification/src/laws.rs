//! Properties of the codec, proved once and for all: a hidden frame is read
//! back intact by extraction along the same index sequence; clearing zeroes
//! every visited window, so a later extraction cannot see the header again;
//! and a capacity failure always reports more samples than the buffer holds.

use crate::bits::{
    bits_to_bytes, bits_val, bytes_to_bits, frame_bit, lemma_bits_to_bytes_prefix,
    lemma_bits_val_bound, lemma_bits_val_index, lemma_bits_val_zero, lemma_nth_bit_low, nth_bit,
};
use crate::formats::wav::{
    chunk_bits, chunk_val, clear_spec, clear_upto, embed_one, embed_spec, embed_upto,
    first_zero_at, frame_bytes, header_ok, lemma_embed_one_fits, required_samples, stream_of,
    stream_ready, written_count, zero_low,
};
use crate::object::spec_max_count;
use crate::object::{extracted_bits, sample_bit};
use crate::usable_bits;
use vstd::arithmetic::div_mod::{
    lemma_div_is_ordered, lemma_div_multiples_vanish, lemma_fundamental_div_mod,
    lemma_fundamental_div_mod_converse_mod, lemma_multiply_divide_lt,
};
use vstd::arithmetic::power2::{lemma2_to64, lemma_pow2_pos, pow2};
use vstd::prelude::*;
use vstd::utf8::{
    decode_utf8, encode_scalar, encode_utf8, encode_utf8_decode_utf8, encode_utf8_valid_utf8,
    valid_utf8,
};

verus! {

/// Embedding never changes the number of samples.
proof fn lemma_embed_upto_len(samples: Seq<i16>, bits: Seq<bool>, idx: Seq<usize>, d: nat, w: int)
    requires
        forall|j: int| 0 <= j < idx.len() ==> (#[trigger] idx[j]) < samples.len(),
        w <= idx.len(),
    ensures
        embed_upto(samples, bits, idx, d, w).len() == samples.len(),
    decreases w,
{
    if w > 0 {
        lemma_embed_upto_len(samples, bits, idx, d, w - 1);
    }
}

/// A sample that none of the first `w` indices name keeps its value.
proof fn lemma_embed_upto_untouched(
    samples: Seq<i16>,
    bits: Seq<bool>,
    idx: Seq<usize>,
    d: nat,
    w: int,
    i: int,
)
    requires
        forall|j: int| 0 <= j < idx.len() ==> (#[trigger] idx[j]) < samples.len(),
        w <= idx.len(),
        0 <= i < samples.len(),
        forall|j: int| 0 <= j < w ==> (#[trigger] idx[j]) as int != i,
    ensures
        embed_upto(samples, bits, idx, d, w).len() == samples.len(),
        embed_upto(samples, bits, idx, d, w)[i] == samples[i],
    decreases w,
{
    lemma_embed_upto_len(samples, bits, idx, d, w);
    if w > 0 {
        lemma_embed_upto_untouched(samples, bits, idx, d, w - 1, i);
    }
}

/// What the sample at index number `j` holds after `w >= j + 1` chunks have
/// been written: its original value with chunk `j` in the low window.
proof fn lemma_embed_upto_at(
    samples: Seq<i16>,
    bits: Seq<bool>,
    idx: Seq<usize>,
    d: nat,
    w: int,
    j: int,
)
    requires
        idx.no_duplicates(),
        forall|k: int| 0 <= k < idx.len() ==> (#[trigger] idx[k]) < samples.len(),
        0 <= j < w <= idx.len(),
    ensures
        embed_upto(samples, bits, idx, d, w).len() == samples.len(),
        embed_upto(samples, bits, idx, d, w)[idx[j] as int] == embed_one(
            samples[idx[j] as int],
            chunk_val(bits, j, d),
            d,
        ),
    decreases w,
{
    lemma_embed_upto_len(samples, bits, idx, d, w);
    if j == w - 1 {
        lemma_embed_upto_untouched(samples, bits, idx, d, w - 1, idx[j] as int);
    } else {
        lemma_embed_upto_at(samples, bits, idx, d, w - 1, j);
    }
}

/// Reading bit `t` of the window back out of an embedded sample gives bit
/// `t` of the chunk value.
proof fn lemma_embed_one_window(s: i16, c: nat, d: nat, t: int)
    requires
        1 <= d <= 16,
        c < pow2(d),
        0 <= t < d,
    ensures
        sample_bit(embed_one(s, c, d), d, t) == nth_bit(c, (d - 1 - t) as nat),
{
    let x = (s as u16) as nat;
    let pd = pow2(d);
    assert(pow2(16) == 0x10000) by {
        lemma2_to64();
    }
    if d < 16 {
        vstd::arithmetic::power2::lemma_pow2_strictly_increases(d, 16);
    }
    lemma_pow2_pos(d);
    lemma_embed_one_fits(x, c, d);
    let y = (x / pd) * pd + c;
    assert(y < pow2(16));
    let s2 = embed_one(s, c, d);
    let yv = y as u16;
    assert(yv as nat == y);
    assert(((yv as i16) as u16) == yv) by (bit_vector);
    assert((s2 as u16) as nat == y);
    lemma_fundamental_div_mod_converse_mod(y as int, pd as int, (x / pd) as int, c as int);
    assert(y % pd == c);
    lemma_nth_bit_low(y, d, (d - 1 - t) as nat);
}

/// Bit `t` of chunk number `j`, read out of the chunk value, is bit
/// `j * d + t` of the frame.
proof fn lemma_chunk_val_bit(bits: Seq<bool>, j: int, d: nat, t: int)
    requires
        1 <= d,
        0 <= t < d,
        0 <= j,
    ensures
        chunk_val(bits, j, d) < pow2(d),
        nth_bit(chunk_val(bits, j, d), (d - 1 - t) as nat) == frame_bit(
            bits,
            j * (d as int) + t,
        ),
{
    lemma_bits_val_bound(chunk_bits(bits, j, d));
    lemma_bits_val_index(chunk_bits(bits, j, d), t);
}

/// Bit `p` of the stream read back from an embedded buffer is bit `p` of the
/// frame, for every position the written chunks cover.
proof fn lemma_extracted_of_embed(
    samples: Seq<i16>,
    bits: Seq<bool>,
    idx: Seq<usize>,
    d: nat,
    w: int,
    p: int,
)
    requires
        1 <= d <= 16,
        idx.no_duplicates(),
        forall|k: int| 0 <= k < idx.len() ==> (#[trigger] idx[k]) < samples.len(),
        0 <= w <= idx.len(),
        0 <= p < (d as int) * w,
    ensures
        extracted_bits(embed_upto(samples, bits, idx, d, w), idx, d)[p] == frame_bit(bits, p),
{
    let dd = d as int;
    let j = p / dd;
    let t = p % dd;
    lemma_fundamental_div_mod(p, dd);
    assert(0 <= t < dd);
    assert(j < w) by {
        assert(p < dd * w);
        lemma_multiply_divide_lt(p, dd, w);
    }
    assert(0 <= j);
    let out = embed_upto(samples, bits, idx, d, w);
    lemma_embed_upto_at(samples, bits, idx, d, w, j);
    assert(j < idx.len());
    assert(dd * w <= dd * (idx.len() as int) && (idx.len() as int) * dd == dd * (
    idx.len() as int)) by (nonlinear_arith)
        requires
            w <= idx.len(),
            dd >= 0,
    ;
    assert(p < (idx.len() as int) * dd);
    assert(extracted_bits(out, idx, d)[p] == sample_bit(out[idx[j] as int], d, t));
    lemma_chunk_val_bit(bits, j, d, t);
    lemma_embed_one_window(samples[idx[j] as int], chunk_val(bits, j, d), d, t);
    assert(j * dd + t == p);
}

/// The first zero at or after `from` is `z` exactly when `b[z]` is zero and
/// nothing before it is.
proof fn lemma_first_zero_found(b: Seq<u8>, from: int, z: int)
    requires
        0 <= from <= z < b.len(),
        b[z] == 0,
        forall|q: int| from <= q < z ==> b[q] != 0,
    ensures
        first_zero_at(b, from) == z,
    decreases z - from,
{
    if from < z {
        lemma_first_zero_found(b, from + 1, z);
    }
}

/// Round trip of the codec along one index sequence: when the whole frame
/// fits into the visited windows, the bytes read back start with the header,
/// the first terminator after the header sits exactly at the end of the
/// message, and the bytes between are the message.
#[verifier::rlimit(100)]
pub proof fn lemma_round_trip(
    samples: Seq<i16>,
    header: Seq<u8>,
    msg: Seq<u8>,
    idx: Seq<usize>,
    d: nat,
)
    requires
        1 <= d <= 16,
        idx.no_duplicates(),
        forall|j: int| 0 <= j < idx.len() ==> (#[trigger] idx[j]) < samples.len(),
        header.len() >= 1,
        forall|i: int| 0 <= i < header.len() ==> (#[trigger] header[i]) != 0,
        forall|i: int| 0 <= i < msg.len() ==> (#[trigger] msg[i]) != 0,
        8 * (header.len() + msg.len() + 1) <= (d as int) * idx.len(),
    ensures
        ({
            let out = embed_spec(samples, header, msg, d, idx);
            let b = bits_to_bytes(extracted_bits(out, idx, d));
            &&& out.len() == samples.len()
            &&& header_ok(b, header)
            &&& first_zero_at(b, header.len() as int) == header.len() + msg.len()
            &&& b.subrange(header.len() as int, (header.len() + msg.len()) as int) =~= msg
        }),
{
    let frame = frame_bytes(header, msg);
    let bits = bytes_to_bits(frame);
    let dd = d as int;
    let ln = bits.len() as int;
    let m = idx.len() as int;
    let w = written_count(ln, d, m);
    assert(ln == 8 * frame.len());
    assert(ln <= dd * m);
    // The written chunks cover the whole frame: d * w >= ln.
    let full = (ln + dd - 1) / dd;
    assert(dd * full >= ln) by {
        lemma_fundamental_div_mod(ln + dd - 1, dd);
        vstd::arithmetic::div_mod::lemma_mod_division_less_than_divisor(ln + dd - 1, dd);
    }
    assert(dd * w >= ln) by {
        if m <= full {
            assert(w == m);
        } else {
            assert(w == full);
        }
    }
    assert(0 <= w <= m) by {
        assert(full >= 0) by {
            vstd::arithmetic::div_mod::lemma_div_pos_is_pos(ln + dd - 1, dd);
        }
    }
    let out = embed_upto(samples, bits, idx, d, w);
    lemma_embed_upto_len(samples, bits, idx, d, w);
    assert(out =~= embed_spec(samples, header, msg, d, idx));
    let ext = extracted_bits(out, idx, d);
    assert(ext.len() == m * dd);
    assert(ext.len() >= 8 * frame.len()) by {
        assert(m * dd == dd * m) by (nonlinear_arith);
    }
    assert forall|p: int| 0 <= p < 8 * frame.len() implies ext[p] == bytes_to_bits(frame)[p] by {
        lemma_extracted_of_embed(samples, bits, idx, d, w, p);
        assert(frame_bit(bits, p) == bits[p]);
    }
    lemma_bits_to_bytes_prefix(ext, frame);
    let b = bits_to_bytes(ext);
    let hlen = header.len() as int;
    let mlen = msg.len() as int;
    assert(b.take(frame.len() as int) =~= frame);
    // The header is the first part of the frame.
    assert forall|i: int| 0 <= i < hlen implies b[i] == header[i] by {
        assert(b.take(frame.len() as int)[i] == frame[i]);
    }
    assert(b.take(hlen) =~= header);
    // The message bytes follow and are free of zeros; the terminator ends
    // them.
    assert forall|q: int| hlen <= q < hlen + mlen implies b[q] != 0 by {
        assert(b.take(frame.len() as int)[q] == frame[q]);
        assert(frame[q] == msg[q - hlen]);
    }
    assert(b[hlen + mlen] == frame[hlen + mlen]) by {
        assert(b.take(frame.len() as int)[hlen + mlen] == frame[hlen + mlen]);
    }
    assert(frame[hlen + mlen] == 0);
    lemma_first_zero_found(b, hlen, hlen + mlen);
    assert forall|i: int| 0 <= i < mlen implies b.subrange(hlen, hlen + mlen)[i] == msg[i] by {
        assert(b.take(frame.len() as int)[hlen + i] == frame[hlen + i]);
    }
}

/// Round trip at the level of a message string: hiding the UTF-8 bytes of a
/// NUL-free string and reading them back yields a valid UTF-8 payload that
/// decodes to the same string.
pub proof fn lemma_round_trip_message(
    samples: Seq<i16>,
    header: Seq<u8>,
    m: Seq<char>,
    idx: Seq<usize>,
    d: nat,
)
    requires
        1 <= d <= 16,
        idx.no_duplicates(),
        forall|j: int| 0 <= j < idx.len() ==> (#[trigger] idx[j]) < samples.len(),
        header.len() >= 1,
        forall|i: int| 0 <= i < header.len() ==> (#[trigger] header[i]) != 0,
        forall|i: int| 0 <= i < m.len() ==> (#[trigger] m[i]) != '\0',
        8 * (header.len() + encode_utf8(m).len() + 1) <= (d as int) * idx.len(),
    ensures
        ({
            let out = embed_spec(samples, header, encode_utf8(m), d, idx);
            let b = bits_to_bytes(extracted_bits(out, idx, d));
            let z = first_zero_at(b, header.len() as int);
            &&& out.len() == samples.len()
            &&& header_ok(b, header)
            &&& z == header.len() + encode_utf8(m).len()
            &&& valid_utf8(b.subrange(header.len() as int, z))
            &&& decode_utf8(b.subrange(header.len() as int, z)) == m
        }),
{
    lemma_encode_utf8_no_nul(m);
    lemma_round_trip(samples, header, encode_utf8(m), idx, d);
    encode_utf8_valid_utf8(m);
    encode_utf8_decode_utf8(m);
}

/// The UTF-8 encoding of a string without NUL characters contains no zero
/// byte: a one-byte encoding is the scalar itself, and every byte of a longer
/// encoding has its high bit set.
pub proof fn lemma_encode_utf8_no_nul(m: Seq<char>)
    requires
        forall|i: int| 0 <= i < m.len() ==> (#[trigger] m[i]) != '\0',
    ensures
        forall|j: int|
            0 <= j < encode_utf8(m).len() ==> (#[trigger] encode_utf8(m)[j]) != 0,
    decreases m.len(),
{
    if m.len() > 0 {
        let scalar = m[0] as u32;
        let first = encode_scalar(scalar);
        assert(m[0] != '\0');
        assert('\0' as u32 == 0);
        assert(scalar != 0) by {
            vstd::utf8::char_u32_cast(m[0], scalar);
            vstd::utf8::char_u32_cast('\0', 0);
        }
        lemma_encode_scalar_no_nul(scalar);
        assert(forall|i: int| 0 <= i < m.drop_first().len() ==> (#[trigger] m.drop_first()[i]) != '\0');
        lemma_encode_utf8_no_nul(m.drop_first());
        assert forall|j: int| 0 <= j < encode_utf8(m).len() implies (#[trigger] encode_utf8(m)[j])
            != 0 by {
            if j < first.len() {
                assert(encode_utf8(m)[j] == first[j]);
            } else {
                assert(encode_utf8(m)[j] == encode_utf8(m.drop_first())[j - first.len()]);
            }
        }
    }
}

/// No byte of the UTF-8 encoding of a nonzero scalar is zero.
proof fn lemma_encode_scalar_no_nul(scalar: u32)
    requires
        scalar != 0,
    ensures
        forall|j: int|
            0 <= j < encode_scalar(scalar).len() ==> (#[trigger] encode_scalar(scalar)[j]) != 0,
{
    let e = encode_scalar(scalar);
    if vstd::utf8::has_width_1_encoding(scalar) {
        assert((scalar & 0x7F) as u8 != 0) by (bit_vector)
            requires
                scalar != 0,
                scalar < 0x80,
        ;
    } else {
        assert forall|j: int| 0 <= j < e.len() implies (#[trigger] e[j]) != 0 by {
            let z6: u8 = ((scalar >> 6) & 0x1F) as u8;
            let z12_3: u8 = ((scalar >> 12) & 0x0F) as u8;
            let z18: u8 = ((scalar >> 18) & 0x7) as u8;
            let z0: u8 = (scalar & 0x3F) as u8;
            let z6c: u8 = ((scalar >> 6) & 0x3F) as u8;
            let z12c: u8 = ((scalar >> 12) & 0x3F) as u8;
            assert(0xC0u8 | z6 != 0) by (bit_vector);
            assert(0xE0u8 | z12_3 != 0) by (bit_vector);
            assert(0xF0u8 | z18 != 0) by (bit_vector);
            assert(0x80u8 | z0 != 0) by (bit_vector);
            assert(0x80u8 | z6c != 0) by (bit_vector);
            assert(0x80u8 | z12c != 0) by (bit_vector);
        }
    }
}

/// Low window of a cleared sample is zero.
proof fn lemma_zero_low_is_zero(s: i16, d: nat)
    requires
        d <= 16,
    ensures
        ((zero_low(s, d) as u16) as nat) % pow2(d) == 0,
{
    let x = (s as u16) as nat;
    let pd = pow2(d);
    assert(pow2(16) == 0x10000) by {
        lemma2_to64();
    }
    if d < 16 {
        vstd::arithmetic::power2::lemma_pow2_strictly_increases(d, 16);
    }
    lemma_pow2_pos(d);
    lemma_embed_one_fits(x, 0, d);
    let y = (x / pd) * pd;
    let yv = y as u16;
    assert(yv as nat == y);
    assert(((yv as i16) as u16) == yv) by (bit_vector);
    assert((zero_low(s, d) as u16) as nat == y);
    lemma_fundamental_div_mod_converse_mod(y as int, pd as int, (x / pd) as int, 0);
}

/// After a clear, every sample that some cleared index names has a zero low
/// window; every other sample keeps its value.
proof fn lemma_clear_upto_zeroes(samples: Seq<i16>, idx: Seq<usize>, d: nat, w: int, i: int)
    requires
        d <= 16,
        forall|k: int| 0 <= k < idx.len() ==> (#[trigger] idx[k]) < samples.len(),
        0 <= w <= idx.len(),
        0 <= i < samples.len(),
    ensures
        clear_upto(samples, idx, d, w).len() == samples.len(),
        (exists|k: int| 0 <= k < w && (#[trigger] idx[k]) as int == i) ==> ((clear_upto(
            samples,
            idx,
            d,
            w,
        )[i] as u16) as nat) % pow2(d) == 0,
        !(exists|k: int| 0 <= k < w && (#[trigger] idx[k]) as int == i) ==> clear_upto(
            samples,
            idx,
            d,
            w,
        )[i] == samples[i],
    decreases w,
{
    if w > 0 {
        lemma_clear_upto_zeroes(samples, idx, d, w - 1, i);
        let prev = clear_upto(samples, idx, d, w - 1);
        if idx[w - 1] as int == i {
            lemma_zero_low_is_zero(prev[i], d);
        }
    }
}

/// Clearing destroys the header: along any index sequence whose members were
/// all cleared, the bytes read back are all zero, so they cannot start with
/// a header that has a nonzero first byte.
pub proof fn lemma_clear_then_extract(
    samples: Seq<i16>,
    header: Seq<u8>,
    idx: Seq<usize>,
    idx2: Seq<usize>,
    d: nat,
)
    requires
        1 <= d <= 16,
        forall|k: int| 0 <= k < idx.len() ==> (#[trigger] idx[k]) < samples.len(),
        forall|k: int| 0 <= k < idx2.len() ==> idx.contains(#[trigger] idx2[k]),
        header.len() >= 1,
        header[0] != 0,
    ensures
        !header_ok(bits_to_bytes(extracted_bits(clear_spec(samples, idx, d), idx2, d)), header),
{
    let cleared = clear_spec(samples, idx, d);
    let ext = extracted_bits(cleared, idx2, d);
    let b = bits_to_bytes(ext);
    let dd = d as int;
    assert forall|p: int| 0 <= p < ext.len() implies !ext[p] by {
        let k = p / dd;
        let t = p % dd;
        lemma_fundamental_div_mod(p, dd);
        assert(k < idx2.len()) by {
            lemma_multiply_divide_lt(p, dd, idx2.len() as int);
            assert(idx2.len() * dd == dd * idx2.len()) by (nonlinear_arith);
        }
        let i = idx2[k];
        assert(idx.contains(i));
        let kk = choose|kk: int| 0 <= kk < idx.len() && idx[kk] == i;
        lemma_clear_upto_zeroes(samples, idx, d, idx.len() as int, i as int);
        let v = (cleared[i as int] as u16) as nat;
        assert(v % pow2(d) == 0);
        assert(ext[p] == sample_bit(cleared[i as int], d, t));
        lemma_nth_bit_low(v, d, (d - 1 - t) as nat);
        assert(nth_bit(0, (d - 1 - t) as nat) == false) by {
            lemma_pow2_pos((d - 1 - t) as nat);
        }
    }
    if b.len() >= header.len() {
        assert(bits_val(ext.subrange(0, 8)) == 0) by {
            lemma_bits_val_zero(ext.subrange(0, 8));
        }
        assert(b[0] == 0);
        if b.take(header.len() as int) == header {
            assert(b.take(header.len() as int)[0] == header[0]);
            assert(false);
        }
    }
}

/// Clearing with a password blocks a later extraction under the same
/// password: the same index stream reads back only zeroed windows.
pub proof fn lemma_clear_blocks_same_stream(
    samples: Seq<i16>,
    header: Seq<u8>,
    idx: Seq<usize>,
    d: nat,
)
    requires
        1 <= d <= 16,
        forall|k: int| 0 <= k < idx.len() ==> (#[trigger] idx[k]) < samples.len(),
        header.len() >= 1,
        header[0] != 0,
    ensures
        !header_ok(bits_to_bytes(extracted_bits(clear_spec(samples, idx, d), idx, d)), header),
{
    assert forall|k: int| 0 <= k < idx.len() implies idx.contains(#[trigger] idx[k]) by {}
    lemma_clear_then_extract(samples, header, idx, idx, d);
}

/// A capacity failure always asks for more samples than the buffer holds:
/// when the frame does not fit, the reported requirement exceeds the length.
pub proof fn lemma_capacity_failure_exceeds_len(total: nat, n: nat, d: nat, occ: nat)
    requires
        1 <= d,
        1 <= occ <= 100,
        8 * total > usable_bits(n, d, occ),
    ensures
        required_samples(total, d, occ) > n,
{
    let u = (n * d * occ) / 100;
    let t8 = 8 * total;
    // From the floor bound: 100 * (u + 1) > n * d * occ.
    lemma_fundamental_div_mod((n * d * occ) as int, 100);
    assert(n * d * occ < 100 * (u + 1));
    assert(t8 >= u + 1);
    assert(t8 * 100 >= (u + 1) * 100) by (nonlinear_arith)
        requires
            t8 >= u + 1,
    ;
    assert((u + 1) * 100 == 100 * (u + 1)) by (nonlinear_arith);
    assert(t8 * 100 > n * d * occ);
    // Divide by the occupancy.
    assert(t8 * 100 >= (n * d) * occ + 1) by {
        assert(n * d * occ == (n * d) * occ) by (nonlinear_arith);
    }
    let r1 = (total * 8 * 100) / occ;
    assert(total * 8 * 100 == (8 * total) * 100) by (nonlinear_arith);
    assert(r1 >= n * d) by {
        lemma_div_is_ordered(((n * d) * occ) as int, (t8 * 100) as int, occ as int);
        lemma_div_multiples_vanish((n * d) as int, occ as int);
        assert(occ * (n * d) == (n * d) * occ) by (nonlinear_arith);
    }
    // Divide by the depth.
    let r2 = r1 / d;
    assert(r2 >= n) by {
        lemma_div_is_ordered((n * d) as int, r1 as int, d as int);
        lemma_div_multiples_vanish(n as int, d as int);
        assert(d * n == n * d) by (nonlinear_arith);
    }
}

/// Round trip under one password: if the password's index stream completes,
/// then hiding a NUL-free message and extracting along the same stream
/// recovers exactly that message. This is the composition of the contracts of
/// `hide_message_binary` and `extract_message_binary`, whose index sequences
/// both are `stream_of(password, n, occ)`.
pub proof fn lemma_round_trip_for_password(
    samples: Seq<i16>,
    header: Seq<u8>,
    m: Seq<char>,
    password: Seq<char>,
    n: usize,
    occ: usize,
    d: nat,
)
    requires
        1 <= d <= 16,
        n == samples.len(),
        header.len() >= 1,
        forall|i: int| 0 <= i < header.len() ==> (#[trigger] header[i]) != 0,
        forall|i: int| 0 <= i < m.len() ==> (#[trigger] m[i]) != '\0',
        8 * (header.len() + encode_utf8(m).len() + 1) <= (d as int) * spec_max_count(n, occ),
    ensures
        stream_ready(password, n, occ) ==> ({
            let idx = stream_of(password, n, occ);
            let out = embed_spec(samples, header, encode_utf8(m), d, idx);
            let b = bits_to_bytes(extracted_bits(out, idx, d));
            let z = first_zero_at(b, header.len() as int);
            &&& out.len() == samples.len()
            &&& header_ok(b, header)
            &&& z == header.len() + encode_utf8(m).len()
            &&& valid_utf8(b.subrange(header.len() as int, z))
            &&& decode_utf8(b.subrange(header.len() as int, z)) == m
        }),
{
    if stream_ready(password, n, occ) {
        let seed = crate::object::password_seed(password);
        let mc = spec_max_count(n, occ) as nat;
        crate::object::lemma_index_sequence_props(seed, n, mc);
        let idx = stream_of(password, n, occ);
        assert(idx.len() == mc);
        lemma_round_trip_message(samples, header, m, idx, d);
    }
}

} // verus!

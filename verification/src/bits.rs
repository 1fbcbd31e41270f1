//! The bit-level model of the codec: how bytes are flattened into a bit
//! stream (most significant bit first) and how a bit stream is grouped back
//! into bytes and into depth-sized chunks. Bits of a value are modelled
//! arithmetically, as `(v / 2^sh) % 2`.

use vstd::arithmetic::div_mod::{
    lemma_breakdown, lemma_div_denominator, lemma_mod_breakdown, lemma_mod_multiples_vanish,
};
use vstd::arithmetic::power2::{lemma2_to64, lemma_pow2_adds, lemma_pow2_pos, pow2};
use vstd::prelude::*;

verus! {

/// Bit `sh` of the value `v`, counting from the least significant bit.
pub open spec fn nth_bit(v: nat, sh: nat) -> bool {
    ((v / pow2(sh)) % 2) == 1
}

/// Bit `i` of byte `b`, counting from the most significant bit.
pub open spec fn byte_bit(b: u8, i: int) -> bool
    recommends
        0 <= i < 8,
{
    nth_bit(b as nat, (7 - i) as nat)
}

/// The eight bits of `b`, most significant first.
pub open spec fn byte_bits(b: u8) -> Seq<bool> {
    Seq::new(8, |i: int| byte_bit(b, i))
}

/// All bits of a byte sequence: bytes in order, most significant bit first
/// inside each byte.
pub open spec fn bytes_to_bits(s: Seq<u8>) -> Seq<bool> {
    Seq::new(s.len() * 8, |p: int| byte_bit(s[p / 8], p % 8))
}

/// Bit `p` of a bit stream that is padded with zero bits past its end.
pub open spec fn frame_bit(bits: Seq<bool>, p: int) -> bool {
    if 0 <= p < bits.len() {
        bits[p]
    } else {
        false
    }
}

/// The unsigned value of a bit string read most significant bit first.
pub open spec fn bits_val(bits: Seq<bool>) -> nat
    decreases bits.len(),
{
    if bits.len() == 0 {
        0
    } else {
        2 * bits_val(bits.drop_last()) + (if bits.last() {
            1nat
        } else {
            0nat
        })
    }
}

/// The low `w` bits of the value `x`, most significant first.
pub open spec fn val_bits(x: nat, w: nat) -> Seq<bool> {
    Seq::new(w, |i: int| nth_bit(x, (w - 1 - i) as nat))
}

/// The bytes assembled from a bit stream, eight bits per byte, most
/// significant bit first; trailing bits that do not fill a byte are dropped.
pub open spec fn bits_to_bytes(bits: Seq<bool>) -> Seq<u8> {
    Seq::new(bits.len() / 8, |k: int| bits_val(bits.subrange(8 * k, 8 * k + 8)) as u8)
}

pub proof fn lemma_bits_val_bound(bits: Seq<bool>)
    ensures
        bits_val(bits) < pow2(bits.len()),
    decreases bits.len(),
{
    if bits.len() == 0 {
        assert(pow2(0) == 1) by {
            lemma2_to64();
        }
    } else {
        vstd::arithmetic::power2::lemma_pow2_unfold(bits.len());
        lemma_bits_val_bound(bits.drop_last());
    }
}

/// Shifting one bit to the right: bit `sh` of `v` is bit `sh - 1` of `v / 2`.
proof fn lemma_nth_bit_half(v: nat, sh: nat)
    requires
        sh >= 1,
    ensures
        nth_bit(v, sh) == nth_bit(v / 2, (sh - 1) as nat),
{
    lemma_pow2_adds(1, (sh - 1) as nat);
    assert(pow2(1) == 2) by {
        lemma2_to64();
    }
    lemma_pow2_pos((sh - 1) as nat);
    lemma_div_denominator(v as int, 2, pow2((sh - 1) as nat) as int);
}

/// Appending a low bit: the bits of `2 * a + b` are the bits of `a` followed
/// by `b`.
proof fn lemma_nth_bit_step(a: nat, b: nat, sh: nat)
    requires
        b < 2,
    ensures
        nth_bit(2 * a + b, 0) == (b == 1),
        sh >= 1 ==> nth_bit(2 * a + b, sh) == nth_bit(a, (sh - 1) as nat),
{
    let v = 2 * a + b;
    assert(pow2(0) == 1) by {
        lemma2_to64();
    }
    assert(v / 1 == v);
    lemma_mod_multiples_vanish(a as int, b as int, 2);
    assert(v % 2 == b);
    if sh >= 1 {
        lemma_nth_bit_half(v, sh);
        assert(v / 2 == a) by (nonlinear_arith)
            requires
                v == 2 * a + b,
                0 <= b < 2,
        ;
    }
}

/// Reading the value of a bit string back out, one bit at a time: bit `t`
/// (most significant first) of `bits_val(bits)` is `bits[t]`.
pub proof fn lemma_bits_val_index(bits: Seq<bool>, t: int)
    requires
        0 <= t < bits.len(),
    ensures
        nth_bit(bits_val(bits), (bits.len() - 1 - t) as nat) == bits[t],
    decreases bits.len(),
{
    let prev = bits.drop_last();
    let a = bits_val(prev);
    let b: nat = if bits.last() {
        1
    } else {
        0
    };
    let sh = (bits.len() - 1 - t) as nat;
    lemma_nth_bit_step(a, b, sh);
    if t < bits.len() - 1 {
        lemma_bits_val_index(prev, t);
    }
}

/// The low `w` bits of `x / 2` are the low `w + 1` bits of `x` without the
/// last one.
proof fn lemma_val_bits_drop(x: nat, w: nat)
    requires
        w >= 1,
    ensures
        val_bits(x, w).drop_last() =~= val_bits(x / 2, (w - 1) as nat),
{
    assert forall|i: int| 0 <= i < w - 1 implies val_bits(x, w)[i] == val_bits(
        x / 2,
        (w - 1) as nat,
    )[i] by {
        lemma_nth_bit_half(x, (w - 1 - i) as nat);
    }
}

/// Packing the low `w` bits of a value and reading them back gives the value
/// modulo `2^w`.
pub proof fn lemma_bits_val_of_val_bits(x: nat, w: nat)
    ensures
        bits_val(val_bits(x, w)) == x % pow2(w),
    decreases w,
{
    if w == 0 {
        assert(pow2(0) == 1) by {
            lemma2_to64();
        }
        assert(val_bits(x, 0).len() == 0);
    } else {
        lemma_val_bits_drop(x, w);
        lemma_bits_val_of_val_bits(x / 2, (w - 1) as nat);
        assert(val_bits(x, w).last() == nth_bit(x, 0));
        assert(pow2(0) == 1) by {
            lemma2_to64();
        }
        assert(x / 1 == x);
        let b: nat = x % 2;
        assert(bits_val(val_bits(x, w)) == 2 * ((x / 2) % pow2((w - 1) as nat)) + b);
        lemma_pow2_pos((w - 1) as nat);
        lemma_mod_breakdown(x as int, 2, pow2((w - 1) as nat) as int);
        lemma_pow2_adds(1, (w - 1) as nat);
        assert(pow2(1) == 2) by {
            lemma2_to64();
        }
        assert(x % pow2(w) == 2 * ((x / 2) % pow2((w - 1) as nat)) + x % 2);
    }
}

/// Packing the eight bits of a byte and reading the value back gives the byte.
pub proof fn lemma_byte_bits_val(b: u8)
    ensures
        bits_val(byte_bits(b)) == b,
{
    assert(byte_bits(b) =~= val_bits(b as nat, 8));
    lemma_bits_val_of_val_bits(b as nat, 8);
    assert(pow2(8) == 256) by {
        lemma2_to64();
    }
}

/// Bits inside the low window of width `d` only depend on the value modulo
/// `2^d`.
pub proof fn lemma_nth_bit_low(y: nat, d: nat, sh: nat)
    requires
        sh < d,
    ensures
        nth_bit(y, sh) == nth_bit(y % pow2(d), sh),
{
    let yi = y as int;
    let plow = pow2(sh) as int;
    let phigh = pow2((d - sh) as nat) as int;
    lemma_pow2_pos(sh);
    lemma_pow2_pos((d - sh) as nat);
    lemma_pow2_adds(sh, (d - sh) as nat);
    assert(pow2(d) as int == plow * phigh);
    // Split y modulo 2^d into the part above the window and the part below
    // bit `sh`.
    lemma_breakdown(yi, plow, phigh);
    let a = (yi / plow) % phigh;
    let b = yi % plow;
    let r = yi % (plow * phigh);
    assert(r == plow * a + b);
    vstd::arithmetic::div_mod::lemma_mod_division_less_than_divisor(yi, plow);
    vstd::arithmetic::div_mod::lemma_mod_division_less_than_divisor(yi / plow, phigh);
    assert(a * plow + b == plow * a + b) by {
        vstd::arithmetic::mul::lemma_mul_is_commutative(a, plow);
    }
    vstd::arithmetic::div_mod::lemma_fundamental_div_mod_converse_div(r, plow, a, b);
    assert(r / plow == a);
    // The window width above bit `sh` is even, so reducing modulo it keeps
    // the low bit.
    let z = pow2((d - sh - 1) as nat) as int;
    lemma_pow2_pos((d - sh - 1) as nat);
    assert(phigh == 2 * z) by {
        lemma_pow2_adds(1, (d - sh - 1) as nat);
        assert(pow2(1) == 2) by {
            lemma2_to64();
        }
    }
    vstd::arithmetic::div_mod::lemma_div_pos_is_pos(yi, plow);
    lemma_mod_breakdown(yi / plow, 2, z);
    let k = ((yi / plow) / 2) % z;
    assert(a == 2 * k + (yi / plow) % 2);
    vstd::arithmetic::div_mod::lemma_mod_division_less_than_divisor(yi / plow, 2);
    lemma_mod_multiples_vanish(k, (yi / plow) % 2, 2);
    vstd::arithmetic::div_mod::lemma_small_mod(((yi / plow) % 2) as nat, 2);
    assert(a % 2 == (yi / plow) % 2);
}

/// A bit string of zeros has value zero.
pub proof fn lemma_bits_val_zero(bits: Seq<bool>)
    requires
        forall|i: int| 0 <= i < bits.len() ==> !bits[i],
    ensures
        bits_val(bits) == 0,
    decreases bits.len(),
{
    if bits.len() > 0 {
        lemma_bits_val_zero(bits.drop_last());
    }
}

/// If the first `8 * bytes.len()` bits of a stream spell out `bytes`, then
/// regrouping the stream into bytes starts with exactly `bytes`.
pub proof fn lemma_bits_to_bytes_prefix(bits: Seq<bool>, bytes: Seq<u8>)
    requires
        bits.len() >= 8 * bytes.len(),
        forall|p: int| 0 <= p < 8 * bytes.len() ==> bits[p] == bytes_to_bits(bytes)[p],
    ensures
        bits_to_bytes(bits).len() >= bytes.len(),
        bits_to_bytes(bits).take(bytes.len() as int) =~= bytes,
{
    assert forall|k: int| 0 <= k < bytes.len() implies bits_to_bytes(bits)[k] == bytes[k] by {
        let chunk = bits.subrange(8 * k, 8 * k + 8);
        assert forall|i: int| 0 <= i < 8 implies chunk[i] == byte_bits(bytes[k])[i] by {
            assert(bits[8 * k + i] == bytes_to_bits(bytes)[8 * k + i]);
            assert((8 * k + i) / 8 == k && (8 * k + i) % 8 == i) by (nonlinear_arith)
                requires
                    0 <= i < 8,
                    0 <= k,
            ;
        }
        assert(chunk =~= byte_bits(bytes[k]));
        lemma_byte_bits_val(bytes[k]);
    }
}

} // verus!

//! The password-derived stream of sample indices, and the byte unpacker that
//! reads payload bits back out of samples.
//!
//! The stream draws uniform indices from a ChaCha8 generator seeded with a
//! 64-bit hash of the password and rejects duplicates, so that for one
//! password the same indices come out in the same order on every run.

use crate::bits::{bits_to_bytes, bits_val, nth_bit, val_bits};
use rand::{Rng, SeedableRng};
use rand_chacha::ChaCha8Rng;
use std::collections::hash_map::DefaultHasher;
use std::hash::{Hash, Hasher};
use vstd::arithmetic::power2::pow2;
use vstd::prelude::*;
use vstd::string::StrSliceExecFns;
use vstd::utf8::{decode_utf8, encode_utf8, encode_utf8_decode_utf8, valid_utf8};

verus! {

#[verifier::external_type_specification]
#[verifier::external_body]
pub struct ExChaCha8Rng(ChaCha8Rng);

/// The 64-bit digest that seeds the index stream for a given password.
pub uninterp spec fn password_seed(password: Seq<char>) -> u64;

/// The generator state after seeding with `seed`.
pub uninterp spec fn rng_of_seed(seed: u64) -> ChaCha8Rng;

/// The uniform value below `n` drawn from the generator state `rng`.
pub uninterp spec fn rng_draw(rng: ChaCha8Rng, n: usize) -> usize;

/// The generator state after drawing one uniform value below `n`.
pub uninterp spec fn rng_step(rng: ChaCha8Rng, n: usize) -> ChaCha8Rng;

/// Relies on `std::collections::hash_map::DefaultHasher` (together with
/// `Hash::hash` and `Hasher::finish` on `&str`): every `DefaultHasher::new()`
/// starts from the same fixed keys, so the digest is a deterministic function
/// of the characters of the password.
#[verifier::external_body]
fn hash_password(password: &str) -> (r: u64)
    ensures
        r == password_seed(password@),
{
    let mut hasher = DefaultHasher::new();
    password.hash(&mut hasher);
    hasher.finish()
}

/// Relies on `rand::SeedableRng::seed_from_u64` for `ChaCha8Rng`: the initial
/// state is a deterministic expansion of the seed.
#[verifier::external_body]
fn rng_from_seed(seed: u64) -> (r: ChaCha8Rng)
    ensures
        r == rng_of_seed(seed),
{
    ChaCha8Rng::seed_from_u64(seed)
}

/// Relies on `rand::Rng::gen_range` over `0..n`: it returns a uniform value
/// below `n` and panics only on an empty range, which the precondition rules
/// out. ChaCha8 is a deterministic stream cipher, so both the value drawn and
/// the state left behind are functions of the state and `n` alone (on one
/// pointer width; this crate assumes 64-bit `usize`).
#[verifier::external_body]
fn draw_below(rng: &mut ChaCha8Rng, n: usize) -> (r: usize)
    requires
        n >= 1,
    ensures
        r == rng_draw(*old(rng), n),
        *final(rng) == rng_step(*old(rng), n),
        r < n,
{
    rng.gen_range(0..n)
}

/// The generator state after `k` draws below `n` from the seeded state.
pub open spec fn rng_after(seed: u64, n: usize, k: nat) -> ChaCha8Rng
    decreases k,
{
    if k == 0 {
        rng_of_seed(seed)
    } else {
        rng_step(rng_after(seed, n, (k - 1) as nat), n)
    }
}

/// The value of draw number `k` (counting from zero).
pub open spec fn draw_at(seed: u64, n: usize, k: nat) -> usize {
    rng_draw(rng_after(seed, n, k), n)
}

/// The indices accepted among the first `k` draws: a draw is accepted when it
/// is in range and has not been seen before.
pub open spec fn accepted(seed: u64, n: usize, k: nat) -> Seq<usize>
    decreases k,
{
    if k == 0 {
        Seq::empty()
    } else {
        let prev = accepted(seed, n, (k - 1) as nat);
        let d = draw_at(seed, n, (k - 1) as nat);
        if d < n && !prev.contains(d) {
            prev.push(d)
        } else {
            prev
        }
    }
}

/// The stream of indices for `(seed, n)` cut off after `m` accepted draws:
/// the accepted indices at the first point where `m` of them exist.
pub open spec fn index_sequence(seed: u64, n: usize, m: nat) -> Seq<usize> {
    accepted(seed, n, choose|k: nat| accepted(seed, n, k).len() == m)
}

/// Whether `m` distinct indices come out within the draw budget of the
/// stream.
pub open spec fn stream_completes(seed: u64, n: usize, m: nat) -> bool {
    exists|k: nat| k <= u64::MAX as nat && accepted(seed, n, k).len() == m
}

/// The accepted indices are distinct, in range, and at most one per draw.
pub proof fn lemma_accepted_props(seed: u64, n: usize, k: nat)
    ensures
        accepted(seed, n, k).no_duplicates(),
        forall|j: int| 0 <= j < accepted(seed, n, k).len() ==> accepted(seed, n, k)[j] < n,
        accepted(seed, n, k).len() <= k,
    decreases k,
{
    if k > 0 {
        lemma_accepted_props(seed, n, (k - 1) as nat);
    }
}

/// More draws only extend the accepted indices.
pub proof fn lemma_accepted_prefix(seed: u64, n: usize, k1: nat, k2: nat)
    requires
        k1 <= k2,
    ensures
        accepted(seed, n, k1).len() <= accepted(seed, n, k2).len(),
        accepted(seed, n, k2).take(accepted(seed, n, k1).len() as int) =~= accepted(seed, n, k1),
    decreases k2,
{
    if k1 < k2 {
        lemma_accepted_prefix(seed, n, k1, (k2 - 1) as nat);
        let prev = accepted(seed, n, (k2 - 1) as nat);
        let cur = accepted(seed, n, k2);
        assert(cur.take(prev.len() as int) =~= prev);
    }
}

/// Any point where the accepted indices number exactly `m` shows the one
/// stream that `index_sequence` names.
pub proof fn lemma_index_sequence_agrees(seed: u64, n: usize, k: nat, m: nat)
    requires
        accepted(seed, n, k).len() == m,
    ensures
        index_sequence(seed, n, m) =~= accepted(seed, n, k),
{
    assert(exists|kk: nat| accepted(seed, n, kk).len() == m) by {
        assert(accepted(seed, n, k).len() == m);
    }
    let k2 = choose|kk: nat| accepted(seed, n, kk).len() == m;
    if k <= k2 {
        lemma_accepted_prefix(seed, n, k, k2);
        assert(accepted(seed, n, k2).take(m as int) =~= accepted(seed, n, k));
        assert(accepted(seed, n, k2).take(m as int) =~= accepted(seed, n, k2));
    } else {
        lemma_accepted_prefix(seed, n, k2, k);
        assert(accepted(seed, n, k).take(m as int) =~= accepted(seed, n, k2));
        assert(accepted(seed, n, k).take(m as int) =~= accepted(seed, n, k));
    }
}

/// The named index stream is distinct and in range whatever happens, and has
/// exactly its nominal length whenever the stream completes.
pub proof fn lemma_index_sequence_props(seed: u64, n: usize, m: nat)
    ensures
        index_sequence(seed, n, m).no_duplicates(),
        forall|j: int|
            0 <= j < index_sequence(seed, n, m).len() ==> index_sequence(seed, n, m)[j] < n,
        stream_completes(seed, n, m) ==> index_sequence(seed, n, m).len() == m,
{
    let k = choose|k: nat| accepted(seed, n, k).len() == m;
    lemma_accepted_props(seed, n, k);
    if stream_completes(seed, n, m) {
        let k2 = choose|k2: nat| k2 <= u64::MAX as nat && accepted(seed, n, k2).len() == m;
        lemma_index_sequence_agrees(seed, n, k2, m);
    }
}

/// A finite stream of distinct pseudorandom indices in `[0, sample_len)`,
/// derived from a password. At most `max_occupancy` percent of the indices
/// are ever produced.
pub struct UniqueRandomIndices {
    rng: ChaCha8Rng,
    sample_len: usize,
    used: Vec<bool>,
    max_count: usize,
    yielded: usize,
    draws: u64,
    seed: Ghost<u64>,
    emitted: Ghost<Seq<usize>>,
}

/// How many indices a stream over `n` samples at occupancy `occ` produces.
pub open spec fn spec_max_count(n: usize, occ: usize) -> int {
    (n * occ) / 100
}

impl UniqueRandomIndices {
    pub closed spec fn wf(self) -> bool {
        &&& self.used@.len() == self.sample_len
        &&& self.rng == rng_after(self.seed@, self.sample_len, self.draws as nat)
        &&& self.emitted@ =~= accepted(self.seed@, self.sample_len, self.draws as nat)
        &&& self.yielded == self.emitted@.len()
        &&& forall|i: int|
            0 <= i < self.sample_len ==> self.used@[i] == self.emitted@.contains(i as usize)
        &&& self.yielded <= self.max_count
        &&& self.max_count <= self.sample_len
    }

    pub closed spec fn spec_seed(self) -> u64 {
        self.seed@
    }

    pub closed spec fn spec_sample_len(self) -> usize {
        self.sample_len
    }

    pub closed spec fn spec_max_count_of(self) -> usize {
        self.max_count
    }

    pub closed spec fn spec_emitted(self) -> Seq<usize> {
        self.emitted@
    }

    pub closed spec fn spec_yielded(self) -> usize {
        self.yielded
    }

    pub closed spec fn spec_draws(self) -> u64 {
        self.draws
    }

    pub fn new(sample_len: usize, password: &str, max_occupancy: usize) -> (r: Self)
        requires
            1 <= max_occupancy <= 100,
        ensures
            r.wf(),
            r.spec_seed() == password_seed(password@),
            r.spec_sample_len() == sample_len,
            r.spec_max_count_of() as int == spec_max_count(sample_len, max_occupancy),
            r.spec_draws() == 0,
            r.spec_yielded() == 0,
            r.spec_emitted() =~= Seq::<usize>::empty(),
    {
        let seed = hash_password(password);
        let rng = rng_from_seed(seed);
        proof {
            assert((sample_len * max_occupancy) / 100 <= sample_len) by (nonlinear_arith)
                requires
                    1 <= max_occupancy <= 100,
            ;
        }
        let max_count = (((sample_len as u128) * (max_occupancy as u128)) / 100) as usize;
        let mut used: Vec<bool> = Vec::new();
        let mut i: usize = 0;
        while i < sample_len
            invariant
                i <= sample_len,
                used@.len() == i,
                forall|j: int| 0 <= j < i ==> !used@[j],
            decreases sample_len - i,
        {
            used.push(false);
            i = i + 1;
        }
        UniqueRandomIndices {
            rng,
            sample_len,
            used,
            max_count,
            yielded: 0,
            draws: 0,
            seed: Ghost(seed),
            emitted: Ghost(Seq::empty()),
        }
    }

    /// The next index of the stream. `None` once `max_count` indices have
    /// come out (or, in principle, once the draw budget of the stream is
    /// spent rejecting duplicates).
    pub fn next(&mut self) -> (r: Option<usize>)
        requires
            old(self).wf(),
        ensures
            final(self).wf(),
            final(self).spec_seed() == old(self).spec_seed(),
            final(self).spec_sample_len() == old(self).spec_sample_len(),
            final(self).spec_max_count_of() == old(self).spec_max_count_of(),
            match r {
                Some(i) => {
                    &&& old(self).spec_yielded() < old(self).spec_max_count_of()
                    &&& old(self).spec_draws() < u64::MAX
                    &&& i < old(self).spec_sample_len()
                    &&& !old(self).spec_emitted().contains(i)
                    &&& final(self).spec_emitted() =~= old(self).spec_emitted().push(i)
                    &&& final(self).spec_yielded() == old(self).spec_yielded() + 1
                },
                None => {
                    &&& final(self).spec_emitted() =~= old(self).spec_emitted()
                    &&& final(self).spec_yielded() == old(self).spec_yielded()
                    &&& (old(self).spec_yielded() == old(self).spec_max_count_of()
                        || final(self).spec_draws() == u64::MAX)
                },
            },
    {
        if self.yielded >= self.max_count {
            return None;
        }
        loop
            invariant
                self.wf(),
                self.yielded < self.max_count,
                self.seed == old(self).seed,
                self.sample_len == old(self).sample_len,
                self.max_count == old(self).max_count,
                self.emitted@ =~= old(self).emitted@,
                self.yielded == old(self).yielded,
                self.draws >= old(self).draws,
            decreases u64::MAX - self.draws,
        {
            if self.draws == u64::MAX {
                return None;
            }
            let ghost k = self.draws as nat;
            let candidate = draw_below(&mut self.rng, self.sample_len);
            self.draws = self.draws + 1;
            proof {
                assert(self.rng == rng_after(self.seed@, self.sample_len, k + 1));
                assert(candidate == draw_at(self.seed@, self.sample_len, k));
            }
            if !self.used[candidate] {
                let ghost e_old = self.emitted@;
                self.used[candidate] = true;
                self.yielded = self.yielded + 1;
                proof {
                    self.emitted@ = e_old.push(candidate);
                    let e_new = self.emitted@;
                    assert(e_new =~= accepted(self.seed@, self.sample_len, self.draws as nat));
                    assert forall|i: int| 0 <= i < self.sample_len implies self.used@[i]
                        == e_new.contains(i as usize) by {
                        if i == candidate as int {
                            assert(e_new[e_old.len() as int] == candidate);
                            assert(e_new.contains(candidate));
                        } else {
                            if e_new.contains(i as usize) {
                                let j = choose|j: int|
                                    0 <= j < e_new.len() && e_new[j] == i as usize;
                                assert(e_old[j] == i as usize);
                                assert(e_old.contains(i as usize));
                            }
                            if e_old.contains(i as usize) {
                                let j = choose|j: int|
                                    0 <= j < e_old.len() && e_old[j] == i as usize;
                                assert(e_new[j] == i as usize);
                                assert(e_new.contains(i as usize));
                            }
                        }
                    }
                }
                return Some(candidate);
            }
            proof {
                assert(self.emitted@ =~= accepted(self.seed@, self.sample_len, self.draws as nat));
            }
        }
    }

    /// All indices of a fresh stream, in order. `None` only if the draw
    /// budget is spent before the stream is complete.
    pub fn collect_indices(&mut self) -> (r: Option<Vec<usize>>)
        requires
            old(self).wf(),
            old(self).spec_draws() == 0,
        ensures
            match r {
                Some(v) => {
                    &&& stream_completes(
                        old(self).spec_seed(),
                        old(self).spec_sample_len(),
                        old(self).spec_max_count_of() as nat,
                    )
                    &&& v@ =~= index_sequence(
                        old(self).spec_seed(),
                        old(self).spec_sample_len(),
                        old(self).spec_max_count_of() as nat,
                    )
                    &&& v@.len() == old(self).spec_max_count_of()
                    &&& v@.no_duplicates()
                    &&& forall|j: int| 0 <= j < v@.len() ==> v@[j] < old(self).spec_sample_len()
                },
                None => !stream_completes(
                    old(self).spec_seed(),
                    old(self).spec_sample_len(),
                    old(self).spec_max_count_of() as nat,
                ),
            },
    {
        let mut out: Vec<usize> = Vec::new();
        proof {
            lemma_accepted_props(self.seed@, self.sample_len, 0);
        }
        while self.yielded < self.max_count
            invariant
                self.wf(),
                self.seed == old(self).seed,
                self.sample_len == old(self).sample_len,
                self.max_count == old(self).max_count,
                out@ =~= self.emitted@,
                self.draws <= u64::MAX,
            decreases old(self).spec_max_count_of() - self.yielded,
        {
            match self.next() {
                Some(i) => {
                    out.push(i);
                },
                None => {
                    proof {
                        let seed = self.seed@;
                        let n = self.sample_len;
                        let m = self.max_count as nat;
                        assert(self.draws == u64::MAX);
                        assert(accepted(seed, n, u64::MAX as nat).len() < m);
                        assert forall|k: nat| k <= u64::MAX as nat implies accepted(
                            seed,
                            n,
                            k,
                        ).len() != m by {
                            lemma_accepted_prefix(seed, n, k, u64::MAX as nat);
                        }
                    }
                    return None;
                },
            }
        }
        proof {
            let seed = self.seed@;
            let n = self.sample_len;
            let m = self.max_count as nat;
            let k = self.draws as nat;
            assert(accepted(seed, n, k).len() == m);
            lemma_index_sequence_agrees(seed, n, k, m);
            lemma_accepted_props(seed, n, k);
        }
        Some(out)
    }
}

/// Bit `t` (most significant first) of the depth-`d` window of sample `s`.
pub open spec fn sample_bit(s: i16, d: nat, t: int) -> bool
    recommends
        0 <= t < d,
{
    nth_bit((s as u16) as nat, (d - 1 - t) as nat)
}

/// The bit stream read back from the visited samples: `d` bits from each
/// visited sample, most significant first within the window.
pub open spec fn extracted_bits(samples: Seq<i16>, idx: Seq<usize>, d: nat) -> Seq<bool>
    recommends
        d >= 1,
{
    Seq::new(
        idx.len() * d,
        |p: int| sample_bit(samples[idx[p / (d as int)] as int], d, p % (d as int)),
    )
}

/// The bits already sitting in a partially filled accumulator byte: the low
/// `nbits` bits of `cb`, most significant first.
pub open spec fn partial_bits(cb: u8, nbits: nat) -> Seq<bool> {
    val_bits(cb as nat, nbits)
}

/// Bit `t` (most significant first) of the depth-`lsb_deep` window of `s`.
fn sample_window_bit(s: i16, lsb_deep: u8, t: u8) -> (r: bool)
    requires
        1 <= lsb_deep <= 16,
        t < lsb_deep,
    ensures
        r == sample_bit(s, lsb_deep as nat, t as int),
{
    let x: u16 = s as u16;
    let sh: u16 = (lsb_deep - 1 - t) as u16;
    let b = (x >> sh) & 1;
    proof {
        vstd::bits::lemma_u16_shr_is_div(x, sh);
        vstd::bits::lemma_u16_low_bits_mask_is_mod(x >> sh, 1);
        vstd::bits::lemma_low_bits_mask_values();
        assert(pow2(1) == 2) by {
            vstd::arithmetic::power2::lemma2_to64();
        }
    }
    b == 1
}

/// Read the visited samples back into bytes: `lsb_deep` bits per sample are
/// appended to an accumulator that starts with `current_bit` bits already in
/// `current_byte`, and every eight bits one byte is produced. Trailing bits
/// that do not fill a byte are dropped.
#[verifier::loop_isolation(false)]
pub fn unpack_bytes(
    samples: &Vec<i16>,
    indices: &Vec<usize>,
    lsb_deep: u8,
    current_byte: u8,
    current_bit: u8,
) -> (r: Vec<u8>)
    requires
        1 <= lsb_deep <= 16,
        forall|j: int| 0 <= j < indices@.len() ==> (#[trigger] indices@[j]) < samples@.len(),
        current_bit < 8,
        (current_byte as nat) < pow2(current_bit as nat),
    ensures
        r@ =~= bits_to_bytes(
            partial_bits(current_byte, current_bit as nat) + extracted_bits(
                samples@,
                indices@,
                lsb_deep as nat,
            ),
        ),
{
    let ghost bits = partial_bits(current_byte, current_bit as nat) + extracted_bits(
        samples@,
        indices@,
        lsb_deep as nat,
    );
    let ghost d_int = lsb_deep as int;
    proof {
        assert(bits.len() == current_bit + indices@.len() * d_int);
        assert(partial_bits(current_byte, current_bit as nat) =~= bits.subrange(
            0,
            current_bit as int,
        ));
        crate::bits::lemma_bits_val_of_val_bits(current_byte as nat, current_bit as nat);
        vstd::arithmetic::div_mod::lemma_small_mod(current_byte as nat, pow2(current_bit as nat));
        assert(current_bit as int / 8 == 0);
        assert(current_bit as int % 8 == current_bit as int);
    }
    let mut out: Vec<u8> = Vec::new();
    let mut cb: u8 = current_byte;
    let mut nb: u8 = current_bit;
    let mut j: usize = 0;
    while j < indices.len()
        invariant
            j <= indices@.len(),
            nb < 8,
            out@.len() * 8 + nb == current_bit + j * d_int,
            out@ =~= bits_to_bytes(bits).take(out@.len() as int),
            cb as nat == bits_val(
                bits.subrange(8 * (out@.len() as int), current_bit + j * d_int),
            ),
        decreases indices@.len() - j,
    {
        let idx = indices[j];
        let s = samples[idx];
        let mut t: u8 = 0;
        while t < lsb_deep
            invariant
                j < indices@.len(),
                t <= lsb_deep,
                nb < 8,
                out@.len() * 8 + nb == current_bit + j * d_int + t,
                out@ =~= bits_to_bytes(bits).take(out@.len() as int),
                cb as nat == bits_val(
                    bits.subrange(8 * (out@.len() as int), current_bit + j * d_int + t),
                ),
                s == samples@[idx as int],
                idx == indices@[j as int],
            decreases lsb_deep - t,
        {
            let ghost p = current_bit + j * d_int + t;
            let ghost kk = out@.len() as int;
            let bit = sample_window_bit(s, lsb_deep, t);
            proof {
                let q = p - current_bit;
                assert(q == j * d_int + t);
                assert(q / d_int == j && q % d_int == t) by (nonlinear_arith)
                    requires
                        q == j * d_int + t,
                        0 <= t < d_int,
                        0 <= j,
                ;
                assert(q < indices@.len() * d_int) by (nonlinear_arith)
                    requires
                        q == j * d_int + t,
                        0 <= t < d_int,
                        0 <= j < indices@.len(),
                ;
                assert(bits[p] == extracted_bits(samples@, indices@, lsb_deep as nat)[q]);
                assert(extracted_bits(samples@, indices@, lsb_deep as nat)[q] == sample_bit(
                    samples@[indices@[j as int] as int],
                    lsb_deep as nat,
                    t as int,
                ));
                assert(bits[p] == bit);
                let sub = bits.subrange(8 * kk, p);
                crate::bits::lemma_bits_val_bound(sub);
                assert(sub.len() == nb as int);
                assert(pow2(7) == 128) by {
                    vstd::arithmetic::power2::lemma2_to64();
                }
                if (nb as nat) < 7 {
                    vstd::arithmetic::power2::lemma_pow2_strictly_increases(nb as nat, 7);
                }
                assert(cb < 128);
                assert(bits.subrange(8 * kk, p + 1) =~= sub.push(bits[p]));
                assert(bits.subrange(8 * kk, p + 1).drop_last() =~= sub);
            }
            cb = cb * 2 + (if bit {
                1
            } else {
                0
            });
            nb = nb + 1;
            t = t + 1;
            if nb == 8 {
                proof {
                    let sub8 = bits.subrange(8 * kk, 8 * kk + 8);
                    assert(8 * kk + 8 == p + 1);
                    crate::bits::lemma_bits_val_bound(sub8);
                    assert(pow2(8) == 256) by {
                        vstd::arithmetic::power2::lemma2_to64();
                    }
                    assert(kk + 1 <= bits.len() / 8) by (nonlinear_arith)
                        requires
                            8 * (kk + 1) <= bits.len(),
                    ;
                    assert(bits_to_bytes(bits)[kk] == cb);
                    assert(bits_to_bytes(bits).take(kk + 1) =~= bits_to_bytes(bits).take(
                        kk,
                    ).push(cb));
                }
                out.push(cb);
                cb = 0;
                nb = 0;
                proof {
                    assert(bits.subrange(8 * (out@.len() as int), p + 1) =~= Seq::<bool>::empty());
                }
            }
        }
        proof {
            assert((j as int + 1) * d_int == j as int * d_int + d_int) by (nonlinear_arith);
        }
        j = j + 1;
    }
    proof {
        assert(current_bit + indices@.len() * d_int == bits.len());
        assert(out@.len() == bits.len() / 8) by (nonlinear_arith)
            requires
                out@.len() * 8 + nb == bits.len(),
                0 <= nb < 8,
                0 <= out@.len(),
        ;
        assert(out@ =~= bits_to_bytes(bits));
    }
    out
}

/// How samples are stored in a WAV container.
#[derive(Clone, Copy, PartialEq, Eq, Structural, Debug)]
pub enum WavSampleFormat {
    Int,
    Float,
}

/// The container metadata needed to re-emit a decoded WAV byte stream.
#[derive(Clone, Copy, PartialEq, Eq, Structural, Debug)]
pub struct AudioSpec {
    pub channels: u16,
    pub sample_rate: u32,
    pub bits_per_sample: u16,
    pub sample_format: WavSampleFormat,
}

/// The container metadata of a decoded audio byte stream, tagged by format.
#[derive(Clone, Copy, PartialEq, Eq, Structural, Debug)]
pub enum AudioFileSpec {
    Wav(AudioSpec),
}

/// Reads bytes out of the depth-`lsb_deep` windows of the samples selected by
/// an index sequence. All bytes are unpacked up front; `next` hands them out
/// one at a time.
pub struct ByteIterator {
    bytes: Vec<u8>,
    pos: usize,
}

impl ByteIterator {
    pub closed spec fn wf(self) -> bool {
        self.pos <= self.bytes@.len()
    }

    /// The bytes this iterator has not yet handed out.
    pub closed spec fn remaining(self) -> Seq<u8> {
        self.bytes@.skip(self.pos as int)
    }

    /// The `mask` argument mirrors the depth: it is the value with the low
    /// `lsb_deep` bits set. The unpacking itself derives everything from
    /// `lsb_deep`.
    pub fn new(
        samples: &Vec<i16>,
        indices: Vec<usize>,
        _mask: i16,
        lsb_deep: u8,
        current_byte: u8,
        current_bit: u8,
    ) -> (r: ByteIterator)
        requires
            1 <= lsb_deep <= 16,
            forall|j: int| 0 <= j < indices@.len() ==> (#[trigger] indices@[j]) < samples@.len(),
            current_bit < 8,
            (current_byte as nat) < pow2(current_bit as nat),
        ensures
            r.wf(),
            r.remaining() =~= bits_to_bytes(
                partial_bits(current_byte, current_bit as nat) + extracted_bits(
                    samples@,
                    indices@,
                    lsb_deep as nat,
                ),
            ),
    {
        let bytes = unpack_bytes(samples, &indices, lsb_deep, current_byte, current_bit);
        ByteIterator { bytes, pos: 0 }
    }

    /// The next unpacked byte, if one is left.
    pub fn next(&mut self) -> (r: Option<u8>)
        requires
            old(self).wf(),
        ensures
            final(self).wf(),
            match r {
                Some(b) => old(self).remaining().len() > 0 && b == old(self).remaining()[0]
                    && final(self).remaining() =~= old(self).remaining().drop_first(),
                None => old(self).remaining().len() == 0 && final(self).remaining() =~= old(
                    self,
                ).remaining(),
            },
    {
        if self.pos < self.bytes.len() {
            let b = self.bytes[self.pos];
            self.pos = self.pos + 1;
            Some(b)
        } else {
            None
        }
    }

    /// All bytes this iterator would still hand out, in order.
    pub fn collect_bytes(self) -> (r: Vec<u8>)
        requires
            self.wf(),
        ensures
            r@ =~= self.remaining(),
    {
        let mut it = self;
        let mut out: Vec<u8> = Vec::new();
        loop
            invariant
                it.wf(),
                out@ + it.remaining() =~= self.remaining(),
            decreases it.remaining().len(),
        {
            match it.next() {
                Some(b) => {
                    out.push(b);
                },
                None => {
                    proof {
                        assert(out@ =~= self.remaining());
                    }
                    return out;
                },
            }
        }
    }
}

/// Whether two strings hold the same characters, decided on their UTF-8
/// bytes: the encoding is injective, so equal bytes mean equal characters.
pub fn str_eq(a: &str, b: &str) -> (r: bool)
    ensures
        r == (a@ == b@),
{
    let av = a.as_bytes_vec();
    let bv = b.as_bytes_vec();
    if av.len() != bv.len() {
        proof {
            assert(a@ != b@);
        }
        return false;
    }
    let mut i: usize = 0;
    while i < av.len()
        invariant
            i <= av@.len(),
            av@.len() == bv@.len(),
            av@ =~= encode_utf8(a@),
            bv@ =~= encode_utf8(b@),
            forall|j: int| 0 <= j < i ==> av@[j] == bv@[j],
        decreases av@.len() - i,
    {
        if av[i] != bv[i] {
            proof {
                assert(encode_utf8(a@) != encode_utf8(b@));
            }
            return false;
        }
        i = i + 1;
    }
    proof {
        assert(encode_utf8(a@) =~= encode_utf8(b@));
        encode_utf8_decode_utf8(a@);
        encode_utf8_decode_utf8(b@);
    }
    true
}

/// Relies on `String::from_utf8`: it succeeds exactly on valid UTF-8 and
/// returns the string whose UTF-8 encoding is the input; on failure the
/// empty string is substituted.
#[verifier::external_body]
pub(crate) fn utf8_or_empty(bytes: Vec<u8>) -> (r: String)
    ensures
        valid_utf8(bytes@) ==> r@ == decode_utf8(bytes@),
        !valid_utf8(bytes@) ==> r@ =~= Seq::<char>::empty(),
{
    String::from_utf8(bytes).unwrap_or_default()
}

} // verus!

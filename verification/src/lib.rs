//! Audio steganography for 16-bit PCM WAV: a password-derived stream of
//! sample indices selects which samples carry the payload, and the low
//! `lsb_deep` bits of each selected sample hold the payload bits.

use vstd::prelude::*;

pub mod bits;
pub mod cli;
pub mod configuration;
pub mod error;
pub mod formats;
pub mod grpc;
pub mod laws;
pub mod object;
pub mod rest;

verus! {

/// Number of payload bits that `samples_len` samples can carry at depth
/// `lsb_deep` when only `max_occupancy` percent of the samples may be touched.
pub open spec fn usable_bits(samples_len: nat, lsb_deep: nat, max_occupancy: nat) -> nat {
    (samples_len * lsb_deep * max_occupancy) / 100
}

} // verus!

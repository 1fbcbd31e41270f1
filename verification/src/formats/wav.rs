//! The steganography codec for 16-bit integer PCM WAV: capacity arithmetic,
//! embedding, extraction and clearing over the low `lsb_deep` bits of the
//! samples that the password-derived index stream visits, and the WAV
//! container round-trip on in-memory byte buffers.

use crate::bits::{bits_to_bytes, bits_val, byte_bit, bytes_to_bits, frame_bit};
use crate::configuration::{header_bytes_wf, Settings};
use crate::error::{ResultStego, StegoError};
use crate::object::{
    extracted_bits, index_sequence, partial_bits, password_seed, spec_max_count, stream_completes,
    unpack_bytes, utf8_or_empty, AudioFileSpec, AudioSpec, UniqueRandomIndices, WavSampleFormat,
};
use crate::usable_bits;
use vstd::arithmetic::power2::pow2;
use vstd::prelude::*;
use vstd::string::StrSliceExecFns;
use vstd::string::StringExecFns;
use vstd::utf8::{decode_utf8, encode_utf8, valid_utf8};

verus! {

/// A steganography encoder/decoder for 16-bit WAV audio.
///
/// `lsb_deep` is the number of low bits of each visited sample that carry
/// payload; the settings supply the header marker and the occupancy
/// percentage. Values are only built through `WAV16::builder`, which checks
/// all three.
#[derive(Debug)]
pub struct WAV16 {
    lsb_deep: u8,
    settings: Settings,
}

impl WAV16 {
    #[verifier::type_invariant]
    spec fn type_inv(self) -> bool {
        &&& 1 <= self.lsb_deep <= 16
        &&& self.settings.stego_wave_lib.codec_wf()
    }

    /// The depth: how many low bits of each visited sample carry payload.
    pub closed spec fn spec_lsb_deep(self) -> u8 {
        self.lsb_deep
    }

    /// The header marker, as characters.
    pub closed spec fn spec_header(self) -> Seq<char> {
        self.settings.stego_wave_lib.header@
    }

    /// The header marker, as the bytes that are embedded.
    pub open spec fn spec_header_bytes(self) -> Seq<u8> {
        encode_utf8(self.spec_header())
    }

    /// The occupancy percentage.
    pub closed spec fn spec_max_occupancy(self) -> usize {
        self.settings.stego_wave_lib.max_occupancy
    }

    pub fn builder() -> (r: WAV16Builder)
        ensures
            r.spec_lsb_deep_opt() is None,
            r.spec_settings_opt() is None,
    {
        WAV16Builder::default()
    }

    pub fn max_occupancy(&self) -> (r: usize)
        ensures
            r == self.spec_max_occupancy(),
    {
        self.settings.stego_wave_lib.max_occupancy
    }

    pub fn header(&self) -> (r: &str)
        ensures
            r@ == self.spec_header(),
    {
        self.settings.stego_wave_lib.header.as_str()
    }

    /// The sample-sized mask with the low `lsb_deep` bits set: the window of
    /// each visited sample that carries payload.
    pub fn get_mask(&self) -> (r: i16)
        ensures
            (r as u16) as nat == pow2(self.spec_lsb_deep() as nat) - 1,
    {
        proof {
            use_type_invariant(self);
            assert(pow2(16) == 0x10000) by {
                vstd::arithmetic::power2::lemma2_to64();
            }
            if (self.lsb_deep as nat) < 16 {
                vstd::arithmetic::power2::lemma_pow2_strictly_increases(self.lsb_deep as nat, 16);
            }
            vstd::bits::lemma_u32_shl_is_mul(1u32, self.lsb_deep as u32);
            vstd::arithmetic::power2::lemma_pow2_pos(self.lsb_deep as nat);
        }
        let m32: u32 = (1u32 << (self.lsb_deep as u32)) - 1;
        let m16: u16 = m32 as u16;
        proof {
            assert(((m16 as i16) as u16) == m16) by (bit_vector);
        }
        m16 as i16
    }

    /// How many payload bits a message of `msg_len` bytes needs is
    /// `msg_len * 8`; they must fit in the usable bits of the buffer. On
    /// failure the error carries the number of samples that would be needed.
    ///
    /// This bound rounds once, after multiplying by the depth, while the
    /// index stream caps its length before: `usable_bits` can exceed
    /// `lsb_deep * (samples_len * occupancy / 100)` by up to `lsb_deep - 1`
    /// bits. At depths above eight a frame can therefore pass this check yet
    /// not fit into the visited windows, and extraction then reports that the
    /// message could not be received; both the accepted boundary and the
    /// reported sample count are kept as they are so that observable values
    /// stay stable. The round-trip law is stated over the stream's tighter
    /// bound.
    fn is_enough_samples(&self, msg_len: usize, samples_len: usize) -> (r: ResultStego<()>)
        requires
            msg_len * 800 < usize::MAX,
        ensures
            match r {
                Ok(()) => 8 * msg_len <= usable_bits(
                    samples_len as nat,
                    self.spec_lsb_deep() as nat,
                    self.spec_max_occupancy() as nat,
                ),
                Err(StegoError::NotEnoughSamples(req)) => {
                    &&& 8 * msg_len > usable_bits(
                        samples_len as nat,
                        self.spec_lsb_deep() as nat,
                        self.spec_max_occupancy() as nat,
                    )
                    &&& req == required_samples(
                        msg_len as nat,
                        self.spec_lsb_deep() as nat,
                        self.spec_max_occupancy() as nat,
                    )
                },
                Err(_) => false,
            },
    {
        proof {
            use_type_invariant(self);
        }
        let occ = self.settings.stego_wave_lib.max_occupancy;
        let d = self.lsb_deep;
        let msg_bits: u128 = (msg_len as u128) * 8;
        proof {
            let sl = samples_len as int;
            let dd = d as int;
            let oo = occ as int;
            assert(sl * dd < 0x10000000000000000 * 16 && sl * dd * oo < 0x10000000000000000
                * 1600) by (nonlinear_arith)
                requires
                    0 <= sl < 0x10000000000000000,
                    0 <= dd <= 16,
                    0 <= oo <= 100,
            ;
        }
        let total_bits: u128 = (samples_len as u128) * (d as u128) * (occ as u128) / 100;
        if msg_bits > total_bits {
            let required_bits: u128 = msg_bits * 100 / (occ as u128);
            let required_samples_w: u128 = required_bits / (d as u128);
            proof {
                assert(required_bits <= msg_bits * 100) by (nonlinear_arith)
                    requires
                        required_bits == msg_bits * 100 / (occ as int),
                        1 <= occ as int,
                        0 <= msg_bits,
                ;
                assert(required_samples_w <= required_bits) by (nonlinear_arith)
                    requires
                        required_samples_w == (required_bits as int) / (d as int),
                        1 <= d as int,
                        0 <= required_bits,
                ;
            }
            return Err(StegoError::NotEnoughSamples((required_samples_w as usize) + 1));
        }
        Ok(())
    }

    /// Hides `message` in `samples`: the frame `header || message || NUL` is
    /// split into depth-sized chunks, and chunk `j` replaces the low bits of
    /// the sample at index `j` of the password-derived stream. Nothing is
    /// written unless the frame passes the capacity check (see
    /// `is_enough_samples` for the fencepost at depths above eight).
    #[verifier::loop_isolation(false)]
    pub fn hide_message_binary(&self, samples: &mut Vec<i16>, message: &str, password: &str) -> (r:
        ResultStego<()>)
        requires
            (self.spec_header_bytes().len() + encode_utf8(message@).len() + 1) * 800
                < usize::MAX,
        ensures
            final(samples)@.len() == old(samples)@.len(),
            ({
                let n = old(samples)@.len() as usize;
                let occ = self.spec_max_occupancy();
                let d = self.spec_lsb_deep() as nat;
                let total = self.spec_header_bytes().len() + encode_utf8(message@).len() + 1;
                match r {
                    Ok(()) => {
                        &&& 8 * total <= usable_bits(n as nat, d, occ as nat)
                        &&& stream_ready(password@, n, occ)
                        &&& final(samples)@ =~= embed_spec(
                            old(samples)@,
                            self.spec_header_bytes(),
                            encode_utf8(message@),
                            d,
                            stream_of(password@, n, occ),
                        )
                    },
                    Err(StegoError::NotEnoughSamples(req)) => {
                        &&& 8 * total > usable_bits(n as nat, d, occ as nat)
                        &&& req == required_samples(total, d, occ as nat)
                        &&& final(samples)@ =~= old(samples)@
                    },
                    Err(StegoError::Other(_)) => {
                        &&& 8 * total <= usable_bits(n as nat, d, occ as nat)
                        &&& !stream_ready(password@, n, occ)
                        &&& final(samples)@ =~= old(samples)@
                    },
                    Err(_) => false,
                }
            }),
    {
        proof {
            use_type_invariant(self);
        }
        let header_b = self.settings.stego_wave_lib.header.as_str().as_bytes_vec();
        let mut msg_b = message.as_bytes_vec();
        let total_bytes = header_b.len() + msg_b.len() + 1;
        if let Err(e) = self.is_enough_samples(total_bytes, samples.len()) {
            return Err(e);
        }
        let mut frame = header_b;
        frame.append(&mut msg_b);
        frame.push(0u8);
        proof {
            assert(frame@ =~= frame_bytes(self.spec_header_bytes(), encode_utf8(message@)));
        }
        let d = self.lsb_deep;
        let mut stream = UniqueRandomIndices::new(
            samples.len(),
            password,
            self.settings.stego_wave_lib.max_occupancy,
        );
        let idx = match stream.collect_indices() {
            Some(v) => v,
            None => {
                return Err(
                    StegoError::Other(
                        String::from_str("index stream exhausted its draw budget"),
                    ),
                );
            },
        };
        let ghost bits = bytes_to_bits(frame@);
        let ghost ln = bits.len() as int;
        let ghost dd = d as int;
        let ghost w = written_count(ln, d as nat, idx@.len() as int);
        let frame_bits = frame.len() * 8;
        proof {
            assert(ln == 8 * frame@.len());
            assert(ln >= 8);
        }
        let mut j: usize = 0;
        let mut pos: usize = 0;
        let mut done = false;
        while j < idx.len() && !done
            invariant
                j <= idx@.len(),
                pos == j * dd,
                frame_bits == ln,
                done == (j * dd >= ln),
                done ==> j >= 1 && (j - 1) * dd < ln,
                samples@ =~= embed_upto(old(samples)@, bits, idx@, d as nat, j as int),
                samples@.len() == old(samples)@.len(),
            decreases idx@.len() - j,
        {
            let ghost samples_at_j = samples@;
            proof {
                assert(pow2(0) == 1) by {
                    vstd::arithmetic::power2::lemma2_to64();
                }
                assert(chunk_bits(bits, j as int, d as nat).take(0) =~= Seq::<bool>::empty());
            }
            let i = idx[j];
            let mut value: u16 = 0;
            let mut t: u8 = 0;
            while t < d
                invariant
                    t <= d,
                    pos == j * dd + t,
                    j < idx@.len(),
                    value as nat == bits_val(chunk_bits(bits, j as int, d as nat).take(t as int)),
                    (value as nat) < pow2(t as nat),
                    samples@ =~= samples_at_j,
                decreases d - t,
            {
                let bit = if pos < frame_bits {
                    byte_window_bit(frame[pos / 8], (pos % 8) as u8)
                } else {
                    false
                };
                proof {
                    let cb = chunk_bits(bits, j as int, d as nat);
                    assert(bit == frame_bit(bits, pos as int));
                    assert(cb[t as int] == frame_bit(bits, pos as int));
                    assert(cb.take(t as int + 1) =~= cb.take(t as int).push(cb[t as int]));
                    assert(cb.take(t as int + 1).drop_last() =~= cb.take(t as int));
                    assert(pow2((t + 1) as nat) == 2 * pow2(t as nat)) by {
                        vstd::arithmetic::power2::lemma_pow2_unfold((t + 1) as nat);
                    }
                    if (t as nat) < 15 {
                        vstd::arithmetic::power2::lemma_pow2_strictly_increases(t as nat, 15);
                    }
                    assert(pow2(15) == 0x8000) by {
                        vstd::arithmetic::power2::lemma2_to64();
                    }
                }
                value = value * 2 + (if bit {
                    1
                } else {
                    0
                });
                pos = pos + 1;
                t = t + 1;
            }
            proof {
                assert(chunk_bits(bits, j as int, d as nat).take(d as int) =~= chunk_bits(
                    bits,
                    j as int,
                    d as nat,
                ));
            }
            let s = samples[i];
            let x16: u16 = s as u16;
            let pd: u32 = 1u32 << (d as u32);
            proof {
                assert(pow2(16) == 0x10000) by {
                    vstd::arithmetic::power2::lemma2_to64();
                }
                if (d as nat) < 16 {
                    vstd::arithmetic::power2::lemma_pow2_strictly_increases(d as nat, 16);
                }
                vstd::bits::lemma_u32_shl_is_mul(1u32, d as u32);
                assert(pd as nat == pow2(d as nat));
                lemma_embed_one_fits(x16 as nat, value as nat, d as nat);
            }
            let y: u32 = ((x16 as u32) / pd) * pd + (value as u32);
            let v_new: i16 = (y as u16) as i16;
            samples[i] = v_new;
            proof {
                assert(v_new == embed_one(
                    samples_at_j[i as int],
                    chunk_val(bits, j as int, d as nat),
                    d as nat,
                ));
                assert(samples@ =~= embed_upto(
                    old(samples)@,
                    bits,
                    idx@,
                    d as nat,
                    j as int + 1,
                ));
                assert((j as int + 1) * dd == j as int * dd + dd) by (nonlinear_arith);
            }
            if pos >= frame_bits {
                done = true;
            }
            j = j + 1;
        }
        proof {
            let m = idx@.len() as int;
            let full = (ln + dd - 1) / dd;
            if done {
                assert(j * dd >= ln);
                assert((j - 1) * dd < ln);
                assert(j as int == full) by {
                    assert((j as int) * dd == (j as int - 1) * dd + dd) by (nonlinear_arith);
                    vstd::arithmetic::div_mod::lemma_fundamental_div_mod_converse_div(
                        ln + dd - 1,
                        dd,
                        j as int,
                        ln + dd - 1 - (j as int) * dd,
                    );
                }
                assert(j as int == w);
            } else {
                assert(j as int == m);
                assert(j * dd < ln);
                assert(m <= full) by {
                    vstd::arithmetic::div_mod::lemma_div_multiples_vanish(m, dd);
                    vstd::arithmetic::div_mod::lemma_div_is_ordered(m * dd, ln + dd - 1, dd);
                    assert(m * dd == dd * m) by (nonlinear_arith);
                }
                assert(j as int == w);
            }
            assert(samples@ =~= embed_spec(
                old(samples)@,
                self.spec_header_bytes(),
                encode_utf8(message@),
                d as nat,
                idx@,
            ));
        }
        Ok(())
    }

    /// Extracts the hidden message: the password re-derives the index stream,
    /// the visited samples are read back into bytes, the first bytes must
    /// equal the header, and the message runs up to the first NUL after it.
    #[verifier::loop_isolation(false)]
    pub fn extract_message_binary(&self, samples: &Vec<i16>, password: &str) -> (r: ResultStego<
        String,
    >)
        ensures
            ({
                let n = samples@.len() as usize;
                let occ = self.spec_max_occupancy();
                let d = self.spec_lsb_deep() as nat;
                let hb = self.spec_header_bytes();
                let b = unpacked_bytes(samples@, password@, n, occ, d);
                let z = first_zero_at(b, hb.len() as int);
                match r {
                    Ok(s) => {
                        &&& stream_ready(password@, n, occ)
                        &&& header_ok(b, hb)
                        &&& z >= hb.len()
                        &&& (valid_utf8(b.subrange(hb.len() as int, z)) ==> s@ == decode_utf8(
                            b.subrange(hb.len() as int, z),
                        ))
                        &&& (!valid_utf8(b.subrange(hb.len() as int, z)) ==> s@
                            == Seq::<char>::empty())
                    },
                    Err(StegoError::IncorrectPassword) => {
                        &&& stream_ready(password@, n, occ)
                        &&& !header_ok(b, hb)
                    },
                    Err(StegoError::FailedToReceiveMessage) => {
                        &&& stream_ready(password@, n, occ)
                        &&& header_ok(b, hb)
                        &&& z == -1
                    },
                    Err(StegoError::Other(_)) => !stream_ready(password@, n, occ),
                    Err(_) => false,
                }
            }),
    {
        proof {
            use_type_invariant(self);
        }
        let mut stream = UniqueRandomIndices::new(
            samples.len(),
            password,
            self.settings.stego_wave_lib.max_occupancy,
        );
        let idx = match stream.collect_indices() {
            Some(v) => v,
            None => {
                return Err(
                    StegoError::Other(
                        String::from_str("index stream exhausted its draw budget"),
                    ),
                );
            },
        };
        proof {
            assert(pow2(0) == 1) by {
                vstd::arithmetic::power2::lemma2_to64();
            }
        }
        let b = unpack_bytes(samples, &idx, self.lsb_deep, 0, 0);
        proof {
            assert(partial_bits(0, 0) =~= Seq::<bool>::empty());
            assert(partial_bits(0, 0) + extracted_bits(samples@, idx@, self.lsb_deep as nat)
                =~= extracted_bits(samples@, idx@, self.lsb_deep as nat));
            assert(b@ =~= unpacked_bytes(
                samples@,
                password@,
                samples@.len() as usize,
                self.spec_max_occupancy(),
                self.spec_lsb_deep() as nat,
            ));
        }
        let hb = self.settings.stego_wave_lib.header.as_str().as_bytes_vec();
        if b.len() < hb.len() {
            return Err(StegoError::IncorrectPassword);
        }
        let mut i: usize = 0;
        while i < hb.len()
            invariant
                i <= hb@.len(),
                hb@.len() <= b@.len(),
                forall|q: int| 0 <= q < i ==> b@[q] == hb@[q],
            decreases hb@.len() - i,
        {
            if b[i] != hb[i] {
                proof {
                    assert(b@.take(hb@.len() as int)[i as int] != hb@[i as int]);
                }
                return Err(StegoError::IncorrectPassword);
            }
            i = i + 1;
        }
        proof {
            assert(b@.take(hb@.len() as int) =~= hb@);
        }
        let mut pos: usize = hb.len();
        let mut result: Vec<u8> = Vec::new();
        while pos < b.len()
            invariant
                hb@.len() <= pos <= b@.len(),
                first_zero_at(b@, hb@.len() as int) == first_zero_at(b@, pos as int),
                result@ =~= b@.subrange(hb@.len() as int, pos as int),
            decreases b@.len() - pos,
        {
            let byte = b[pos];
            if byte == 0 {
                proof {
                    assert(first_zero_at(b@, pos as int) == pos);
                }
                return Ok(utf8_or_empty(result));
            }
            result.push(byte);
            proof {
                assert(first_zero_at(b@, pos as int) == first_zero_at(b@, pos as int + 1));
                assert(b@.subrange(hb@.len() as int, pos as int + 1) =~= b@.subrange(
                    hb@.len() as int,
                    pos as int,
                ).push(b@[pos as int]));
            }
            pos = pos + 1;
        }
        proof {
            assert(first_zero_at(b@, pos as int) == -1);
        }
        Err(StegoError::FailedToReceiveMessage)
    }

    /// Clears any hidden message: the password must validate against the
    /// header first; then the low window of every visited sample is zeroed,
    /// whatever it held, and the call succeeds once validation has.
    #[verifier::loop_isolation(false)]
    pub fn clear_secret_message_binary(&self, samples: &mut Vec<i16>, password: &str) -> (r:
        ResultStego<()>)
        ensures
            final(samples)@.len() == old(samples)@.len(),
            ({
                let n = old(samples)@.len() as usize;
                let occ = self.spec_max_occupancy();
                let d = self.spec_lsb_deep() as nat;
                let hb = self.spec_header_bytes();
                let b = unpacked_bytes(old(samples)@, password@, n, occ, d);
                match r {
                    Ok(()) => {
                        &&& stream_ready(password@, n, occ)
                        &&& header_ok(b, hb)
                        &&& final(samples)@ =~= clear_spec(
                            old(samples)@,
                            stream_of(password@, n, occ),
                            d,
                        )
                    },
                    Err(StegoError::IncorrectPassword) => {
                        &&& stream_ready(password@, n, occ)
                        &&& !header_ok(b, hb)
                        &&& final(samples)@ =~= old(samples)@
                    },
                    Err(StegoError::Other(_)) => {
                        &&& !stream_ready(password@, n, occ)
                        &&& final(samples)@ =~= old(samples)@
                    },
                    Err(_) => false,
                }
            }),
    {
        proof {
            use_type_invariant(self);
        }
        let mut stream = UniqueRandomIndices::new(
            samples.len(),
            password,
            self.settings.stego_wave_lib.max_occupancy,
        );
        let idx = match stream.collect_indices() {
            Some(v) => v,
            None => {
                return Err(
                    StegoError::Other(
                        String::from_str("index stream exhausted its draw budget"),
                    ),
                );
            },
        };
        proof {
            assert(pow2(0) == 1) by {
                vstd::arithmetic::power2::lemma2_to64();
            }
        }
        let b = unpack_bytes(samples, &idx, self.lsb_deep, 0, 0);
        proof {
            assert(partial_bits(0, 0) =~= Seq::<bool>::empty());
            assert(partial_bits(0, 0) + extracted_bits(samples@, idx@, self.lsb_deep as nat)
                =~= extracted_bits(samples@, idx@, self.lsb_deep as nat));
            assert(b@ =~= unpacked_bytes(
                samples@,
                password@,
                samples@.len() as usize,
                self.spec_max_occupancy(),
                self.spec_lsb_deep() as nat,
            ));
        }
        let hb = self.settings.stego_wave_lib.header.as_str().as_bytes_vec();
        if b.len() < hb.len() {
            return Err(StegoError::IncorrectPassword);
        }
        let mut i: usize = 0;
        while i < hb.len()
            invariant
                i <= hb@.len(),
                hb@.len() <= b@.len(),
                forall|q: int| 0 <= q < i ==> b@[q] == hb@[q],
            decreases hb@.len() - i,
        {
            if b[i] != hb[i] {
                proof {
                    assert(b@.take(hb@.len() as int)[i as int] != hb@[i as int]);
                }
                return Err(StegoError::IncorrectPassword);
            }
            i = i + 1;
        }
        proof {
            assert(b@.take(hb@.len() as int) =~= hb@);
        }
        // Zero the low window of every visited sample, to stream exhaustion.
        let d = self.lsb_deep;
        let ghost dd = d as int;
        let mut j: usize = 0;
        while j < idx.len()
            invariant
                j <= idx@.len(),
                samples@ =~= clear_upto(old(samples)@, idx@, d as nat, j as int),
                samples@.len() == old(samples)@.len(),
            decreases idx@.len() - j,
        {
            let ghost samples_at_j = samples@;
            let i2 = idx[j];
            let s = samples[i2];
            let x16: u16 = s as u16;
            let pd: u32 = 1u32 << (d as u32);
            proof {
                assert(pow2(16) == 0x10000) by {
                    vstd::arithmetic::power2::lemma2_to64();
                }
                if (d as nat) < 16 {
                    vstd::arithmetic::power2::lemma_pow2_strictly_increases(d as nat, 16);
                }
                vstd::bits::lemma_u32_shl_is_mul(1u32, d as u32);
                assert(pd as nat == pow2(d as nat));
                vstd::arithmetic::power2::lemma_pow2_pos(d as nat);
                lemma_embed_one_fits(x16 as nat, 0, d as nat);
            }
            let y: u32 = ((x16 as u32) / pd) * pd;
            let v_new: i16 = (y as u16) as i16;
            samples[i2] = v_new;
            proof {
                assert(v_new == zero_low(samples_at_j[i2 as int], d as nat));
                assert(samples@ =~= clear_upto(old(samples)@, idx@, d as nat, j as int + 1));
            }
            j = j + 1;
        }
        Ok(())
    }

    /// Decodes a complete WAV byte buffer into its samples and spec. Only
    /// 16-bit files are accepted; anything else is rejected before any work.
    pub fn read_samples_from_byte(&self, byte: Vec<u8>) -> (r: ResultStego<
        (Vec<i16>, AudioFileSpec),
    >)
        ensures
            match r {
                Ok((samples, fspec)) => wav_decode(byte@) matches Some((sp, ss)) && samples@ == ss
                    && fspec == AudioFileSpec::Wav(sp) && sp.bits_per_sample == 16,
                Err(StegoError::InvalidFile(msg)) => {
                    &&& wav_decode(byte@) matches Some((sp, ss)) && sp.bits_per_sample != 16
                    &&& msg@ == "Only 16-bit WAV file supported"@
                },
                Err(StegoError::Other(_)) => wav_decode(byte@) is None,
                Err(_) => false,
            },
    {
        match decode_wav_bytes(&byte) {
            Err(WavDecodeFailure::Container) => Err(
                StegoError::Other(String::from_str("Error reading WAV")),
            ),
            Err(WavDecodeFailure::Samples) => Err(
                StegoError::Other(String::from_str("Error reading samples")),
            ),
            Ok((samples, spec)) => {
                if spec.bits_per_sample != 16 {
                    Err(StegoError::InvalidFile(String::from_str("Only 16-bit WAV file supported")))
                } else {
                    Ok((samples, AudioFileSpec::Wav(spec)))
                }
            },
        }
    }

    /// Re-emits samples as a WAV byte buffer with the given spec. A
    /// successfully written 16-bit integer buffer decodes back to exactly the
    /// spec and samples that went in.
    pub fn write_samples_to_byte(&self, spec: AudioFileSpec, samples: &Vec<i16>) -> (r: ResultStego<
        Vec<u8>,
    >)
        ensures
            ({
                let AudioFileSpec::Wav(sp) = spec;
                match r {
                    Ok(b) => wav_spec_writable(sp, samples@.len() as int) && ((sp.bits_per_sample
                        == 16 && sp.sample_format is Int) ==> wav_decode(b@) == Some(
                        (sp, samples@),
                    )),
                    Err(StegoError::HoundError(m)) => !wav_spec_writable(
                        sp,
                        samples@.len() as int,
                    ) ==> m@ == "unsupported WAV spec"@,
                    Err(StegoError::Other(m)) => wav_spec_writable(sp, samples@.len() as int) && (
                    m@ == "Error writing sample"@ || m@ == "Error finalizing writer"@),
                    Err(_) => false,
                }
            }),
            ({
                let AudioFileSpec::Wav(sp) = spec;
                (wav_spec_writable(sp, samples@.len() as int) && sp.bits_per_sample == 16
                    && sp.sample_format is Int && samples@.len() as int % (sp.channels as int)
                    == 0) ==> r is Ok
            }),
    {
        let AudioFileSpec::Wav(sp) = spec;
        let is_float = match sp.sample_format {
            WavSampleFormat::Float => true,
            WavSampleFormat::Int => false,
        };
        if is_float && sp.bits_per_sample != 32 {
            return Err(StegoError::HoundError(String::from_str("unsupported WAV spec")));
        }
        if sp.channels < 1 || sp.sample_rate < 1 {
            return Err(StegoError::HoundError(String::from_str("unsupported WAV spec")));
        }
        let bps: u64 = ((sp.bits_per_sample as u64) + 7) / 8;
        proof {
            assert((bps as int) * (sp.channels as int) <= 8192 * 0x10000) by (nonlinear_arith)
                requires
                    0 <= (bps as int) <= 8192,
                    0 <= (sp.channels as int) <= 0x10000,
            ;
        }
        if bps * (sp.channels as u64) > (u16::MAX as u64) {
            return Err(StegoError::HoundError(String::from_str("unsupported WAV spec")));
        }
        proof {
            assert((sp.sample_rate as int) * (bps as int) <= 0x100000000 * 8192
                && (sp.sample_rate as int) * (bps as int) * (sp.channels as int) <= 0x100000000
                * 8192 * 0x10000) by (nonlinear_arith)
                requires
                    0 <= (sp.sample_rate as int) <= 0x100000000,
                    0 <= (bps as int) <= 8192,
                    0 <= (sp.channels as int) <= 0x10000,
            ;
        }
        if (sp.sample_rate as u64) * bps * (sp.channels as u64) > (u32::MAX as u64) {
            return Err(StegoError::HoundError(String::from_str("unsupported WAV spec")));
        }
        let sample_count = samples.len();
        proof {
            let sl = sample_count as int;
            let b = bps as int;
            assert(sl * b < 0x10000000000000000 * 8192) by (nonlinear_arith)
                requires
                    0 <= sl < 0x10000000000000000,
                    0 <= b <= 8192,
            ;
        }
        if (sample_count as u128) * (bps as u128) + 100 > (u32::MAX as u128) {
            return Err(StegoError::HoundError(String::from_str("unsupported WAV spec")));
        }
        match encode_wav_bytes(&sp, samples) {
            Ok(b) => Ok(b),
            Err(WavEncodeFailure::Create(msg)) => Err(StegoError::HoundError(msg)),
            Err(WavEncodeFailure::Write) => Err(
                StegoError::Other(String::from_str("Error writing sample")),
            ),
            Err(WavEncodeFailure::Finalize) => Err(
                StegoError::Other(String::from_str("Error finalizing writer")),
            ),
        }
    }

    /// The file name under which re-emitted audio is offered for download.
    pub fn default_filename(&self) -> (r: String)
        ensures
            r@ == "wav_16.wav"@,
    {
        String::from_str("wav_16.wav")
    }

    /// Hides `message` inside a complete WAV byte buffer and re-emits the
    /// buffer: decode, embed, encode.
    pub fn hide_bytes(&self, wav_in: Vec<u8>, message: &str, password: &str) -> (r: ResultStego<
        Vec<u8>,
    >)
        requires
            (self.spec_header_bytes().len() + encode_utf8(message@).len() + 1) * 800 < usize::MAX,
        ensures
            ({
                let occ = self.spec_max_occupancy();
                let d = self.spec_lsb_deep() as nat;
                let hb = self.spec_header_bytes();
                let mb = encode_utf8(message@);
                let total = hb.len() + mb.len() + 1;
                match r {
                    Ok(out) => wav_decode(wav_in@) matches Some((sp, ss)) && sp.bits_per_sample
                        == 16 && 8 * total <= usable_bits(ss.len(), d, occ as nat) && stream_ready(
                        password@,
                        ss.len() as usize,
                        occ,
                    ) && (sp.sample_format is Int ==> wav_decode(out@) == Some(
                        (
                            sp,
                            embed_spec(
                                ss,
                                hb,
                                mb,
                                d,
                                stream_of(password@, ss.len() as usize, occ),
                            ),
                        ),
                    )),
                    Err(StegoError::InvalidFile(msg)) => wav_decode(wav_in@) matches Some(
                        (sp, ss),
                    ) && sp.bits_per_sample != 16 && msg@ == "Only 16-bit WAV file supported"@,
                    Err(StegoError::NotEnoughSamples(req)) => wav_decode(wav_in@) matches Some(
                        (sp, ss),
                    ) && sp.bits_per_sample == 16 && 8 * total > usable_bits(
                        ss.len(),
                        d,
                        occ as nat,
                    ) && req == required_samples(total, d, occ as nat),
                    Err(StegoError::HoundError(_)) => wav_decode(wav_in@) matches Some((sp, ss))
                        && sp.bits_per_sample == 16,
                    Err(StegoError::Other(_)) => wav_decode(wav_in@) is None || (wav_decode(
                        wav_in@,
                    ) matches Some((sp, ss)) && sp.bits_per_sample == 16 && 8 * total
                        <= usable_bits(ss.len(), d, occ as nat)),
                    Err(_) => false,
                }
            }),
            ({
                let occ = self.spec_max_occupancy();
                let d = self.spec_lsb_deep() as nat;
                let total = self.spec_header_bytes().len() + encode_utf8(message@).len() + 1;
                (wav_decode(wav_in@) matches Some((sp, ss)) && sp.bits_per_sample == 16
                    && sp.sample_format is Int && 8 * total <= usable_bits(ss.len(), d, occ as nat)
                    && stream_ready(password@, ss.len() as usize, occ) && wav_spec_writable(
                    sp,
                    ss.len() as int,
                ) && ss.len() as int % (sp.channels as int) == 0) ==> r is Ok
            }),
    {
        let (mut samples, fspec) = match self.read_samples_from_byte(wav_in) {
            Ok(v) => v,
            Err(e) => return Err(e),
        };
        let n = samples.len();
        if let Err(e) = self.hide_message_binary(&mut samples, message, password) {
            proof {
                assert(n as nat == samples@.len());
            }
            return Err(e);
        }
        self.write_samples_to_byte(fspec, &samples)
    }

    /// Extracts the hidden message from a complete WAV byte buffer: decode,
    /// then read the payload back under the password.
    pub fn extract_bytes(&self, wav_in: Vec<u8>, password: &str) -> (r: ResultStego<String>)
        ensures
            ({
                let occ = self.spec_max_occupancy();
                let d = self.spec_lsb_deep() as nat;
                let hb = self.spec_header_bytes();
                match r {
                    Ok(s) => wav_decode(wav_in@) matches Some((sp, ss)) && sp.bits_per_sample == 16
                        && ({
                        let b = unpacked_bytes(ss, password@, ss.len() as usize, occ, d);
                        let z = first_zero_at(b, hb.len() as int);
                        &&& stream_ready(password@, ss.len() as usize, occ)
                        &&& header_ok(b, hb)
                        &&& z >= hb.len()
                        &&& (valid_utf8(b.subrange(hb.len() as int, z)) ==> s@ == decode_utf8(
                            b.subrange(hb.len() as int, z),
                        ))
                        &&& (!valid_utf8(b.subrange(hb.len() as int, z)) ==> s@
                            == Seq::<char>::empty())
                    }),
                    Err(StegoError::InvalidFile(msg)) => wav_decode(wav_in@) matches Some(
                        (sp, ss),
                    ) && sp.bits_per_sample != 16 && msg@ == "Only 16-bit WAV file supported"@,
                    Err(StegoError::IncorrectPassword) => wav_decode(wav_in@) matches Some(
                        (sp, ss),
                    ) && sp.bits_per_sample == 16 && stream_ready(password@, ss.len() as usize, occ)
                        && !header_ok(
                        unpacked_bytes(ss, password@, ss.len() as usize, occ, d),
                        hb,
                    ),
                    Err(StegoError::FailedToReceiveMessage) => wav_decode(wav_in@) matches Some(
                        (sp, ss),
                    ) && sp.bits_per_sample == 16 && ({
                        let b = unpacked_bytes(ss, password@, ss.len() as usize, occ, d);
                        &&& stream_ready(password@, ss.len() as usize, occ)
                        &&& header_ok(b, hb)
                        &&& first_zero_at(b, hb.len() as int) == -1
                    }),
                    Err(StegoError::Other(_)) => wav_decode(wav_in@) is None || (wav_decode(
                        wav_in@,
                    ) matches Some((sp, ss)) && !stream_ready(password@, ss.len() as usize, occ)),
                    Err(_) => false,
                }
            }),
    {
        let (samples, _fspec) = match self.read_samples_from_byte(wav_in) {
            Ok(v) => v,
            Err(e) => return Err(e),
        };
        let n = samples.len();
        proof {
            assert(n as nat == samples@.len());
        }
        self.extract_message_binary(&samples, password)
    }

    /// Clears the hidden message inside a complete WAV byte buffer and
    /// re-emits the buffer: decode, validate, zero every visited window,
    /// encode.
    pub fn clear_bytes(&self, wav_in: Vec<u8>, password: &str) -> (r: ResultStego<Vec<u8>>)
        ensures
            ({
                let occ = self.spec_max_occupancy();
                let d = self.spec_lsb_deep() as nat;
                let hb = self.spec_header_bytes();
                match r {
                    Ok(out) => wav_decode(wav_in@) matches Some((sp, ss)) && sp.bits_per_sample
                        == 16 && ({
                        let b = unpacked_bytes(ss, password@, ss.len() as usize, occ, d);
                        &&& stream_ready(password@, ss.len() as usize, occ)
                        &&& header_ok(b, hb)
                        &&& (sp.sample_format is Int ==> wav_decode(out@) == Some(
                            (
                                sp,
                                clear_spec(ss, stream_of(password@, ss.len() as usize, occ), d),
                            ),
                        ))
                    }),
                    Err(StegoError::InvalidFile(msg)) => wav_decode(wav_in@) matches Some(
                        (sp, ss),
                    ) && sp.bits_per_sample != 16 && msg@ == "Only 16-bit WAV file supported"@,
                    Err(StegoError::IncorrectPassword) => wav_decode(wav_in@) matches Some(
                        (sp, ss),
                    ) && sp.bits_per_sample == 16 && stream_ready(password@, ss.len() as usize, occ)
                        && !header_ok(
                        unpacked_bytes(ss, password@, ss.len() as usize, occ, d),
                        hb,
                    ),
                    Err(StegoError::HoundError(_)) => wav_decode(wav_in@) matches Some((sp, ss))
                        && sp.bits_per_sample == 16,
                    Err(StegoError::Other(_)) => wav_decode(wav_in@) is None || (wav_decode(
                        wav_in@,
                    ) matches Some((sp, ss)) && sp.bits_per_sample == 16),
                    Err(_) => false,
                }
            }),
            ({
                let occ = self.spec_max_occupancy();
                let d = self.spec_lsb_deep() as nat;
                let hb = self.spec_header_bytes();
                (wav_decode(wav_in@) matches Some((sp, ss)) && sp.bits_per_sample == 16
                    && sp.sample_format is Int && stream_ready(password@, ss.len() as usize, occ)
                    && header_ok(unpacked_bytes(ss, password@, ss.len() as usize, occ, d), hb)
                    && wav_spec_writable(sp, ss.len() as int) && ss.len() as int % (
                sp.channels as int) == 0) ==> r is Ok
            }),
    {
        let (mut samples, fspec) = match self.read_samples_from_byte(wav_in) {
            Ok(v) => v,
            Err(e) => return Err(e),
        };
        let n = samples.len();
        if let Err(e) = self.clear_secret_message_binary(&mut samples, password) {
            proof {
                assert(n as nat == samples@.len());
            }
            return Err(e);
        }
        proof {
            assert(n as nat == samples@.len());
        }
        self.write_samples_to_byte(fspec, &samples)
    }
}

/// The sample count that the capacity error reports: enough samples for the
/// payload at this depth and occupancy, plus one.
pub open spec fn required_samples(msg_len: nat, d: nat, occ: nat) -> nat {
    ((msg_len * 8 * 100) / occ) / d + 1
}

/// The byte sequence that is embedded: header, message, NUL terminator.
pub open spec fn frame_bytes(header: Seq<u8>, msg: Seq<u8>) -> Seq<u8> {
    header + msg + seq![0u8]
}

/// The `d` bits that go into sample number `j`, zero-padded past the end of
/// the frame.
pub open spec fn chunk_bits(bits: Seq<bool>, j: int, d: nat) -> Seq<bool> {
    Seq::new(d, |t: int| frame_bit(bits, j * (d as int) + t))
}

/// The value written into the low window of sample number `j`.
pub open spec fn chunk_val(bits: Seq<bool>, j: int, d: nat) -> nat {
    bits_val(chunk_bits(bits, j, d))
}

/// One sample with its low `d` bits replaced by the chunk value `c`.
pub open spec fn embed_one(s: i16, c: nat, d: nat) -> i16 {
    (((((s as u16) as nat / pow2(d)) * pow2(d) + c) as u16) as i16)
}

/// One sample with its low `d` bits cleared.
pub open spec fn zero_low(s: i16, d: nat) -> i16 {
    (((((s as u16) as nat / pow2(d)) * pow2(d)) as u16) as i16)
}

/// The samples after the first `w` chunks have been written at the first `w`
/// indices.
pub open spec fn embed_upto(samples: Seq<i16>, bits: Seq<bool>, idx: Seq<usize>, d: nat, w: int) -> Seq<
    i16,
>
    decreases w,
{
    if w <= 0 {
        samples
    } else {
        let prev = embed_upto(samples, bits, idx, d, w - 1);
        let i = idx[w - 1] as int;
        prev.update(i, embed_one(prev[i], chunk_val(bits, w - 1, d), d))
    }
}

/// How many samples the embed loop writes: one per chunk of the frame, the
/// last chunk zero-padded, never more than the stream offers.
pub open spec fn written_count(bits_len: int, d: nat, m: int) -> int {
    let full = (bits_len + d - 1) / (d as int);
    if m <= full {
        m
    } else {
        full
    }
}

/// The samples after a frame of `header`, `msg` and a NUL has been embedded
/// along the index sequence `idx` at depth `d`.
pub open spec fn embed_spec(
    samples: Seq<i16>,
    header: Seq<u8>,
    msg: Seq<u8>,
    d: nat,
    idx: Seq<usize>,
) -> Seq<i16> {
    let bits = bytes_to_bits(frame_bytes(header, msg));
    embed_upto(samples, bits, idx, d, written_count(bits.len() as int, d, idx.len() as int))
}

/// The index stream a password derives over `n` samples at occupancy `occ`.
pub open spec fn stream_of(password: Seq<char>, n: usize, occ: usize) -> Seq<usize> {
    index_sequence(password_seed(password), n, spec_max_count(n, occ) as nat)
}

/// Whether that stream produces all its indices within its draw budget.
pub open spec fn stream_ready(password: Seq<char>, n: usize, occ: usize) -> bool {
    stream_completes(password_seed(password), n, spec_max_count(n, occ) as nat)
}

/// The samples after the low windows of the first `w` visited samples have
/// been cleared.
pub open spec fn clear_upto(samples: Seq<i16>, idx: Seq<usize>, d: nat, w: int) -> Seq<i16>
    decreases w,
{
    if w <= 0 {
        samples
    } else {
        let prev = clear_upto(samples, idx, d, w - 1);
        let i = idx[w - 1] as int;
        prev.update(i, zero_low(prev[i], d))
    }
}

/// The samples after the low windows of every visited sample have been
/// cleared.
pub open spec fn clear_spec(samples: Seq<i16>, idx: Seq<usize>, d: nat) -> Seq<i16> {
    clear_upto(samples, idx, d, idx.len() as int)
}

/// The bytes that a password reads back out of a buffer.
pub open spec fn unpacked_bytes(
    samples: Seq<i16>,
    password: Seq<char>,
    n: usize,
    occ: usize,
    d: nat,
) -> Seq<u8> {
    bits_to_bytes(extracted_bits(samples, stream_of(password, n, occ), d))
}

/// Whether a byte stream starts with the header.
pub open spec fn header_ok(b: Seq<u8>, header: Seq<u8>) -> bool {
    b.len() >= header.len() && b.take(header.len() as int) == header
}

/// The position of the first zero byte at or after `from`, or `-1` if there
/// is none.
pub open spec fn first_zero_at(b: Seq<u8>, from: int) -> int
    decreases b.len() - from,
{
    if from < 0 || from >= b.len() {
        -1
    } else if b[from] == 0 {
        from
    } else {
        first_zero_at(b, from + 1)
    }
}

/// What a WAV byte buffer decodes to, if it decodes at all: the container
/// metadata and the 16-bit sample values, a function of the bytes alone.
pub uninterp spec fn wav_decode(bytes: Seq<u8>) -> Option<(AudioSpec, Seq<i16>)>;

/// Which stage of WAV decoding failed.
enum WavDecodeFailure {
    Container,
    Samples,
}

/// Which stage of WAV encoding failed.
enum WavEncodeFailure {
    Create(String),
    Write,
    Finalize,
}

/// Bytes per sample of a spec, as the WAV container stores them.
pub open spec fn spec_bytes_per_sample(sp: AudioSpec) -> int {
    ((sp.bits_per_sample + 7) / 8) as int
}

/// The specs that the WAV writer accepts without panicking and whose size
/// fields fit the container's 32-bit arithmetic for `len` samples.
pub open spec fn wav_spec_writable(sp: AudioSpec, len: int) -> bool {
    &&& (sp.sample_format is Int || sp.bits_per_sample == 32)
    &&& sp.channels >= 1
    &&& sp.sample_rate >= 1
    &&& spec_bytes_per_sample(sp) * (sp.channels as int) <= u16::MAX
    &&& (sp.sample_rate as int) * spec_bytes_per_sample(sp) * (sp.channels as int) <= u32::MAX
    &&& len * spec_bytes_per_sample(sp) + 100 <= u32::MAX
}

/// Relies on `hound::WavReader` (`new`, `spec`, `samples::<i16>`) over an
/// in-memory cursor: whether a byte buffer decodes, and to which spec and
/// samples, is a function of the bytes alone; malformed input yields an
/// error value, not a panic.
#[verifier::external_body]
fn decode_wav_bytes(bytes: &Vec<u8>) -> (r: Result<(Vec<i16>, AudioSpec), WavDecodeFailure>)
    ensures
        match r {
            Ok((samples, spec)) => wav_decode(bytes@) == Some((spec, samples@)),
            Err(_) => wav_decode(bytes@) is None,
        },
{
    let cursor = std::io::Cursor::new(bytes.as_slice());
    let mut reader = match hound::WavReader::new(cursor) {
        Ok(r) => r,
        Err(_) => return Err(WavDecodeFailure::Container),
    };
    let spec = reader.spec();
    let int_fmt = spec.sample_format == hound::SampleFormat::Int;
    let sample_format = if int_fmt { WavSampleFormat::Int } else { WavSampleFormat::Float };
    match reader.samples::<i16>().collect::<Result<Vec<i16>, _>>() {
        Ok(s) => Ok((s, AudioSpec { channels: spec.channels, sample_rate: spec.sample_rate, bits_per_sample: spec.bits_per_sample, sample_format })),
        Err(_) => Err(WavDecodeFailure::Samples),
    }
}

/// Relies on `hound::WavWriter` (`new`, `write_sample::<i16>`, `finalize`)
/// over an in-memory cursor: a successfully finalized 16-bit integer WAV
/// decodes back to the spec and samples that were written, and writing
/// succeeds when the sample count divides evenly over the channels. The
/// precondition keeps out the inputs on which hound panics (float at a width
/// other than 32 bits, zero channels or sample rate), overflows its 32-bit
/// size fields, or truncates the 16-bit block-align field (bytes per sample
/// times channels must fit in it, or the written header no longer decodes).
#[verifier::external_body]
fn encode_wav_bytes(spec: &AudioSpec, samples: &Vec<i16>) -> (r: Result<Vec<u8>, WavEncodeFailure>)
    requires
        wav_spec_writable(*spec, samples@.len() as int),
    ensures
        r matches Ok(b) ==> ((spec.bits_per_sample == 16 && spec.sample_format is Int)
            ==> wav_decode(b@) == Some((*spec, samples@))),
        spec.bits_per_sample == 16 && spec.sample_format is Int && samples@.len() as int % (
        spec.channels as int) == 0 ==> r is Ok,
{
    let int_fmt = matches!(spec.sample_format, WavSampleFormat::Int);
    let fmt = if int_fmt { hound::SampleFormat::Int } else { hound::SampleFormat::Float };
    let hspec = hound::WavSpec { channels: spec.channels, sample_rate: spec.sample_rate, bits_per_sample: spec.bits_per_sample, sample_format: fmt };
    let mut cursor = std::io::Cursor::new(Vec::new());
    let mut writer = match hound::WavWriter::new(&mut cursor, hspec) {
        Ok(w) => w,
        Err(e) => return Err(WavEncodeFailure::Create(format!("{}", e))),
    };
    for s in samples.iter() {
        if writer.write_sample(*s).is_err() { return Err(WavEncodeFailure::Write); }
    }
    if writer.finalize().is_err() { return Err(WavEncodeFailure::Finalize); }
    Ok(cursor.into_inner())
}

/// Bit `i` (most significant first) of byte `b`, read with a shift.
fn byte_window_bit(b: u8, i: u8) -> (r: bool)
    requires
        i < 8,
    ensures
        r == byte_bit(b, i as int),
{
    let sh: u8 = 7 - i;
    let v = (b >> sh) & 1;
    proof {
        vstd::bits::lemma_u8_shr_is_div(b, sh);
        vstd::bits::lemma_u8_low_bits_mask_is_mod(b >> sh, 1);
        vstd::bits::lemma_low_bits_mask_values();
        assert(pow2(1) == 2) by {
            vstd::arithmetic::power2::lemma2_to64();
        }
    }
    v == 1
}

/// Replacing the low window keeps the result within 16 bits.
pub proof fn lemma_embed_one_fits(x: nat, c: nat, d: nat)
    requires
        d <= 16,
        x < pow2(16),
        c < pow2(d),
    ensures
        (x / pow2(d)) * pow2(d) + c < pow2(16),
{
    let pd = pow2(d);
    let ph = pow2((16 - d) as nat);
    vstd::arithmetic::power2::lemma_pow2_adds(d, (16 - d) as nat);
    vstd::arithmetic::power2::lemma_pow2_pos(d);
    vstd::arithmetic::power2::lemma_pow2_pos((16 - d) as nat);
    assert((x / pd) * pd + c < ph * pd) by (nonlinear_arith)
        requires
            x < pd * ph,
            c < pd,
            pd >= 1,
            ph >= 1,
    ;
}

/// Builds a `WAV16`, checking the depth and the configuration.
pub struct WAV16Builder {
    lsb_deep: Option<u8>,
    settings: Option<Settings>,
}

impl WAV16Builder {
    pub closed spec fn spec_lsb_deep_opt(self) -> Option<u8> {
        self.lsb_deep
    }

    pub closed spec fn spec_settings_opt(self) -> Option<Settings> {
        self.settings
    }

    /// Whether this builder holds everything a codec needs.
    pub open spec fn buildable(self) -> bool {
        &&& self.spec_lsb_deep_opt() matches Some(d) && 1 <= d <= 16
        &&& self.spec_settings_opt() matches Some(s) && s.stego_wave_lib.codec_wf()
    }

    pub fn lsb_deep(self, value: u8) -> (r: Self)
        ensures
            r.spec_lsb_deep_opt() == Some(value),
            r.spec_settings_opt() == self.spec_settings_opt(),
    {
        WAV16Builder { lsb_deep: Some(value), settings: self.settings }
    }

    pub fn settings(self, value: Settings) -> (r: Self)
        ensures
            r.spec_lsb_deep_opt() == self.spec_lsb_deep_opt(),
            r.spec_settings_opt() == Some(value),
    {
        WAV16Builder { lsb_deep: self.lsb_deep, settings: Some(value) }
    }

    /// The depth check of the builder: a set depth must lie between 1 and 16.
    fn validate(&self) -> (r: Result<(), String>)
        ensures
            match r {
                Ok(()) => !(self.spec_lsb_deep_opt() matches Some(d) && !(1 <= d <= 16)),
                Err(_) => self.spec_lsb_deep_opt() matches Some(d) && !(1 <= d <= 16),
            },
    {
        if let Some(ld) = self.lsb_deep {
            if ld == 0 || ld > 16 {
                return Err(String::from_str("lsb_deep must be between 1 and 16"));
            }
        }
        Ok(())
    }

    pub fn build(self) -> (r: Result<WAV16, String>)
        ensures
            match r {
                Ok(w) => {
                    &&& self.buildable()
                    &&& Some(w.spec_lsb_deep()) == self.spec_lsb_deep_opt()
                    &&& self.spec_settings_opt() matches Some(s) && w.spec_header()
                        == s.stego_wave_lib.header@ && w.spec_max_occupancy()
                        == s.stego_wave_lib.max_occupancy
                },
                Err(_) => !self.buildable(),
            },
    {
        if let Err(e) = self.validate() {
            return Err(e);
        }
        let lsb_deep = match self.lsb_deep {
            Some(d) => d,
            None => {
                return Err(String::from_str("lsb_deep must be initialized"));
            },
        };
        let settings = match self.settings {
            Some(s) => s,
            None => {
                return Err(String::from_str("settings must be initialized"));
            },
        };
        if !settings.stego_wave_lib.validate_codec_params() {
            return Err(
                String::from_str(
                    "settings must name a non-empty ASCII header and an occupancy between 1 and 100",
                ),
            );
        }
        Ok(WAV16 { lsb_deep, settings })
    }
}

impl Default for WAV16Builder {
    fn default() -> (r: Self)
        ensures
            r.spec_lsb_deep_opt() is None,
            r.spec_settings_opt() is None,
    {
        WAV16Builder { lsb_deep: None, settings: None }
    }
}

} // verus!

//! The request/response data of the streaming RPC service, the chunking of
//! audio buffers into frames, and the service core that runs the codec for
//! each request. The transport itself (connections, streams, status codes)
//! lives outside the library.

use crate::configuration::StegoWaveLib;
use crate::error::{dec_digits, usize_to_dec_string};
use crate::formats::get_stego_by_str;
use crate::formats::wav::{
    clear_spec, embed_spec, first_zero_at, header_ok, stream_of, stream_ready, unpacked_bytes,
    wav_decode, wav_spec_writable,
};
use crate::usable_bits;
use vstd::prelude::*;
use vstd::string::StrSliceExecFns;
use vstd::string::StringExecFns;
use vstd::utf8::{decode_utf8, encode_utf8, valid_utf8};

verus! {

/// Where the RPC server listens.
pub struct GrpcConfig {
    pub host: String,
    pub port: u32,
}

/// The configuration of the RPC server: its address and the codec settings.
pub struct Settings {
    pub grpc: GrpcConfig,
    pub stego_wave_lib: StegoWaveLib,
}

impl Settings {
    /// The listen address, `host:port`.
    pub fn address(&self) -> (r: String)
        ensures
            r@ == self.grpc.host@ + ":"@ + dec_digits(self.grpc.port as nat),
    {
        proof {
            reveal_strlit(":");
        }
        let digits = usize_to_dec_string(self.grpc.port as usize);
        self.grpc.host.clone().concat(":").concat(digits.as_str())
    }
}

/// A request to hide a message; on the wire the file may arrive in chunks,
/// with the metadata only on the first one.
pub struct HideRequest {
    pub file: Vec<u8>,
    pub message: String,
    pub password: String,
    pub format: String,
    pub lsb_deep: u32,
}

/// A request to extract a message.
pub struct ExtractRequest {
    pub file: Vec<u8>,
    pub password: String,
    pub format: String,
    pub lsb_deep: u32,
}

/// A request to clear a message.
pub struct ClearRequest {
    pub file: Vec<u8>,
    pub password: String,
    pub format: String,
    pub lsb_deep: u32,
}

/// The metadata of a request, taken off its first chunk.
pub enum AudioMetadata {
    Hide { message: String, password: String, format: String, lsb_deep: u32 },
    General { password: String, format: String, lsb_deep: u32 },
}

/// What every chunked audio request can hand over: its file bytes and its
/// metadata.
pub trait AudioRequestExt {
    /// The file bytes this chunk carries.
    fn get_file(&self) -> &Vec<u8>;

    /// The metadata of this chunk; the string fields are taken out and an
    /// empty string is left behind.
    fn get_metadata(&mut self) -> AudioMetadata;
}

impl HideRequest {
    /// A follow-up chunk: only file bytes, empty metadata.
    pub fn create_by_chunk(chunk: &Vec<u8>) -> (r: Self)
        ensures
            r.file@ == chunk@,
            r.message@ == Seq::<char>::empty(),
            r.password@ == Seq::<char>::empty(),
            r.format@ == Seq::<char>::empty(),
            r.lsb_deep == 0,
    {
        HideRequest {
            file: clone_bytes(chunk),
            message: String::new(),
            password: String::new(),
            format: String::new(),
            lsb_deep: 0,
        }
    }
}

impl ExtractRequest {
    /// A follow-up chunk: only file bytes, empty metadata.
    pub fn create_by_chunk(chunk: &Vec<u8>) -> (r: Self)
        ensures
            r.file@ == chunk@,
            r.password@ == Seq::<char>::empty(),
            r.format@ == Seq::<char>::empty(),
            r.lsb_deep == 0,
    {
        ExtractRequest {
            file: clone_bytes(chunk),
            password: String::new(),
            format: String::new(),
            lsb_deep: 0,
        }
    }
}

impl ClearRequest {
    /// A follow-up chunk: only file bytes, empty metadata.
    pub fn create_by_chunk(chunk: &Vec<u8>) -> (r: Self)
        ensures
            r.file@ == chunk@,
            r.password@ == Seq::<char>::empty(),
            r.format@ == Seq::<char>::empty(),
            r.lsb_deep == 0,
    {
        ClearRequest {
            file: clone_bytes(chunk),
            password: String::new(),
            format: String::new(),
            lsb_deep: 0,
        }
    }
}

impl AudioRequestExt for HideRequest {
    fn get_file(&self) -> (r: &Vec<u8>)
        ensures
            r@ == self.file@,
    {
        &self.file
    }

    fn get_metadata(&mut self) -> (r: AudioMetadata)
        ensures
            r == (AudioMetadata::Hide {
                message: old(self).message,
                password: old(self).password,
                format: old(self).format,
                lsb_deep: old(self).lsb_deep,
            }),
            final(self).file == old(self).file,
    {
        let mut message = String::new();
        let mut password = String::new();
        let mut format = String::new();
        core::mem::swap(&mut message, &mut self.message);
        core::mem::swap(&mut password, &mut self.password);
        core::mem::swap(&mut format, &mut self.format);
        AudioMetadata::Hide { message, password, format, lsb_deep: self.lsb_deep }
    }
}

impl AudioRequestExt for ExtractRequest {
    fn get_file(&self) -> (r: &Vec<u8>)
        ensures
            r@ == self.file@,
    {
        &self.file
    }

    fn get_metadata(&mut self) -> (r: AudioMetadata)
        ensures
            r == (AudioMetadata::General {
                password: old(self).password,
                format: old(self).format,
                lsb_deep: old(self).lsb_deep,
            }),
            final(self).file == old(self).file,
    {
        let mut password = String::new();
        let mut format = String::new();
        core::mem::swap(&mut password, &mut self.password);
        core::mem::swap(&mut format, &mut self.format);
        AudioMetadata::General { password, format, lsb_deep: self.lsb_deep }
    }
}

impl AudioRequestExt for ClearRequest {
    fn get_file(&self) -> (r: &Vec<u8>)
        ensures
            r@ == self.file@,
    {
        &self.file
    }

    fn get_metadata(&mut self) -> (r: AudioMetadata)
        ensures
            r == (AudioMetadata::General {
                password: old(self).password,
                format: old(self).format,
                lsb_deep: old(self).lsb_deep,
            }),
            final(self).file == old(self).file,
    {
        let mut password = String::new();
        let mut format = String::new();
        core::mem::swap(&mut password, &mut self.password);
        core::mem::swap(&mut format, &mut self.format);
        AudioMetadata::General { password, format, lsb_deep: self.lsb_deep }
    }
}

fn clone_bytes(v: &Vec<u8>) -> (r: Vec<u8>)
    ensures
        r@ == v@,
{
    let mut out: Vec<u8> = Vec::new();
    let mut i: usize = 0;
    while i < v.len()
        invariant
            i <= v@.len(),
            out@ =~= v@.take(i as int),
        decreases v@.len() - i,
    {
        out.push(v[i]);
        proof {
            assert(v@.take(i as int + 1) =~= v@.take(i as int).push(v@[i as int]));
        }
        i = i + 1;
    }
    proof {
        assert(v@.take(v@.len() as int) =~= v@);
    }
    out
}

/// The concatenation of a sequence of chunks.
pub open spec fn chunks_concat(chunks: Seq<Seq<u8>>) -> Seq<u8>
    decreases chunks.len(),
{
    if chunks.len() == 0 {
        Seq::empty()
    } else {
        chunks_concat(chunks.drop_last()) + chunks.last()
    }
}

/// Splits a byte buffer into chunks of at most `chunk_size` bytes: all chunks
/// but the last are full, and together they spell the buffer.
pub fn create_chunks(file: &Vec<u8>, chunk_size: usize) -> (r: Vec<Vec<u8>>)
    requires
        chunk_size >= 1,
    ensures
        chunks_concat(r@.map_values(|c: Vec<u8>| c@)) =~= file@,
        forall|k: int| 0 <= k < r@.len() ==> (#[trigger] r@[k])@.len() <= chunk_size,
        forall|k: int| 0 <= k < r@.len() - 1 ==> (#[trigger] r@[k])@.len() == chunk_size,
        forall|k: int| 0 <= k < r@.len() ==> (#[trigger] r@[k])@.len() >= 1,
        r@.len() == (file@.len() + chunk_size - 1) / (chunk_size as int),
{
    let mut out: Vec<Vec<u8>> = Vec::new();
    let mut start: usize = 0;
    while start < file.len()
        invariant
            chunk_size >= 1,
            start <= file@.len(),
            chunks_concat(out@.map_values(|c: Vec<u8>| c@)) =~= file@.take(start as int),
            forall|k: int| 0 <= k < out@.len() ==> (#[trigger] out@[k])@.len() <= chunk_size,
            forall|k: int| 0 <= k < out@.len() ==> (#[trigger] out@[k])@.len() == chunk_size,
            start == out@.len() * chunk_size,
        decreases file@.len() - start,
    {
        let end = if file.len() - start < chunk_size {
            file.len()
        } else {
            start + chunk_size
        };
        let mut chunk: Vec<u8> = Vec::new();
        let mut i: usize = start;
        while i < end
            invariant
                start <= i <= end <= file@.len(),
                chunk@ =~= file@.subrange(start as int, i as int),
            decreases end - i,
        {
            chunk.push(file[i]);
            proof {
                assert(file@.subrange(start as int, i as int + 1) =~= file@.subrange(
                    start as int,
                    i as int,
                ).push(file@[i as int]));
            }
            i = i + 1;
        }
        let ghost prev = out@.map_values(|c: Vec<u8>| c@);
        out.push(chunk);
        proof {
            let cur = out@.map_values(|c: Vec<u8>| c@);
            assert(cur.drop_last() =~= prev);
            assert(cur.last() =~= file@.subrange(start as int, end as int));
            assert(file@.take(end as int) =~= file@.take(start as int) + file@.subrange(
                start as int,
                end as int,
            ));
            if end < file@.len() {
                assert(end == start + chunk_size);
                assert((out@.len()) * chunk_size == (out@.len() - 1) * chunk_size + chunk_size)
                    by (nonlinear_arith);
            }
        }
        if end == file.len() {
            proof {
                let cnt = out@.len() as int;
                let cs = chunk_size as int;
                let fl = file@.len() as int;
                assert(cnt * cs == (cnt - 1) * cs + cs) by (nonlinear_arith);
                assert(cnt == (fl + cs - 1) / cs) by {
                    vstd::arithmetic::div_mod::lemma_fundamental_div_mod_converse_div(
                        fl + cs - 1,
                        cs,
                        cnt,
                        fl + cs - 1 - cnt * cs,
                    );
                }
            }
            return out;
        }
        start = end;
        proof {
            assert((out@.len()) * chunk_size == (out@.len() - 1) * chunk_size + chunk_size)
                by (nonlinear_arith);
        }
    }
    proof {
        assert(file@.take(start as int) =~= file@);
        let cnt = out@.len() as int;
        let cs = chunk_size as int;
        let fl = file@.len() as int;
        assert(cnt == (fl + cs - 1) / cs) by {
            vstd::arithmetic::div_mod::lemma_fundamental_div_mod_converse_div(
                fl + cs - 1,
                cs,
                cnt,
                cs - 1,
            );
        }
    }
    out
}

/// The requests that stream one hide call: the first frame carries the file's
/// first chunk and all the metadata, every later frame only its chunk.
pub fn hide_request_chunks(
    file: &Vec<u8>,
    chunk_size: usize,
    message: String,
    password: String,
    format: String,
    lsb_deep: u32,
) -> (r: Vec<HideRequest>)
    requires
        chunk_size >= 1,
    ensures
        chunks_concat(r@.map_values(|q: HideRequest| q.file@)) =~= file@,
        r@.len() >= 1 ==> {
            &&& r@[0].message@ == message@
            &&& r@[0].password@ == password@
            &&& r@[0].format@ == format@
            &&& r@[0].lsb_deep == lsb_deep
        },
        forall|k: int|
            1 <= k < r@.len() ==> {
                &&& (#[trigger] r@[k]).message@ == Seq::<char>::empty()
                &&& r@[k].password@ == Seq::<char>::empty()
                &&& r@[k].format@ == Seq::<char>::empty()
                &&& r@[k].lsb_deep == 0
            },
{
    let chunks = create_chunks(file, chunk_size);
    let ghost chunk_views = chunks@.map_values(|c: Vec<u8>| c@);
    let mut out: Vec<HideRequest> = Vec::new();
    let mut k: usize = 0;
    let mut meta = Some((message, password, format));
    while k < chunks.len()
        invariant
            k <= chunks@.len(),
            out@.len() == k,
            out@.map_values(|q: HideRequest| q.file@) =~= chunk_views.take(k as int),
            chunk_views == chunks@.map_values(|c: Vec<u8>| c@),
            k == 0 ==> (meta matches Some((m, p, f)) && m@ == message@ && p@ == password@ && f@
                == format@),
            k >= 1 ==> meta is None,
            k >= 1 ==> {
                &&& out@[0].message@ == message@
                &&& out@[0].password@ == password@
                &&& out@[0].format@ == format@
                &&& out@[0].lsb_deep == lsb_deep
            },
            forall|j: int|
                1 <= j < k ==> {
                    &&& (#[trigger] out@[j]).message@ == Seq::<char>::empty()
                    &&& out@[j].password@ == Seq::<char>::empty()
                    &&& out@[j].format@ == Seq::<char>::empty()
                    &&& out@[j].lsb_deep == 0
                },
        decreases chunks@.len() - k,
    {
        let chunk = &chunks[k];
        let mut taken: Option<(String, String, String)> = None;
        core::mem::swap(&mut taken, &mut meta);
        let req = match taken {
            Some((m, p, f)) => HideRequest {
                file: clone_bytes(chunk),
                message: m,
                password: p,
                format: f,
                lsb_deep,
            },
            None => HideRequest::create_by_chunk(chunk),
        };
        let ghost prev = out@.map_values(|q: HideRequest| q.file@);
        out.push(req);
        proof {
            let cur = out@.map_values(|q: HideRequest| q.file@);
            assert(cur.drop_last() =~= prev);
            assert(chunk_views.take(k as int + 1).drop_last() =~= chunk_views.take(k as int));
            assert(cur =~= chunk_views.take(k as int + 1));
        }
        k = k + 1;
    }
    proof {
        assert(chunk_views.take(chunks@.len() as int) =~= chunk_views);
    }
    out
}

/// What the service reports when a request cannot be served: a complaint
/// about the request itself, or an internal failure. The transport turns the
/// first into an invalid-argument status and the second into an internal one.
#[derive(Debug)]
pub enum ServiceError {
    InvalidArgument(String),
    Internal(String),
}

/// The service core: holds the codec settings and runs one codec call per
/// request.
pub struct StegoWaveServiceImpl {
    settings: StegoWaveLib,
}

impl StegoWaveServiceImpl {
    pub closed spec fn spec_settings(self) -> StegoWaveLib {
        self.settings
    }

    pub fn new(settings: StegoWaveLib) -> (r: Self)
        ensures
            r.spec_settings() == settings,
    {
        StegoWaveServiceImpl { settings }
    }

    /// Serves a hide request: builds the codec named by the request, embeds
    /// the message in the file bytes, and returns the re-encoded audio.
    pub fn hide_message(&self, request: HideRequest) -> (r: Result<Vec<u8>, ServiceError>)
        ensures
            r is Ok ==> request.format@ == "wav16"@ && 1 <= (request.lsb_deep as u8) <= 16
                && self.spec_settings().codec_wf(),
            r matches Err(ServiceError::InvalidArgument(_)) ==> !(request.format@ == "wav16"@ && 1
                <= (request.lsb_deep as u8) <= 16 && self.spec_settings().codec_wf()),
            ({
                let d = (request.lsb_deep as u8) as nat;
                let occ = self.spec_settings().max_occupancy;
                let hb = encode_utf8(self.spec_settings().header@);
                let mb = encode_utf8(request.message@);
                let total = hb.len() + mb.len() + 1;
                r matches Ok(out) ==> (wav_decode(request.file@) matches Some((sp, ss))
                    && sp.bits_per_sample == 16 && 8 * total <= usable_bits(ss.len(), d, occ as nat)
                    && stream_ready(request.password@, ss.len() as usize, occ) && (
                sp.sample_format is Int ==> wav_decode(out@) == Some(
                    (
                        sp,
                        embed_spec(
                            ss,
                            hb,
                            mb,
                            d,
                            stream_of(request.password@, ss.len() as usize, occ),
                        ),
                    ),
                )))
            }),
            ({
                let d = (request.lsb_deep as u8) as nat;
                let occ = self.spec_settings().max_occupancy;
                let hb = encode_utf8(self.spec_settings().header@);
                let mb = encode_utf8(request.message@);
                let total = hb.len() + mb.len() + 1;
                (request.format@ == "wav16"@ && 1 <= (request.lsb_deep as u8) <= 16
                    && self.spec_settings().codec_wf() && total * 800 < usize::MAX) ==> ((
                wav_decode(request.file@) matches Some((sp, ss)) && sp.bits_per_sample == 16
                    && sp.sample_format is Int && 8 * total <= usable_bits(ss.len(), d, occ as nat)
                    && stream_ready(request.password@, ss.len() as usize, occ)
                    && wav_spec_writable(sp, ss.len() as int) && ss.len() as int % (
                sp.channels as int) == 0) ==> r is Ok)
            }),
    {
        let stego = match get_stego_by_str(
            request.format.as_str(),
            #[verifier::truncate] (request.lsb_deep as u8),
            self.settings.clone(),
        ) {
            Ok(s) => s,
            Err(e) => {
                return Err(ServiceError::InvalidArgument(e.display_text()));
            },
        };
        let header_len = self.settings.header.as_str().as_bytes_vec().len();
        let message_len = request.message.as_str().as_bytes_vec().len();
        if ((header_len as u128) + (message_len as u128) + 1) * 800 >= (usize::MAX as u128) {
            return Err(ServiceError::Internal(String::from_str("message too long")));
        }
        proof {
            assert(stego.spec_header_bytes() == encode_utf8(self.settings.header@));
        }
        match stego.hide_bytes(request.file, request.message.as_str(), request.password.as_str()) {
            Ok(out) => Ok(out),
            Err(e) => Err(ServiceError::Internal(e.display_text())),
        }
    }

    /// Serves an extract request: reads the hidden message back out of the
    /// file bytes.
    pub fn extract_message(&self, request: ExtractRequest) -> (r: Result<String, ServiceError>)
        ensures
            r is Ok ==> request.format@ == "wav16"@ && 1 <= (request.lsb_deep as u8) <= 16
                && self.spec_settings().codec_wf(),
            r matches Err(ServiceError::InvalidArgument(_)) ==> !(request.format@ == "wav16"@ && 1
                <= (request.lsb_deep as u8) <= 16 && self.spec_settings().codec_wf()),
            ({
                let d = (request.lsb_deep as u8) as nat;
                let occ = self.spec_settings().max_occupancy;
                let hb = encode_utf8(self.spec_settings().header@);
                r matches Ok(s) ==> (wav_decode(request.file@) matches Some((sp, ss))
                    && sp.bits_per_sample == 16 && ({
                    let b = unpacked_bytes(ss, request.password@, ss.len() as usize, occ, d);
                    let z = first_zero_at(b, hb.len() as int);
                    &&& stream_ready(request.password@, ss.len() as usize, occ)
                    &&& header_ok(b, hb)
                    &&& z >= hb.len()
                    &&& (valid_utf8(b.subrange(hb.len() as int, z)) ==> s@ == decode_utf8(
                        b.subrange(hb.len() as int, z),
                    ))
                    &&& (!valid_utf8(b.subrange(hb.len() as int, z)) ==> s@
                        == Seq::<char>::empty())
                }))
            }),
            ({
                let d = (request.lsb_deep as u8) as nat;
                let occ = self.spec_settings().max_occupancy;
                let hb = encode_utf8(self.spec_settings().header@);
                (request.format@ == "wav16"@ && 1 <= (request.lsb_deep as u8) <= 16
                    && self.spec_settings().codec_wf()) ==> ((wav_decode(
                    request.file@,
                ) matches Some((sp, ss)) && sp.bits_per_sample == 16 && stream_ready(
                    request.password@,
                    ss.len() as usize,
                    occ,
                ) && header_ok(unpacked_bytes(ss, request.password@, ss.len() as usize, occ, d), hb)
                    && first_zero_at(
                    unpacked_bytes(ss, request.password@, ss.len() as usize, occ, d),
                    hb.len() as int,
                ) >= 0) ==> r is Ok)
            }),
    {
        let stego = match get_stego_by_str(
            request.format.as_str(),
            #[verifier::truncate] (request.lsb_deep as u8),
            self.settings.clone(),
        ) {
            Ok(s) => s,
            Err(e) => {
                return Err(ServiceError::InvalidArgument(e.display_text()));
            },
        };
        match stego.extract_bytes(request.file, request.password.as_str()) {
            Ok(message) => Ok(message),
            Err(e) => Err(ServiceError::Internal(e.display_text())),
        }
    }

    /// Serves a clear request: validates the password, zeroes every visited
    /// window, and returns the re-encoded audio.
    pub fn clear_message(&self, request: ClearRequest) -> (r: Result<Vec<u8>, ServiceError>)
        ensures
            r is Ok ==> request.format@ == "wav16"@ && 1 <= (request.lsb_deep as u8) <= 16
                && self.spec_settings().codec_wf(),
            r matches Err(ServiceError::InvalidArgument(_)) ==> !(request.format@ == "wav16"@ && 1
                <= (request.lsb_deep as u8) <= 16 && self.spec_settings().codec_wf()),
            ({
                let d = (request.lsb_deep as u8) as nat;
                let occ = self.spec_settings().max_occupancy;
                let hb = encode_utf8(self.spec_settings().header@);
                r matches Ok(out) ==> (wav_decode(request.file@) matches Some((sp, ss))
                    && sp.bits_per_sample == 16 && ({
                    let b = unpacked_bytes(ss, request.password@, ss.len() as usize, occ, d);
                    &&& stream_ready(request.password@, ss.len() as usize, occ)
                    &&& header_ok(b, hb)
                    &&& (sp.sample_format is Int ==> wav_decode(out@) == Some(
                        (
                            sp,
                            clear_spec(
                                ss,
                                stream_of(request.password@, ss.len() as usize, occ),
                                d,
                            ),
                        ),
                    ))
                }))
            }),
            ({
                let d = (request.lsb_deep as u8) as nat;
                let occ = self.spec_settings().max_occupancy;
                let hb = encode_utf8(self.spec_settings().header@);
                (request.format@ == "wav16"@ && 1 <= (request.lsb_deep as u8) <= 16
                    && self.spec_settings().codec_wf()) ==> ((wav_decode(
                    request.file@,
                ) matches Some((sp, ss)) && sp.bits_per_sample == 16 && sp.sample_format is Int
                    && stream_ready(request.password@, ss.len() as usize, occ) && header_ok(
                    unpacked_bytes(ss, request.password@, ss.len() as usize, occ, d),
                    hb,
                ) && wav_spec_writable(sp, ss.len() as int) && ss.len() as int % (
                sp.channels as int) == 0) ==> r is Ok)
            }),
    {
        let stego = match get_stego_by_str(
            request.format.as_str(),
            #[verifier::truncate] (request.lsb_deep as u8),
            self.settings.clone(),
        ) {
            Ok(s) => s,
            Err(e) => {
                return Err(ServiceError::InvalidArgument(e.display_text()));
            },
        };
        match stego.clear_bytes(request.file, request.password.as_str()) {
            Ok(out) => Ok(out),
            Err(e) => Err(ServiceError::Internal(e.display_text())),
        }
    }
}

} // verus!

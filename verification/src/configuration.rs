//! The static configuration the codec consumes: the header marker, the
//! default depth, and the occupancy percentage. Loading it from a file and
//! from the environment is the front end's business; the library only states
//! and checks what a usable configuration looks like.

use vstd::prelude::*;
use vstd::string::StringExecFns;
use vstd::string::StrSliceExecFns;
use vstd::utf8::encode_utf8;

verus! {

/// A usable header marker, seen as its UTF-8 bytes: non-empty ASCII with no
/// NUL, so that a header never contains a terminator byte.
pub open spec fn header_bytes_wf(h: Seq<u8>) -> bool {
    &&& h.len() >= 1
    &&& forall|i: int| 0 <= i < h.len() ==> 1 <= #[trigger] h[i] <= 127
}

/// The three configuration keys of the codec.
#[derive(Debug)]
pub struct StegoWaveLib {
    pub header: String,
    pub default_lsb_deep: u8,
    pub max_occupancy: usize,
}

impl StegoWaveLib {
    /// What the codec itself needs of the configuration: occupancy a
    /// percentage above zero, header non-empty ASCII without NUL.
    pub open spec fn codec_wf(self) -> bool {
        &&& 1 <= self.max_occupancy <= 100
        &&& header_bytes_wf(encode_utf8(self.header@))
    }

    /// A usable configuration: the codec's conditions, and a default depth
    /// within the 16 bits of a sample.
    pub open spec fn wf(self) -> bool {
        &&& self.codec_wf()
        &&& 1 <= self.default_lsb_deep <= 16
    }

    /// Whether this configuration is usable.
    pub fn validate(&self) -> (r: bool)
        ensures
            r == self.wf(),
    {
        if self.default_lsb_deep < 1 || self.default_lsb_deep > 16 {
            return false;
        }
        self.validate_codec_params()
    }

    /// Whether the parameters the codec consumes are usable.
    pub fn validate_codec_params(&self) -> (r: bool)
        ensures
            r == self.codec_wf(),
    {
        if self.max_occupancy < 1 || self.max_occupancy > 100 {
            return false;
        }
        let hb = self.header.as_str().as_bytes_vec();
        if hb.len() == 0 {
            return false;
        }
        let mut i: usize = 0;
        let mut ok = true;
        while i < hb.len()
            invariant
                i <= hb@.len(),
                hb@ =~= encode_utf8(self.header@),
                ok == (forall|j: int| 0 <= j < i ==> 1 <= #[trigger] hb@[j] <= 127),
            decreases hb@.len() - i,
        {
            if hb[i] < 1 || hb[i] > 127 {
                ok = false;
            }
            i = i + 1;
        }
        ok
    }
}

impl Clone for StegoWaveLib {
    fn clone(&self) -> (r: Self)
        ensures
            r.header@ == self.header@,
            r.default_lsb_deep == self.default_lsb_deep,
            r.max_occupancy == self.max_occupancy,
    {
        StegoWaveLib {
            header: self.header.clone(),
            default_lsb_deep: self.default_lsb_deep,
            max_occupancy: self.max_occupancy,
        }
    }
}

impl Default for StegoWaveLib {
    /// The all-empty configuration; it is not usable until filled in.
    fn default() -> (r: Self)
        ensures
            r.header@ == Seq::<char>::empty(),
            r.default_lsb_deep == 0,
            r.max_occupancy == 0,
    {
        StegoWaveLib { header: String::new(), default_lsb_deep: 0, max_occupancy: 0 }
    }
}

/// The configuration of the library, as the codec sees it.
#[derive(Debug)]
pub struct Settings {
    pub stego_wave_lib: StegoWaveLib,
}

impl Clone for Settings {
    fn clone(&self) -> (r: Self)
        ensures
            r.stego_wave_lib.header@ == self.stego_wave_lib.header@,
            r.stego_wave_lib.default_lsb_deep == self.stego_wave_lib.default_lsb_deep,
            r.stego_wave_lib.max_occupancy == self.stego_wave_lib.max_occupancy,
    {
        Settings { stego_wave_lib: self.stego_wave_lib.clone() }
    }
}

} // verus!

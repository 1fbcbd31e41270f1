//! The audio formats the codec knows, and the dispatch from a format tag to
//! a codec instance.

use crate::configuration::{Settings, StegoWaveLib};
use crate::error::GetStegoError;
use crate::object::str_eq;
use vstd::prelude::*;

pub mod wav;

verus! {

/// The codec for the format named by `format`: the only recognized tag is
/// `"wav16"`. An unknown tag is a domain error; a tag that is known but whose
/// parameters do not build is a builder error with the builder's message.
pub fn get_stego_by_str(format: &str, lsb_deep: u8, settings: StegoWaveLib) -> (r: Result<
    wav::WAV16,
    GetStegoError,
>)
    ensures
        match r {
            Ok(w) => {
                &&& format@ == "wav16"@
                &&& 1 <= lsb_deep <= 16
                &&& settings.codec_wf()
                &&& w.spec_lsb_deep() == lsb_deep
                &&& w.spec_header() == settings.header@
                &&& w.spec_max_occupancy() == settings.max_occupancy
            },
            Err(GetStegoError::StegoNotFoundError) => format@ != "wav16"@,
            Err(GetStegoError::BuildStegoError(_)) => format@ == "wav16"@ && !(1 <= lsb_deep <= 16
                && settings.codec_wf()),
        },
{
    if str_eq(format, "wav16") {
        match wav::WAV16::builder().lsb_deep(lsb_deep).settings(
            Settings { stego_wave_lib: settings },
        ).build() {
            Ok(wav16) => Ok(wav16),
            Err(err) => Err(GetStegoError::BuildStegoError(err)),
        }
    } else {
        Err(GetStegoError::StegoNotFoundError)
    }
}

} // verus!

//! The request data of the multipart HTTP service and the assembly of a
//! request from its form fields. Reading the multipart stream itself is a
//! transport concern; the library takes each field as a name and its bytes.

use crate::configuration::StegoWaveLib;
use crate::error::{dec_digits, usize_to_dec_string};
use crate::object::{str_eq, utf8_or_empty};
use vstd::prelude::*;
use vstd::string::StrSliceExecFns;
use vstd::string::StringExecFns;
use vstd::string::StringSliceAdditionalSpecFns;
use vstd::utf8::{decode_utf8, valid_utf8};

verus! {

/// Where the HTTP server listens.
pub struct RestConfig {
    pub host: String,
    pub port: u32,
}

/// The configuration of the HTTP server: its address and the codec settings.
pub struct Settings {
    pub rest: RestConfig,
    pub stego_wave_lib: StegoWaveLib,
}

impl Settings {
    /// The listen address, `host:port`.
    pub fn address(&self) -> (r: String)
        ensures
            r@ == self.rest.host@ + ":"@ + dec_digits(self.rest.port as nat),
    {
        proof {
            reveal_strlit(":");
        }
        let digits = usize_to_dec_string(self.rest.port as usize);
        self.rest.host.clone().concat(":").concat(digits.as_str())
    }

    /// Takes the codec settings out, leaving the empty default behind.
    pub fn get_stego_wave_lib_settings(&mut self) -> (r: StegoWaveLib)
        ensures
            r == old(self).stego_wave_lib,
            final(self).rest == old(self).rest,
            final(self).stego_wave_lib.header@ == Seq::<char>::empty(),
            final(self).stego_wave_lib.default_lsb_deep == 0,
            final(self).stego_wave_lib.max_occupancy == 0,
    {
        let mut out = StegoWaveLib::default();
        core::mem::swap(&mut out, &mut self.stego_wave_lib);
        out
    }
}

/// Whether a byte string is one or more decimal digits.
pub open spec fn digits_ok(digits: Seq<u8>) -> bool {
    digits.len() >= 1 && forall|i: int| 0 <= i < digits.len() ==> 0x30 <= #[trigger] digits[i]
        <= 0x39
}

/// The value of a decimal digit string.
pub open spec fn dec_value(digits: Seq<u8>) -> int
    decreases digits.len(),
{
    if digits.len() == 0 {
        0
    } else {
        dec_value(digits.drop_last()) * 10 + (digits.last() - 0x30)
    }
}

/// What `str::parse::<u8>` accepts and returns: an optional leading plus
/// sign, then decimal digits whose value fits in a byte.
pub open spec fn parse_u8_spec(bytes: Seq<u8>) -> Option<u8> {
    let digits = if bytes.len() >= 1 && bytes[0] == 0x2B {
        bytes.drop_first()
    } else {
        bytes
    };
    if digits_ok(digits) && dec_value(digits) <= 255 {
        Some(dec_value(digits) as u8)
    } else {
        None
    }
}

/// Appending digits never lowers the value.
proof fn lemma_dec_value_grows(digits: Seq<u8>, i: int)
    requires
        0 <= i <= digits.len(),
        forall|k: int| 0 <= k < digits.len() ==> 0x30 <= #[trigger] digits[k] <= 0x39,
    ensures
        dec_value(digits.take(i)) >= 0,
        dec_value(digits) >= dec_value(digits.take(i)),
    decreases digits.len() - i, digits.len(), i,
{
    if i == digits.len() {
        assert(digits.take(i) =~= digits);
        lemma_dec_value_nonneg(digits);
    } else {
        lemma_dec_value_grows(digits, i + 1);
        lemma_dec_value_nonneg(digits.take(i));
        assert(digits.take(i + 1).drop_last() =~= digits.take(i));
        assert(dec_value(digits.take(i + 1)) >= dec_value(digits.take(i))) by (nonlinear_arith)
            requires
                dec_value(digits.take(i + 1)) == dec_value(digits.take(i)) * 10 + (digits.take(
                    i + 1,
                ).last() - 0x30),
                dec_value(digits.take(i)) >= 0,
                0x30 <= digits.take(i + 1).last() <= 0x39,
        ;
    }
}

proof fn lemma_dec_value_nonneg(digits: Seq<u8>)
    requires
        forall|k: int| 0 <= k < digits.len() ==> 0x30 <= #[trigger] digits[k] <= 0x39,
    ensures
        dec_value(digits) >= 0,
    decreases digits.len(),
{
    if digits.len() > 0 {
        lemma_dec_value_nonneg(digits.drop_last());
        assert(dec_value(digits.drop_last()) * 10 >= 0) by (nonlinear_arith)
            requires
                dec_value(digits.drop_last()) >= 0,
        ;
    }
}

/// Parses a byte as `str::parse::<u8>` would.
#[verifier::loop_isolation(false)]
pub fn parse_u8_dec(s: &str) -> (r: Option<u8>)
    ensures
        r == parse_u8_spec(s.spec_bytes()),
{
    let bytes = s.as_bytes_vec();
    let start: usize = if bytes.len() >= 1 && bytes[0] == 0x2B {
        1
    } else {
        0
    };
    let ghost digits = if start == 1 {
        bytes@.drop_first()
    } else {
        bytes@
    };
    proof {
        assert(digits =~= bytes@.subrange(start as int, bytes@.len() as int));
    }
    if bytes.len() == start {
        return None;
    }
    let mut acc: u32 = 0;
    let mut i: usize = start;
    while i < bytes.len()
        invariant
            start <= i <= bytes@.len(),
            digits =~= bytes@.subrange(start as int, bytes@.len() as int),
            forall|k: int| 0 <= k < i - start ==> 0x30 <= #[trigger] digits[k] <= 0x39,
            acc == dec_value(digits.take(i - start)),
            acc <= 255,
        decreases bytes@.len() - i,
    {
        let b = bytes[i];
        if b < 0x30 || b > 0x39 {
            proof {
                assert(digits[i - start] == b);
                assert(!digits_ok(digits));
            }
            return None;
        }
        proof {
            assert(digits.take(i - start + 1).drop_last() =~= digits.take(i - start));
            assert(digits.take(i - start + 1).last() == b);
        }
        acc = acc * 10 + ((b - 0x30) as u32);
        i = i + 1;
        if acc > 255 {
            proof {
                if digits_ok(digits) {
                    lemma_dec_value_grows(digits, i - start);
                }
            }
            return None;
        }
    }
    proof {
        assert(digits.take(digits.len() as int) =~= digits);
        assert(digits_ok(digits));
    }
    Some(acc as u8)
}

/// The string a field's bytes stand for: decoded UTF-8, or empty when the
/// bytes are not valid UTF-8.
pub open spec fn field_text(b: Seq<u8>) -> Seq<char> {
    if valid_utf8(b) {
        decode_utf8(b)
    } else {
        Seq::empty()
    }
}

/// The depth a field's bytes stand for: the parsed number, or 1 when the
/// text does not parse.
pub open spec fn field_lsb(b: Seq<u8>) -> u8 {
    let t = if valid_utf8(b) {
        b
    } else {
        Seq::empty()
    };
    match parse_u8_spec(t) {
        Some(v) => v,
        None => 1,
    }
}

/// The form fields of one multipart request, each present or not.
#[derive(Debug)]
pub struct MultipartyPayload {
    pub file_bytes: Option<Vec<u8>>,
    pub message: Option<String>,
    pub password: Option<String>,
    pub format: Option<String>,
    pub lsb_deep: Option<u8>,
}

impl Default for MultipartyPayload {
    fn default() -> (r: Self)
        ensures
            r.file_bytes is None,
            r.message is None,
            r.password is None,
            r.format is None,
            r.lsb_deep is None,
    {
        MultipartyPayload {
            file_bytes: None,
            message: None,
            password: None,
            format: None,
            lsb_deep: None,
        }
    }
}

impl MultipartyPayload {
    /// Stores one form field under its name; an unknown name changes nothing.
    pub fn set_field(&mut self, name: &str, data: Vec<u8>)
        ensures
            name@ == "file"@ ==> *final(self) == (MultipartyPayload {
                file_bytes: Some(data),
                ..*old(self)
            }),
            name@ == "message"@ ==> (final(self).message matches Some(m) && m@ == field_text(data@)
                && final(self).file_bytes == old(self).file_bytes && final(self).password == old(
                self,
            ).password && final(self).format == old(self).format && final(self).lsb_deep == old(
                self,
            ).lsb_deep),
            name@ == "password"@ ==> (final(self).password matches Some(p) && p@ == field_text(
                data@,
            ) && final(self).file_bytes == old(self).file_bytes && final(self).message == old(
                self,
            ).message && final(self).format == old(self).format && final(self).lsb_deep == old(
                self,
            ).lsb_deep),
            name@ == "format"@ ==> (final(self).format matches Some(f) && f@ == field_text(data@)
                && final(self).file_bytes == old(self).file_bytes && final(self).message == old(
                self,
            ).message && final(self).password == old(self).password && final(self).lsb_deep == old(
                self,
            ).lsb_deep),
            name@ == "lsb_deep"@ ==> *final(self) == (MultipartyPayload {
                lsb_deep: Some(field_lsb(data@)),
                ..*old(self)
            }),
            (name@ != "file"@ && name@ != "message"@ && name@ != "password"@ && name@ != "format"@
                && name@ != "lsb_deep"@) ==> *final(self) == *old(self),
    {
        proof {
            reveal_strlit("file");
            reveal_strlit("message");
            reveal_strlit("password");
            reveal_strlit("format");
            reveal_strlit("lsb_deep");
            assert("file"@.len() == 4);
            assert("message"@.len() == 7);
            assert("password"@.len() == 8);
            assert("format"@.len() == 6);
            assert("lsb_deep"@.len() == 8);
            assert("password"@[0] == 'p' && "lsb_deep"@[0] == 'l');
        }
        if str_eq(name, "file") {
            self.file_bytes = Some(data);
        } else if str_eq(name, "message") {
            self.message = Some(utf8_or_empty(data));
        } else if str_eq(name, "password") {
            self.password = Some(utf8_or_empty(data));
        } else if str_eq(name, "format") {
            self.format = Some(utf8_or_empty(data));
        } else if str_eq(name, "lsb_deep") {
            let text = utf8_or_empty(data);
            let v = match parse_u8_dec(text.as_str()) {
                Some(v) => v,
                None => 1,
            };
            proof {
                if valid_utf8(data@) {
                    vstd::utf8::decode_utf8_encode_utf8(data@);
                }
            }
            self.lsb_deep = Some(v);
        }
    }

    /// Takes the file bytes out, or says which field is missing.
    pub fn get_file_bytes(&mut self) -> (r: Result<Vec<u8>, String>)
        ensures
            final(self).file_bytes is None,
            *final(self) == (MultipartyPayload { file_bytes: None, ..*old(self) }),
            match r {
                Ok(v) => old(self).file_bytes == Some(v),
                Err(e) => old(self).file_bytes is None && e@
                    == "The |file bytes| field is required"@,
            },
    {
        let mut taken: Option<Vec<u8>> = None;
        core::mem::swap(&mut taken, &mut self.file_bytes);
        match taken {
            Some(file) => Ok(file),
            None => Err(String::from_str("The |file bytes| field is required")),
        }
    }

    /// Takes the message out, or says which field is missing.
    pub fn get_message(&mut self) -> (r: Result<String, String>)
        ensures
            final(self).message is None,
            *final(self) == (MultipartyPayload { message: None, ..*old(self) }),
            match r {
                Ok(v) => old(self).message == Some(v),
                Err(e) => old(self).message is None && e@ == "The |message| field is required"@,
            },
    {
        let mut taken: Option<String> = None;
        core::mem::swap(&mut taken, &mut self.message);
        match taken {
            Some(v) => Ok(v),
            None => Err(String::from_str("The |message| field is required")),
        }
    }

    /// Takes the password out, or says which field is missing.
    pub fn get_password(&mut self) -> (r: Result<String, String>)
        ensures
            final(self).password is None,
            *final(self) == (MultipartyPayload { password: None, ..*old(self) }),
            match r {
                Ok(v) => old(self).password == Some(v),
                Err(e) => old(self).password is None && e@ == "The |password| field is required"@,
            },
    {
        let mut taken: Option<String> = None;
        core::mem::swap(&mut taken, &mut self.password);
        match taken {
            Some(v) => Ok(v),
            None => Err(String::from_str("The |password| field is required")),
        }
    }

    /// Takes the format out, or says which field is missing.
    pub fn get_format(&mut self) -> (r: Result<String, String>)
        ensures
            final(self).format is None,
            *final(self) == (MultipartyPayload { format: None, ..*old(self) }),
            match r {
                Ok(v) => old(self).format == Some(v),
                Err(e) => old(self).format is None && e@ == "The |format| field is required"@,
            },
    {
        let mut taken: Option<String> = None;
        core::mem::swap(&mut taken, &mut self.format);
        match taken {
            Some(v) => Ok(v),
            None => Err(String::from_str("The |format| field is required")),
        }
    }

    /// Takes the depth out, or says which field is missing.
    pub fn get_lsb_deep(&mut self) -> (r: Result<u8, String>)
        ensures
            final(self).lsb_deep is None,
            *final(self) == (MultipartyPayload { lsb_deep: None, ..*old(self) }),
            match r {
                Ok(v) => old(self).lsb_deep == Some(v),
                Err(e) => old(self).lsb_deep is None && e@ == "The |lsb_deep| field is required"@,
            },
    {
        let mut taken: Option<u8> = None;
        core::mem::swap(&mut taken, &mut self.lsb_deep);
        match taken {
            Some(v) => Ok(v),
            None => Err(String::from_str("The |lsb_deep| field is required")),
        }
    }

    /// Takes every field at once, complaining about the first missing one
    /// among those marked required; absent optional fields get defaults.
    pub fn get_required_field(
        &mut self,
        file_bytes: bool,
        message: bool,
        password: bool,
        format: bool,
    ) -> (r: Result<(Vec<u8>, String, String, String, u8), String>)
        ensures
            match r {
                Ok((f, m, p, fo, l)) => {
                    &&& (file_bytes ==> old(self).file_bytes is Some)
                    &&& (message ==> old(self).message is Some)
                    &&& (password ==> old(self).password is Some)
                    &&& (format ==> old(self).format is Some)
                    &&& f@ == (match old(self).file_bytes {
                        Some(v) => v@,
                        None => Seq::<u8>::empty(),
                    })
                    &&& m@ == (match old(self).message {
                        Some(v) => v@,
                        None => Seq::<char>::empty(),
                    })
                    &&& p@ == (match old(self).password {
                        Some(v) => v@,
                        None => Seq::<char>::empty(),
                    })
                    &&& fo@ == (match old(self).format {
                        Some(v) => v@,
                        None => Seq::<char>::empty(),
                    })
                    &&& l == (match old(self).lsb_deep {
                        Some(v) => v,
                        None => 1u8,
                    })
                    &&& final(self).file_bytes is None
                    &&& final(self).message is None
                    &&& final(self).password is None
                    &&& final(self).format is None
                    &&& final(self).lsb_deep is None
                },
                Err(e) => {
                    &&& *final(self) == *old(self)
                    &&& (if file_bytes && old(self).file_bytes is None {
                        e@ == "The |file body| field is required"@
                    } else if message && old(self).message is None {
                        e@ == "The |message| field is required"@
                    } else if password && old(self).password is None {
                        e@ == "The |password| field is required"@
                    } else if format && old(self).format is None {
                        e@ == "The |format| field is required"@
                    } else {
                        false
                    })
                },
            },
    {
        if file_bytes && self.file_bytes.is_none() {
            return Err(String::from_str("The |file body| field is required"));
        }
        if message && self.message.is_none() {
            return Err(String::from_str("The |message| field is required"));
        }
        if password && self.password.is_none() {
            return Err(String::from_str("The |password| field is required"));
        }
        if format && self.format.is_none() {
            return Err(String::from_str("The |format| field is required"));
        }
        let mut payload = MultipartyPayload::default();
        core::mem::swap(&mut payload, self);
        let file = match payload.file_bytes {
            Some(v) => v,
            None => Vec::new(),
        };
        let msg = match payload.message {
            Some(v) => v,
            None => String::new(),
        };
        let pw = match payload.password {
            Some(v) => v,
            None => String::new(),
        };
        let fmt = match payload.format {
            Some(v) => v,
            None => String::new(),
        };
        let lsb = match payload.lsb_deep {
            Some(v) => v,
            None => 1,
        };
        Ok((file, msg, pw, fmt, lsb))
    }
}

/// A request to hide a message, as the HTTP service receives it.
#[derive(Debug)]
pub struct HideRequest {
    pub file: Vec<u8>,
    pub message: String,
    pub password: String,
    pub format: String,
    pub lsb_deep: u8,
}

/// A request to extract a message.
#[derive(Debug)]
pub struct ExtractRequest {
    pub file: Vec<u8>,
    pub password: String,
    pub format: String,
    pub lsb_deep: u8,
}

/// A request to clear a message.
#[derive(Debug)]
pub struct ClearRequest {
    pub file: Vec<u8>,
    pub password: String,
    pub format: String,
    pub lsb_deep: u8,
}

impl HideRequest {
    /// Builds the request from a payload; every field is required, and the
    /// complaint names the first missing one, file first, depth last.
    pub fn from_payload(payload: MultipartyPayload) -> (r: Result<Self, String>)
        ensures
            (payload.file_bytes is Some && payload.message is Some && payload.password is Some
                && payload.format is Some && payload.lsb_deep is Some) <==> r is Ok,
            r matches Ok(req) ==> Some(req.file) == payload.file_bytes && Some(req.message)
                == payload.message && Some(req.password) == payload.password && Some(req.format)
                == payload.format && Some(req.lsb_deep) == payload.lsb_deep,
            r matches Err(e) ==> (if payload.file_bytes is None {
                e@ == "The |file bytes| field is required"@
            } else if payload.message is None {
                e@ == "The |message| field is required"@
            } else if payload.password is None {
                e@ == "The |password| field is required"@
            } else if payload.format is None {
                e@ == "The |format| field is required"@
            } else {
                e@ == "The |lsb_deep| field is required"@
            }),
    {
        let mut value = payload;
        let file = match value.get_file_bytes() {
            Ok(v) => v,
            Err(e) => {
                return Err(e);
            },
        };
        let message = match value.get_message() {
            Ok(v) => v,
            Err(e) => {
                return Err(e);
            },
        };
        let password = match value.get_password() {
            Ok(v) => v,
            Err(e) => {
                return Err(e);
            },
        };
        let format = match value.get_format() {
            Ok(v) => v,
            Err(e) => {
                return Err(e);
            },
        };
        let lsb_deep = match value.get_lsb_deep() {
            Ok(v) => v,
            Err(e) => {
                return Err(e);
            },
        };
        Ok(HideRequest { file, message, password, format, lsb_deep })
    }
}

impl ExtractRequest {
    /// Builds the request from a payload; every field but the message is
    /// required, and the complaint names the first missing one.
    pub fn from_payload(payload: MultipartyPayload) -> (r: Result<Self, String>)
        ensures
            (payload.file_bytes is Some && payload.password is Some && payload.format is Some
                && payload.lsb_deep is Some) <==> r is Ok,
            r matches Ok(req) ==> Some(req.file) == payload.file_bytes && Some(req.password)
                == payload.password && Some(req.format) == payload.format && Some(req.lsb_deep)
                == payload.lsb_deep,
            r matches Err(e) ==> (if payload.file_bytes is None {
                e@ == "The |file bytes| field is required"@
            } else if payload.password is None {
                e@ == "The |password| field is required"@
            } else if payload.format is None {
                e@ == "The |format| field is required"@
            } else {
                e@ == "The |lsb_deep| field is required"@
            }),
    {
        let mut value = payload;
        let file = match value.get_file_bytes() {
            Ok(v) => v,
            Err(e) => {
                return Err(e);
            },
        };
        let password = match value.get_password() {
            Ok(v) => v,
            Err(e) => {
                return Err(e);
            },
        };
        let format = match value.get_format() {
            Ok(v) => v,
            Err(e) => {
                return Err(e);
            },
        };
        let lsb_deep = match value.get_lsb_deep() {
            Ok(v) => v,
            Err(e) => {
                return Err(e);
            },
        };
        Ok(ExtractRequest { file, password, format, lsb_deep })
    }
}

impl ClearRequest {
    /// Builds the request from a payload; every field but the message is
    /// required, and the complaint names the first missing one.
    pub fn from_payload(payload: MultipartyPayload) -> (r: Result<Self, String>)
        ensures
            (payload.file_bytes is Some && payload.password is Some && payload.format is Some
                && payload.lsb_deep is Some) <==> r is Ok,
            r matches Ok(req) ==> Some(req.file) == payload.file_bytes && Some(req.password)
                == payload.password && Some(req.format) == payload.format && Some(req.lsb_deep)
                == payload.lsb_deep,
            r matches Err(e) ==> (if payload.file_bytes is None {
                e@ == "The |file bytes| field is required"@
            } else if payload.password is None {
                e@ == "The |password| field is required"@
            } else if payload.format is None {
                e@ == "The |format| field is required"@
            } else {
                e@ == "The |lsb_deep| field is required"@
            }),
    {
        let mut value = payload;
        let file = match value.get_file_bytes() {
            Ok(v) => v,
            Err(e) => {
                return Err(e);
            },
        };
        let password = match value.get_password() {
            Ok(v) => v,
            Err(e) => {
                return Err(e);
            },
        };
        let format = match value.get_format() {
            Ok(v) => v,
            Err(e) => {
                return Err(e);
            },
        };
        let lsb_deep = match value.get_lsb_deep() {
            Ok(v) => v,
            Err(e) => {
                return Err(e);
            },
        };
        Ok(ClearRequest { file, password, format, lsb_deep })
    }
}

} // verus!

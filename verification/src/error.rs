//! The error taxonomy of the codec and of its clients, with stable display
//! text. The display text of an error is available as a `String` through
//! `display_text`.

use vstd::prelude::*;
use vstd::string::StringExecFns;

verus! {

/// Errors of the codec itself.
#[derive(Debug)]
pub enum StegoError {
    /// The container cannot be used: not a WAV file the codec supports.
    InvalidFile(String),
    /// The payload does not fit; carries the number of samples it would need.
    NotEnoughSamples(usize),
    /// The WAV reader or writer failed; carries its message.
    HoundError(String),
    /// The header did not decode under the given password.
    IncorrectPassword,
    /// The index stream ended before a terminator was seen.
    FailedToReceiveMessage,
    /// Any other failure inside the WAV reader or writer.
    Other(String),
}

pub type ResultStego<T> = Result<T, StegoError>;

/// Errors of the clients that talk to a remote codec service.
#[derive(Debug)]
pub enum StegoWaveClientError {
    ConnectionFailed,
    RequestFailed,
    UlrInvalid,
    Response(String),
}

/// Errors of the format dispatch.
#[derive(Debug)]
pub enum GetStegoError {
    /// The format tag names no known codec.
    StegoNotFoundError,
    /// The codec could not be built; carries the builder's message.
    BuildStegoError(String),
}

/// The decimal digit `d` as a character.
pub open spec fn digit_char(d: nat) -> char
    recommends
        d < 10,
{
    if d == 0 {
        '0'
    } else if d == 1 {
        '1'
    } else if d == 2 {
        '2'
    } else if d == 3 {
        '3'
    } else if d == 4 {
        '4'
    } else if d == 5 {
        '5'
    } else if d == 6 {
        '6'
    } else if d == 7 {
        '7'
    } else if d == 8 {
        '8'
    } else {
        '9'
    }
}

/// The decimal digits of `n`, most significant first.
pub open spec fn dec_digits(n: nat) -> Seq<char>
    decreases n,
{
    if n < 10 {
        seq![digit_char(n)]
    } else {
        dec_digits(n / 10).push(digit_char(n % 10))
    }
}

fn digit_string(d: usize) -> (r: String)
    requires
        d < 10,
    ensures
        r@ =~= seq![digit_char(d as nat)],
{
    proof {
        reveal_strlit("0");
        reveal_strlit("1");
        reveal_strlit("2");
        reveal_strlit("3");
        reveal_strlit("4");
        reveal_strlit("5");
        reveal_strlit("6");
        reveal_strlit("7");
        reveal_strlit("8");
        reveal_strlit("9");
    }
    let s: &str = if d == 0 {
        "0"
    } else if d == 1 {
        "1"
    } else if d == 2 {
        "2"
    } else if d == 3 {
        "3"
    } else if d == 4 {
        "4"
    } else if d == 5 {
        "5"
    } else if d == 6 {
        "6"
    } else if d == 7 {
        "7"
    } else if d == 8 {
        "8"
    } else {
        "9"
    };
    String::from_str(s)
}

/// The decimal rendering of `n`.
pub fn usize_to_dec_string(n: usize) -> (r: String)
    ensures
        r@ =~= dec_digits(n as nat),
    decreases n,
{
    if n < 10 {
        digit_string(n)
    } else {
        proof {
            vstd::arithmetic::div_mod::lemma_div_is_ordered_by_denominator(n as int, 1, 10);
            assert(n as int / 1 == n);
        }
        let mut s = usize_to_dec_string(n / 10);
        s.append(digit_string(n % 10).as_str());
        s
    }
}

impl StegoError {
    /// The display text of this error.
    pub open spec fn spec_display(self) -> Seq<char> {
        match self {
            StegoError::InvalidFile(s) => "InvalidFileError: "@ + s@,
            StegoError::NotEnoughSamples(n) => "NotEnoughSamplesError: minimum required "@
                + dec_digits(n as nat),
            StegoError::HoundError(s) => s@,
            StegoError::IncorrectPassword => "Error password is incorrect"@,
            StegoError::FailedToReceiveMessage => "Could not receive message, file may be corrupted"@,
            StegoError::Other(s) => s@,
        }
    }

    pub fn display_text(&self) -> (r: String)
        ensures
            r@ =~= self.spec_display(),
    {
        match self {
            StegoError::InvalidFile(s) => String::from_str("InvalidFileError: ").concat(s.as_str()),
            StegoError::NotEnoughSamples(n) => String::from_str(
                "NotEnoughSamplesError: minimum required ",
            ).concat(usize_to_dec_string(*n).as_str()),
            StegoError::HoundError(s) => s.clone(),
            StegoError::IncorrectPassword => String::from_str("Error password is incorrect"),
            StegoError::FailedToReceiveMessage => String::from_str(
                "Could not receive message, file may be corrupted",
            ),
            StegoError::Other(s) => s.clone(),
        }
    }
}

impl StegoWaveClientError {
    /// The display text of this error.
    pub open spec fn spec_display(self) -> Seq<char> {
        match self {
            StegoWaveClientError::ConnectionFailed => "Connection failed"@,
            StegoWaveClientError::RequestFailed => "Request failed"@,
            StegoWaveClientError::UlrInvalid => "Invalid server URL"@,
            StegoWaveClientError::Response(s) => s@,
        }
    }

    pub fn display_text(&self) -> (r: String)
        ensures
            r@ =~= self.spec_display(),
    {
        match self {
            StegoWaveClientError::ConnectionFailed => String::from_str("Connection failed"),
            StegoWaveClientError::RequestFailed => String::from_str("Request failed"),
            StegoWaveClientError::UlrInvalid => String::from_str("Invalid server URL"),
            StegoWaveClientError::Response(s) => s.clone(),
        }
    }

    /// A suggestion that a command-line front end can print next to the error.
    pub fn help_message(&self) -> (r: Option<String>)
        ensures
            match r {
                Some(s) => {
                    &&& !(self is Response)
                    &&& (self is ConnectionFailed ==> s@
                        == "Ensure the server is running and check your network connection."@)
                    &&& (self is RequestFailed ==> s@
                        == "Verify that the request parameters are correct and the server is available."@)
                    &&& (self is UlrInvalid ==> s@
                        == "Check that the URL is in the correct format and reachable."@)
                },
                None => self is Response,
            },
    {
        match self {
            StegoWaveClientError::ConnectionFailed => Some(
                String::from_str(
                    "Ensure the server is running and check your network connection.",
                ),
            ),
            StegoWaveClientError::RequestFailed => Some(
                String::from_str(
                    "Verify that the request parameters are correct and the server is available.",
                ),
            ),
            StegoWaveClientError::UlrInvalid => Some(
                String::from_str("Check that the URL is in the correct format and reachable."),
            ),
            StegoWaveClientError::Response(_) => None,
        }
    }
}

impl GetStegoError {
    /// The display text of this error.
    pub open spec fn spec_display(self) -> Seq<char> {
        match self {
            GetStegoError::StegoNotFoundError => "Stego format not found"@,
            GetStegoError::BuildStegoError(s) => s@,
        }
    }

    pub fn display_text(&self) -> (r: String)
        ensures
            r@ =~= self.spec_display(),
    {
        match self {
            GetStegoError::StegoNotFoundError => String::from_str("Stego format not found"),
            GetStegoError::BuildStegoError(s) => s.clone(),
        }
    }
}

} // verus!

//! The proxy's settings: the port it listens on and the pseudonym it gives
//! itself in `Via`.

use vstd::prelude::*;
use std::num::ParseIntError;

verus! {

#[verifier::external_type_specification]
#[verifier::external_body]
pub struct ExParseIntError(ParseIntError);

/// The proxy's settings.
pub struct Config {
    /// The pseudonym used in the `Via` header of proxied requests.
    pub host: String,
    /// The port to listen on.
    pub port: u16,
}

pub open spec fn is_ascii_digit(c: char) -> bool {
    '0' <= c && c <= '9'
}

/// The number that a text of decimal digits writes.
pub open spec fn decimal_value(digits: Seq<char>) -> nat
    decreases digits.len(),
{
    if digits.len() == 0 {
        0
    } else {
        decimal_value(digits.drop_last()) * 10 + ((digits.last() as u32) - ('0' as u32)) as nat
    }
}

/// A text without the `+` it may start with.
pub open spec fn without_plus(s: Seq<char>) -> Seq<char> {
    if s.len() > 0 && s[0] == '+' {
        s.drop_first()
    } else {
        s
    }
}

/// At least one character, each a decimal digit.
pub open spec fn is_decimal(digits: Seq<char>) -> bool {
    digits.len() > 0 && forall|i: int| 0 <= i < digits.len() ==> is_ascii_digit(#[trigger] digits[i])
}

/// What `u16::from_str` makes of a text: an optional `+` followed by at
/// least one decimal digit, with a value that fits in 16 bits.
pub open spec fn parsed_u16(s: Seq<char>) -> Option<u16> {
    let digits = without_plus(s);
    if is_decimal(digits) && decimal_value(digits) <= u16::MAX {
        Some(decimal_value(digits) as u16)
    } else {
        None
    }
}

/// A text with a character that is not a decimal digit, other than a `+`
/// in front, writes no port.
pub proof fn lemma_non_digit_is_refused(text: Seq<char>, i: int)
    requires
        0 <= i < text.len(),
        !is_ascii_digit(text[i]),
        !(i == 0 && text[i] == '+'),
    ensures
        parsed_u16(text) is None,
{
    let digits = without_plus(text);
    let j = if text.len() > 0 && text[0] == '+' {
        i - 1
    } else {
        i
    };
    assert(0 <= j < digits.len() && digits[j] == text[i]);
}

/// The error that `str::parse::<u16>` gives for a text it refuses; it
/// depends on the text alone (its kind tells an empty text, a stray
/// character and a value past 65535 apart).
pub uninterp spec fn u16_parse_error(text: Seq<char>) -> ParseIntError;

/// `str::parse::<u16>` (`u16::from_str`): the number that the text writes,
/// or, for a text that writes none, the parse error of that text.
#[verifier::external_body]
fn parse_u16(text: &str) -> (n: Result<u16, ParseIntError>)
    ensures
        match n {
            Ok(v) => parsed_u16(text@) == Some(v),
            Err(e) => parsed_u16(text@) is None && e == u16_parse_error(text@),
        },
{
    text.parse::<u16>()
}

/// The port used when none is given.
pub open spec fn default_port() -> u16 {
    3030
}

impl Config {
    /// The settings for the values given on the command line: the port
    /// defaults to 3030 and the pseudonym to `warp-cors`; a port that is
    /// not a 16-bit decimal number is refused with the parse error.
    pub fn from_args(port: Option<&str>, host: Option<&str>) -> (config: Result<Config, ParseIntError>)
        ensures
            match config {
                Ok(c) => {
                    &&& match port {
                        Some(p) => parsed_u16(p@) == Some(c.port),
                        None => c.port == default_port(),
                    }
                    &&& c.host@ == match host {
                        Some(h) => h@,
                        None => "warp-cors"@,
                    }
                },
                Err(e) => port matches Some(p) && parsed_u16(p@) is None && e == u16_parse_error(p@),
            },
    {
        let port = match port {
            Some(p) => match parse_u16(p) {
                Ok(n) => n,
                Err(e) => return Err(e),
            },
            None => 3030,
        };
        let host = match host {
            Some(h) => h.to_owned(),
            None => "warp-cors".to_owned(),
        };
        Ok(Config { host, port })
    }
}

} // verus!

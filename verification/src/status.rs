//! HTTP status codes as the log holds them.

use crate::decimal::{decimal, digit_value, is_digit, lemma_decimal_digits};
use crate::text::{lemma_position_is, split_once, split_once_at};
use vstd::prelude::*;
use vstd::string::*;

verus! {

/// An HTTP status code.
#[derive(Debug, Clone, Copy, PartialEq, Eq, PartialOrd, Ord, Structural)]
pub struct StatusCode(pub u16);

/// Why a text is no status column.
#[derive(Debug, Clone, Copy, PartialEq, Eq, Structural)]
pub enum StatusError {
    /// No space follows the code.
    MissingSpace,
    /// What stands before the first space is not three digits, the first of
    /// them other than zero.
    BadCode,
}

/// The reason phrase that goes with a status code (`OK` with 200), or the
/// words that stand in for one where the code has none.
pub uninterp spec fn status_reason(code: u16) -> Seq<char>;

/// What a text of three digits denotes as a status code: the number, where
/// the first digit is not zero.
pub open spec fn parse_code(s: Seq<char>) -> Option<u16> {
    if s.len() == 3 && is_digit(s[0]) && is_digit(s[1]) && is_digit(s[2]) && s[0] != '0' {
        Some((digit_value(s[0]) * 100 + digit_value(s[1]) * 10 + digit_value(s[2])) as u16)
    } else {
        None
    }
}

/// `Display` of `reqwest::StatusCode`, on the code that
/// `reqwest::StatusCode::from_u16` accepts: the number in decimal, a
/// space, and the canonical reason phrase of the code or, for a code
/// without one, a fixed text in its place.
#[verifier::external_body]
fn status_display(code: u16) -> (r: String)
    requires
        100 <= code <= 999,
    ensures
        r@ == decimal(code as nat) + seq![' '] + status_reason(code),
{
    match reqwest::StatusCode::from_u16(code) {
        Ok(status) => status.to_string(),
        Err(_) => String::new(),
    }
}

/// `FromStr` of `reqwest::StatusCode`: a text of exactly three ASCII
/// digits, the first of them not zero, is the code with that number; every
/// other text is refused.
#[verifier::external_body]
fn status_from_str(s: &str) -> (r: Option<u16>)
    ensures
        r == parse_code(s@),
{
    match s.parse::<reqwest::StatusCode>() {
        Ok(status) => Some(status.as_u16()),
        Err(_) => None,
    }
}

impl StatusCode {
    /// Whether the code has three digits.
    pub open spec fn wf(&self) -> bool {
        100 <= self.0 <= 999
    }

    /// The text of the status column: code, space, reason phrase.
    pub open spec fn text(&self) -> Seq<char> {
        decimal(self.0 as nat) + seq![' '] + status_reason(self.0)
    }

    /// What a status column denotes: the code before the first space.
    pub open spec fn parse(s: Seq<char>) -> Result<StatusCode, StatusError> {
        match split_once(s, ' ') {
            None => Err(StatusError::MissingSpace),
            Some((code, _)) => match parse_code(code) {
                Some(n) => Ok(StatusCode(n)),
                None => Err(StatusError::BadCode),
            },
        }
    }

    /// Whether the code has three digits.
    pub fn is_valid(&self) -> (r: bool)
        ensures
            r == self.wf(),
    {
        100 <= self.0 && self.0 <= 999
    }

    /// The status with the given code, where that has three digits.
    pub fn from_u16(code: u16) -> (r: Option<StatusCode>)
        ensures
            r == if 100 <= code <= 999 {
                Some(StatusCode(code))
            } else {
                None
            },
    {
        if 100 <= code && code <= 999 {
            Some(StatusCode(code))
        } else {
            None
        }
    }

    /// The code.
    pub fn as_u16(&self) -> (r: u16)
        ensures
            r == self.0,
    {
        self.0
    }

    /// Whether the code is 200.
    pub fn is_ok(&self) -> (r: bool)
        ensures
            r == (self.0 == 200),
    {
        self.0 == 200
    }

    /// The text of the status column.
    pub fn to_string(&self) -> (r: String)
        requires
            self.wf(),
        ensures
            r@ == self.text(),
    {
        status_display(self.0)
    }

    /// Reads a status column.
    pub fn from_str(s: &str) -> (r: Result<StatusCode, StatusError>)
        ensures
            r == Self::parse(s@),
            r matches Ok(status) ==> status.wf(),
    {
        match split_once_at(s, ' ') {
            None => Err(StatusError::MissingSpace),
            Some((code, _)) => match status_from_str(code) {
                Some(n) => Ok(StatusCode(n)),
                None => Err(StatusError::BadCode),
            },
        }
    }
}

/// The numeral of a three-digit number is read back as that status code.
pub proof fn lemma_parse_code(code: u16)
    requires
        100 <= code <= 999,
    ensures
        parse_code(decimal(code as nat)) == Some(code),
        decimal(code as nat).len() == 3,
{
    let n = code as nat;
    reveal_with_fuel(decimal, 3);
    lemma_decimal_digits(n);
    let s = decimal(n);
    assert(s.len() == 3);
    assert(s =~= seq![s[0], s[1], s[2]]);
    assert(digit_value(s[0]) == n / 100);
    assert(digit_value(s[1]) == (n / 10) % 10);
    assert(digit_value(s[2]) == n % 10);
}

/// Reading the text of a status gives the status back, whatever its reason
/// phrase is.
pub proof fn lemma_status_round_trip(status: StatusCode)
    requires
        status.wf(),
    ensures
        StatusCode::parse(status.text()) == Ok::<StatusCode, StatusError>(status),
{
    let code = decimal(status.0 as nat);
    let text = status.text();
    lemma_parse_code(status.0);
    lemma_decimal_digits(status.0 as nat);
    assert(text[3] == ' ');
    assert forall|j: int| 0 <= j < 3 implies text[j] != ' ' by {
        assert(text[j] == code[j]);
        assert(is_digit(code[j]));
    }
    lemma_position_is(text, ' ', 3);
    assert(text.subrange(0, 3) =~= code);
}

} // verus!

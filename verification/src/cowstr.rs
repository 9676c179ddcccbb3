//! A text that is either borrowed or owned.

use vstd::prelude::*;
use vstd::string::*;

verus! {

/// A text that is either borrowed or owned, readable as characters and as
/// bytes alike.
#[derive(Debug)]
pub enum Cowstr<'t> {
    Str(&'t str),
    String(String),
}

impl<'t> View for Cowstr<'t> {
    type V = Seq<char>;

    open spec fn view(&self) -> Seq<char> {
        match self {
            Cowstr::Str(s) => s@,
            Cowstr::String(s) => s@,
        }
    }
}

impl<'t> Cowstr<'t> {
    /// The text.
    pub fn as_str(&self) -> (r: &str)
        ensures
            r@ == self@,
    {
        match self {
            Cowstr::Str(s) => s,
            Cowstr::String(s) => s.as_str(),
        }
    }

    /// The text as its UTF-8 bytes.
    pub fn as_bytes(&self) -> (r: &[u8])
        ensures
            r@ == vstd::utf8::encode_utf8(self@),
    {
        self.as_str().as_bytes()
    }
}

impl<'t> From<String> for Cowstr<'t> {
    fn from(value: String) -> (r: Self) {
        Self::String(value)
    }
}

impl<'t> vstd::std_specs::convert::FromSpecImpl<String> for Cowstr<'t> {
    open spec fn obeys_from_spec() -> bool {
        true
    }

    open spec fn from_spec(value: String) -> Self {
        Cowstr::String(value)
    }
}

impl<'t> From<&'t str> for Cowstr<'t> {
    fn from(value: &'t str) -> (r: Self) {
        Self::Str(value)
    }
}

impl<'t> vstd::std_specs::convert::FromSpecImpl<&'t str> for Cowstr<'t> {
    open spec fn obeys_from_spec() -> bool {
        true
    }

    open spec fn from_spec(value: &'t str) -> Self {
        Cowstr::Str(value)
    }
}

impl<'t> AsRef<str> for Cowstr<'t> {
    /// The text.
    fn as_ref(&self) -> (r: &str)
        ensures
            ({
                let text: &str = r;
                text@ == self@
            }),
    {
        self.as_str()
    }
}

impl<'t> AsRef<[u8]> for Cowstr<'t> {
    /// The text as its UTF-8 bytes.
    fn as_ref(&self) -> (r: &[u8])
        ensures
            ({
                let bytes: &[u8] = r;
                bytes@ == vstd::utf8::encode_utf8(self@)
            }),
    {
        self.as_bytes()
    }
}

} // verus!

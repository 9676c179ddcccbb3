//! One request: where its response goes, what is kept of it, and what
//! becomes of the file that holds it.

use crate::decimal::{decimal, parse_decimal, parse_unsigned, push_decimal};
use crate::my_crc::{Crc, MyCrc};
use crate::status::StatusCode;
use crate::types::QueryReferenceWithRepetition;
use vstd::prelude::*;
use vstd::string::*;

verus! {

broadcast use vstd::string::group_string_axioms;

/// The port of the default endpoint where none is given.
pub const DEFAULT_PORT: u16 = 8081;

/// Where the body of a response goes.
#[derive(Debug, PartialEq, Eq)]
pub enum OutputMode {
    /// To the standard output.
    Print,
    /// To a file of its own in the given directory.
    Outdir(String),
    /// Nowhere.
    Drop,
}

/// What becomes of the file of a response once the response is complete.
#[derive(Debug, PartialEq, Eq)]
pub enum Cleanup {
    /// The file is removed: it is empty and the status is 200.
    Remove,
    /// The file gets the given name: its own, a dot, and the status.
    Rename(String),
}

/// Why there is no endpoint.
#[derive(Debug, Clone, Copy, PartialEq, Eq, Structural)]
pub enum UrlError {
    /// The port of the environment is no unsigned 16-bit number.
    BadPort,
}

/// A request that is about to be made.
#[derive(Debug)]
pub struct RunQuery {
    pub endpoint_url: String,
    pub query_reference_with_repetition: QueryReferenceWithRepetition,
    pub calculate_crc: bool,
}

/// What is kept of a response.
#[derive(Debug, Clone, Copy, PartialEq, Eq)]
pub struct RunQueryResult {
    pub status: StatusCode,
    /// The number of bytes of the body.
    pub outsize: usize,
    /// The checksum of the body, where one was asked for.
    pub crc: Option<Crc>,
}

/// The text of the endpoint on this machine at `port`.
pub open spec fn local_url(port: u16) -> Seq<char> {
    "http://localhost:"@ + decimal(port as nat) + "/query"@
}

/// The endpoint on this machine: at the port given, else at the port that
/// the environment names, else at the default port.
pub open spec fn default_url_of(port: Option<u16>, env_port: Option<Seq<char>>) -> Result<
    Seq<char>,
    UrlError,
> {
    match port {
        Some(port) => Ok(local_url(port)),
        None => match env_port {
            None => Ok(local_url(DEFAULT_PORT)),
            Some(text) => match parse_unsigned(text, u16::MAX as nat) {
                Some(port) => Ok(local_url(port as u16)),
                None => Err(UrlError::BadPort),
            },
        },
    }
}

/// What the outcome of choosing an endpoint holds.
pub open spec fn url_view(r: Result<String, UrlError>) -> Result<Seq<char>, UrlError> {
    match r {
        Ok(url) => Ok(url@),
        Err(e) => Err(e),
    }
}

/// The endpoint on this machine. `env_port` is what the environment holds
/// under `PORT`, if anything.
pub fn default_url(port: Option<u16>, env_port: Option<&str>) -> (r: Result<String, UrlError>)
    ensures
        url_view(r) == default_url_of(
            port,
            match env_port {
                Some(text) => Some(text@),
                None => None,
            },
        ),
{
    let port: u16 = match port {
        Some(port) => port,
        None => match env_port {
            None => DEFAULT_PORT,
            Some(text) => match parse_decimal(text, u16::MAX as u64) {
                Some(port) => port as u16,
                None => {
                    return Err(UrlError::BadPort);
                },
            },
        },
    };
    let mut url = String::new();
    url.append("http://localhost:");
    push_decimal(&mut url, port as u64);
    url.append("/query");
    proof {
        assert(url@ =~= local_url(port));
    }
    Ok(url)
}

/// The endpoint of a run: the one given, else the default one.
pub fn endpoint_url(url: Option<&str>, port: Option<u16>, env_port: Option<&str>) -> (r: Result<
    String,
    UrlError,
>)
    ensures
        url_view(r) == match url {
            Some(url) => Ok(url@),
            None => default_url_of(
                port,
                match env_port {
                    Some(text) => Some(text@),
                    None => None,
                },
            ),
        },
{
    match url {
        Some(url) => Ok(url.to_owned()),
        None => default_url(port, env_port),
    }
}

/// Whether the run as a whole succeeded on a single request: only with status 200.
pub fn check_status(status: StatusCode) -> (r: Result<(), StatusCode>)
    ensures
        r == if status.0 == 200 {
            Ok::<(), StatusCode>(())
        } else {
            Err::<(), StatusCode>(status)
        },
{
    if status.0 != 200 {
        Err(status)
    } else {
        Ok(())
    }
}

impl OutputMode {
    /// The mode that the options ask for: to drop the output overrides a
    /// directory, and without either the output is printed. The directory
    /// is not made here.
    pub fn from_options(outdir: Option<String>, drop_output: bool) -> (r: Self)
        ensures
            r == if drop_output {
                OutputMode::Drop
            } else {
                match outdir {
                    Some(dir) => OutputMode::Outdir(dir),
                    None => OutputMode::Print,
                }
            },
    {
        if drop_output {
            OutputMode::Drop
        } else {
            match outdir {
                Some(dir) => OutputMode::Outdir(dir),
                None => OutputMode::Print,
            }
        }
    }

    pub fn is_stdout(&self) -> (r: bool)
        ensures
            r == (self is Print),
    {
        match self {
            OutputMode::Print => true,
            OutputMode::Outdir(_) => false,
            OutputMode::Drop => false,
        }
    }

    pub fn is_drop(&self) -> (r: bool)
        ensures
            r == (self is Drop),
    {
        match self {
            OutputMode::Print => false,
            OutputMode::Outdir(_) => false,
            OutputMode::Drop => true,
        }
    }

    /// Whether a newline is printed behind the body: where the body is
    /// printed and the status is not 200.
    pub fn newline_after_body(&self, status: StatusCode) -> (r: bool)
        ensures
            r == (self is Print && status.0 != 200),
    {
        status.0 != 200 && self.is_stdout()
    }
}

/// The name of a response's file once the status is appended to it: the
/// name, a dot, and the status as the log shows it.
pub open spec fn name_with_status(name: Seq<char>, status: StatusCode) -> Seq<char> {
    name + seq!['.'] + status.text()
}

/// What becomes of the file `name` of a complete response: an empty file
/// of a response with status 200 is removed, and every other file is
/// renamed so that its name shows the status.
pub fn cleanup(name: &str, outsize: usize, status: StatusCode) -> (r: Cleanup)
    requires
        status.wf(),
    ensures
        match r {
            Cleanup::Remove => outsize == 0 && status.0 == 200,
            Cleanup::Rename(to) => !(outsize == 0 && status.0 == 200) && to@ == name_with_status(
                name@,
                status,
            ),
        },
{
    if outsize == 0 && status.0 == 200 {
        Cleanup::Remove
    } else {
        proof {
            reveal_strlit(".");
        }
        let mut to = name.to_owned();
        to.append(".");
        let suffix = status.to_string();
        to.append(suffix.as_str());
        proof {
            assert(to@ =~= name_with_status(name@, status));
        }
        Cleanup::Rename(to)
    }
}

/// What is kept of the body of a response while it streams in: its length
/// and, where one is asked for, its running checksum. The body itself is
/// not kept.
pub struct ResponseFold<C: MyCrc> {
    outsize: usize,
    digest: Option<C>,
}

/// Why a body cannot be folded further.
#[derive(Debug, Clone, Copy, PartialEq, Eq, Structural)]
pub enum FoldError {
    /// The body is longer than the machine counts to.
    TooLong,
}

impl<C: MyCrc> ResponseFold<C> {
    /// The number of bytes folded so far.
    pub closed spec fn len(&self) -> nat {
        self.outsize as nat
    }

    /// Whether a checksum is kept.
    pub closed spec fn has_crc(&self) -> bool {
        self.digest is Some
    }

    /// The bytes folded so far, where a checksum is kept.
    pub closed spec fn input(&self) -> Seq<u8> {
        self.digest->Some_0.input()
    }

    /// Whether the length and the checksum are of the same bytes.
    pub closed spec fn wf(&self) -> bool {
        self.digest matches Some(digest) ==> digest.wf() && digest.input().len() == self.outsize
    }

    /// The fold of an empty body.
    pub fn new(calculate_crc: bool) -> (r: Self)
        ensures
            r.wf(),
            r.len() == 0,
            r.has_crc() == calculate_crc,
            calculate_crc ==> r.input() == Seq::<u8>::empty(),
    {
        ResponseFold {
            outsize: 0,
            digest: if calculate_crc {
                Some(C::new())
            } else {
                None
            },
        }
    }

    /// Folds the next bytes of the body in. A body that is too long leaves
    /// the fold as it was.
    pub fn add(&mut self, bytes: &[u8]) -> (r: Result<(), FoldError>)
        requires
            old(self).wf(),
        ensures
            final(self).wf(),
            final(self).has_crc() == old(self).has_crc(),
            match r {
                Ok(_) => {
                    &&& final(self).len() == old(self).len() + bytes@.len()
                    &&& final(self).has_crc() ==> final(self).input() == old(self).input() + bytes@
                },
                Err(_) => {
                    &&& old(self).len() + bytes@.len() > usize::MAX
                    &&& final(self).len() == old(self).len()
                    &&& final(self).has_crc() ==> final(self).input() == old(self).input()
                },
            },
    {
        let len = bytes.len();
        if len > usize::MAX - self.outsize {
            return Err(FoldError::TooLong);
        }
        self.outsize = self.outsize + len;
        match &mut self.digest {
            Some(digest) => {
                digest.add(bytes);
            },
            None => {},
        }
        Ok(())
    }

    /// What is kept of the response once its body is complete.
    pub fn finish(self, status: StatusCode) -> (r: RunQueryResult)
        requires
            self.wf(),
        ensures
            r.status == status,
            r.outsize == self.len(),
            r.crc == if self.has_crc() {
                Some(C::checksum(self.input()))
            } else {
                None
            },
    {
        let crc = match self.digest {
            Some(digest) => Some(digest.finalize()),
            None => None,
        };
        RunQueryResult { status, outsize: self.outsize, crc }
    }
}

} // verus!

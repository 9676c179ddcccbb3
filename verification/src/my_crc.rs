//! The checksum that stands for a response body in the log.

use crate::decimal::{decimal, lemma_parse_decimal, parse_decimal, parse_unsigned, push_decimal};
use crate::text::{lemma_position_is, split_once, split_once_at, str_eq};
use vstd::prelude::*;
use vstd::string::*;

verus! {

broadcast use vstd::string::group_string_axioms;

/// A 64-bit checksum.
#[derive(Debug, Clone, Copy, PartialEq, Eq, PartialOrd, Ord, Structural)]
pub struct Crc(pub u64);

/// Why a text is no checksum.
#[derive(Debug, Clone, Copy, PartialEq, Eq, Structural)]
pub enum CrcError {
    /// There is no `:` in the text.
    MissingColon,
    /// What stands before the first `:` is not `crc`.
    BadPrefix,
    /// What stands behind the first `:` is no unsigned 64-bit decimal number.
    BadNumber,
}

/// The three letters in front of a checksum's number.
pub open spec fn crc_prefix() -> Seq<char> {
    seq!['c', 'r', 'c']
}

impl Crc {
    /// The text of a checksum: `crc:` and the number in decimal.
    pub open spec fn text(&self) -> Seq<char> {
        crc_prefix() + seq![':'] + decimal(self.0 as nat)
    }

    /// What a checksum text denotes.
    pub open spec fn parse(s: Seq<char>) -> Result<Crc, CrcError> {
        match split_once(s, ':') {
            None => Err(CrcError::MissingColon),
            Some((prefix, digits)) => if prefix != crc_prefix() {
                Err(CrcError::BadPrefix)
            } else {
                match parse_unsigned(digits, u64::MAX as nat) {
                    Some(n) => Ok(Crc(n as u64)),
                    None => Err(CrcError::BadNumber),
                }
            },
        }
    }

    /// The checksum as text.
    pub fn to_string(&self) -> (r: String)
        ensures
            r@ == self.text(),
    {
        proof {
            reveal_strlit("crc:");
        }
        let mut out = String::new();
        out.append("crc:");
        push_decimal(&mut out, self.0);
        proof {
            assert(out@ =~= self.text());
        }
        out
    }

    /// Reads a checksum from its text.
    pub fn from_str(s: &str) -> (r: Result<Crc, CrcError>)
        ensures
            r == Self::parse(s@),
    {
        match split_once_at(s, ':') {
            None => Err(CrcError::MissingColon),
            Some((prefix, digits)) => {
                proof {
                    reveal_strlit("crc");
                    assert("crc"@ =~= crc_prefix());
                }
                if !str_eq(prefix, "crc") {
                    Err(CrcError::BadPrefix)
                } else {
                    match parse_decimal(digits, u64::MAX) {
                        Some(n) => Ok(Crc(n)),
                        None => Err(CrcError::BadNumber),
                    }
                }
            },
        }
    }
}

/// Reading the text of a checksum gives the checksum back.
pub proof fn lemma_crc_round_trip(crc: Crc)
    ensures
        Crc::parse(crc.text()) == Ok::<Crc, CrcError>(crc),
{
    let text = crc.text();
    let digits = decimal(crc.0 as nat);
    assert(text[3] == ':');
    assert forall|j: int| 0 <= j < 3 implies text[j] != ':' by {
        assert(text[j] == crc_prefix()[j]);
    }
    lemma_position_is(text, ':', 3);
    assert(text.subrange(0, 3) =~= crc_prefix());
    assert(text.subrange(4, text.len() as int) =~= digits);
    lemma_parse_decimal(crc.0 as nat, u64::MAX as nat);
}

/// The bytes of all chunks, in order, as one run.
pub open spec fn concat(chunks: Seq<Seq<u8>>) -> Seq<u8>
    decreases chunks.len(),
{
    if chunks.len() == 0 {
        Seq::empty()
    } else {
        concat(chunks.drop_last()) + chunks.last()
    }
}

/// A running checksum: bytes are folded in as they arrive, and the checksum
/// of all of them is taken at the end.
pub trait MyCrc: Sized {
    /// Whether the value is a digest of this checksum in working order.
    spec fn wf(&self) -> bool;

    /// The bytes folded in so far, in the order in which they came.
    spec fn input(&self) -> Seq<u8>;

    /// The checksum of a run of bytes.
    spec fn checksum(bytes: Seq<u8>) -> Crc;

    /// A digest into which nothing has been folded yet.
    fn new() -> (r: Self)
        ensures
            r.wf(),
            r.input() == Seq::<u8>::empty(),
    ;

    /// Folds the bytes of `buf` in.
    fn add(&mut self, buf: &[u8])
        requires
            old(self).wf(),
            old(self).input().len() + buf@.len() <= u64::MAX,
        ensures
            final(self).wf(),
            final(self).input() == old(self).input() + buf@,
    ;

    /// The checksum of all that was folded in.
    fn finalize(self) -> (c: Crc)
        requires
            self.wf(),
        ensures
            c == Self::checksum(self.input()),
    ;
}

/// `crc_fast::Digest`: a running checksum of that crate. What it holds is
/// spoken of through `digest_input` and `digest_is_crc64_nvme` only.
#[verifier::external_type_specification]
#[verifier::external_body]
pub struct ExDigest(crc_fast::Digest);

/// The bytes that were folded into a digest since it was made.
pub uninterp spec fn digest_input(digest: crc_fast::Digest) -> Seq<u8>;

/// Whether a digest computes CRC-64/NVME.
pub uninterp spec fn digest_is_crc64_nvme(digest: crc_fast::Digest) -> bool;

/// The CRC-64/NVME checksum of a run of bytes.
pub uninterp spec fn crc64_nvme(bytes: Seq<u8>) -> u64;

/// `crc_fast::Digest::new` for `CrcAlgorithm::Crc64Nvme`: a digest of that
/// algorithm in its initial state, with no byte counted.
#[verifier::external_body]
fn digest_new() -> (digest: crc_fast::Digest)
    ensures
        digest_is_crc64_nvme(digest),
        digest_input(digest) == Seq::<u8>::empty(),
{
    crc_fast::Digest::new(crc_fast::CrcAlgorithm::Crc64Nvme)
}

/// `crc_fast::Digest::update`: advances the state over `data` and adds its
/// length to a 64-bit count of the bytes seen, which must not overflow. The
/// state after two updates is that after one update with both runs of bytes
/// joined, which is what makes the digest a streaming one.
#[verifier::external_body]
fn digest_update(digest: &mut crc_fast::Digest, data: &[u8])
    requires
        digest_input(*old(digest)).len() + data@.len() <= u64::MAX,
    ensures
        digest_is_crc64_nvme(*final(digest)) == digest_is_crc64_nvme(*old(digest)),
        digest_input(*final(digest)) == digest_input(*old(digest)) + data@,
{
    digest.update(data)
}

/// `crc_fast::Digest::finalize`: the checksum of the bytes seen so far, as
/// `crc_fast::checksum` gives it for the digest's algorithm.
#[verifier::external_body]
fn digest_finalize(digest: &crc_fast::Digest) -> (sum: u64)
    requires
        digest_is_crc64_nvme(*digest),
    ensures
        sum == crc64_nvme(digest_input(*digest)),
{
    digest.finalize()
}

impl MyCrc for crc_fast::Digest {
    open spec fn wf(&self) -> bool {
        digest_is_crc64_nvme(*self)
    }

    open spec fn input(&self) -> Seq<u8> {
        digest_input(*self)
    }

    open spec fn checksum(bytes: Seq<u8>) -> Crc {
        Crc(crc64_nvme(bytes))
    }

    fn new() -> (r: Self) {
        digest_new()
    }

    fn add(&mut self, buf: &[u8]) {
        digest_update(self, buf)
    }

    fn finalize(self) -> (c: Crc) {
        Crc(digest_finalize(&self))
    }
}

/// The checksum of `buf`, folded in at once.
pub fn checksum_of<C: MyCrc>(buf: &[u8]) -> (c: Crc)
    ensures
        c == C::checksum(buf@),
{
    let mut digest = C::new();
    let len = buf.len();
    assert(len <= u64::MAX);
    digest.add(buf);
    proof {
        assert(Seq::<u8>::empty() + buf@ =~= buf@);
    }
    digest.finalize()
}

/// The checksum of the bytes of `chunks`, folded in chunk by chunk. It is the
/// checksum of the same bytes folded in at once: how the bytes are cut into
/// chunks makes no difference. The result is `None` where there are more
/// bytes than a 64-bit count holds.
pub fn checksum_of_chunks<C: MyCrc>(chunks: &Vec<Vec<u8>>) -> (r: Option<Crc>)
    ensures
        match r {
            Some(c) => c == C::checksum(concat(chunks.deep_view())),
            None => concat(chunks.deep_view()).len() > u64::MAX,
        },
{
    let mut digest = C::new();
    let mut total: u64 = 0;
    let mut i: usize = 0;
    while i < chunks.len()
        invariant
            i <= chunks@.len(),
            digest.wf(),
            digest.input() == concat(chunks.deep_view().take(i as int)),
            total == digest.input().len(),
        decreases chunks@.len() - i,
    {
        let chunk = chunks[i].as_slice();
        proof {
            assert(chunks.deep_view().take(i + 1).drop_last() =~= chunks.deep_view().take(
                i as int,
            ));
            assert(chunks.deep_view()[i as int] == chunk@);
            lemma_concat_take_len(chunks.deep_view(), i + 1);
        }
        if chunk.len() as u64 > u64::MAX - total {
            return None;
        }
        total = total + chunk.len() as u64;
        digest.add(chunk);
        i = i + 1;
    }
    proof {
        assert(chunks.deep_view().take(i as int) =~= chunks.deep_view());
    }
    Some(digest.finalize())
}

/// The chunks up to the `k`-th hold no more bytes than all of them.
pub proof fn lemma_concat_take_len(chunks: Seq<Seq<u8>>, k: int)
    requires
        0 <= k <= chunks.len(),
    ensures
        concat(chunks.take(k)).len() <= concat(chunks).len(),
    decreases chunks.len() - k,
{
    if k == chunks.len() {
        assert(chunks.take(k) =~= chunks);
    } else {
        lemma_concat_take_len(chunks, k + 1);
        assert(chunks.take(k + 1).drop_last() =~= chunks.take(k));
    }
}

/// The checksum of bytes that are folded in chunk by chunk is the checksum
/// of the same bytes folded in at once, however they are cut into chunks:
/// what `checksum_of_chunks` returns for the chunks is what `checksum_of`
/// returns for the bytes of all of them.
pub proof fn lemma_checksum_chunk_invariant<C: MyCrc>(chunks: Seq<Seq<u8>>, other: Seq<Seq<u8>>)
    requires
        concat(chunks) == concat(other),
    ensures
        C::checksum(concat(chunks)) == C::checksum(concat(seq![concat(chunks)])),
        C::checksum(concat(chunks)) == C::checksum(concat(other)),
{
    lemma_concat_of_cut(concat(chunks), 0);
}

/// A digest into which two runs of bytes are folded one after the other
/// holds what a digest holds into which both runs are folded as one, and
/// so both come to the same checksum; and folding in nothing leaves a
/// digest, and its checksum, as it was. `input` is what the digest held
/// before.
pub proof fn lemma_add_in_parts<C: MyCrc>(input: Seq<u8>, x: Seq<u8>, y: Seq<u8>)
    ensures
        (input + x) + y == input + (x + y),
        C::checksum((input + x) + y) == C::checksum(input + (x + y)),
        input + Seq::<u8>::empty() == input,
        C::checksum(input + Seq::<u8>::empty()) == C::checksum(input),
{
    assert((input + x) + y =~= input + (x + y));
    assert(input + Seq::<u8>::empty() =~= input);
}

/// Cutting a run of bytes in two and joining the pieces gives the run back,
/// wherever the cut is made.
pub proof fn lemma_concat_of_cut(bytes: Seq<u8>, k: int)
    requires
        0 <= k <= bytes.len(),
    ensures
        concat(seq![bytes.take(k), bytes.skip(k)]) == bytes,
        concat(seq![bytes]) == bytes,
{
    let two = seq![bytes.take(k), bytes.skip(k)];
    assert(two.drop_last() =~= seq![bytes.take(k)]);
    assert(seq![bytes.take(k)].drop_last() =~= Seq::<Seq<u8>>::empty());
    assert(seq![bytes].drop_last() =~= Seq::<Seq<u8>>::empty());
    reveal_with_fuel(concat, 3);
    assert(concat(two) =~= bytes);
    assert(concat(seq![bytes]) =~= bytes);
}

} // verus!

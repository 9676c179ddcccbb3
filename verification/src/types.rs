//! The corpus of queries, and references into it.

use crate::decimal::{
    decimal, lemma_parse_decimal, padded_decimal, parse_decimal, parse_unsigned, push_decimal,
    push_padded_decimal,
};
use vstd::prelude::*;
use vstd::string::*;
use vstd::utf8::*;

verus! {

broadcast use vstd::string::group_string_axioms;

/// The byte that ends a line of the corpus.
pub const NEWLINE: u8 = 10;

/// One query: a view into the corpus text, never a copy of it.
#[derive(Debug, Clone, Copy, PartialEq, Eq, PartialOrd, Ord)]
pub struct Query<'s> {
    /// A line of the queries file, or all of the input in single-query mode.
    pub string: &'s str,
}

/// The position of a query in the corpus, counted from zero.
#[derive(Debug, Clone, Copy, PartialEq, Eq, PartialOrd, Ord, Structural)]
pub struct QueryReference {
    /// Entry (line) of the queries file, counted from zero.
    pub query_index: u32,
}

/// A reference together with the number of times it was scheduled before.
#[derive(Debug, Clone, Copy, PartialEq, Eq, PartialOrd, Ord, Structural)]
pub struct QueryReferenceWithRepetition {
    pub query_reference: QueryReference,
    pub repetition: u32,
}

/// Why a text is no line number.
#[derive(Debug, Clone, Copy, PartialEq, Eq, Structural)]
pub enum ReferenceError {
    /// Not an unsigned decimal number that fits 64 bits.
    NotANumber,
    /// Zero: line numbers start at one.
    Zero,
    /// A line number beyond what a reference can hold.
    TooLarge,
}

/// Why a text cannot serve as a corpus.
#[derive(Debug, Clone, Copy, PartialEq, Eq, Structural)]
pub enum CorpusError {
    /// More queries than the limit admits.
    TooManyQueries,
}

/// The spans of the lines of `b` from `pos` on, where the line under way
/// began at `start`: each span runs from the first byte of a line to the
/// newline that ends it, or to the end of `b`.
pub open spec fn lines_from(b: Seq<u8>, start: int, pos: int) -> Seq<(int, int)>
    decreases b.len() - pos,
{
    if pos < 0 || pos >= b.len() {
        seq![(start, b.len() as int)]
    } else if b[pos] == NEWLINE {
        seq![(start, pos)] + lines_from(b, pos + 1, pos + 1)
    } else {
        lines_from(b, start, pos + 1)
    }
}

/// The spans of the queries in a newline-delimited text: its lines, without
/// the last one where that is empty (so a final newline opens no query, and
/// the empty text holds none).
pub open spec fn query_spans(b: Seq<u8>) -> Seq<(int, int)> {
    let all = lines_from(b, 0, 0);
    if all.last().0 == all.last().1 {
        all.drop_last()
    } else {
        all
    }
}

/// The largest number of queries a corpus may hold: one more must still fit
/// a 32-bit line number.
pub open spec fn max_queries() -> nat {
    (u32::MAX - 1) as nat
}

/// The corpus: one owned text and the span of each query in it.
#[derive(Debug)]
pub struct Queries {
    queries_string: String,
    spans: Vec<(usize, usize)>,
}

impl QueryReference {
    /// The line number as shown to people, counted from one.
    pub open spec fn line(&self) -> nat {
        (self.query_index + 1) as nat
    }

    /// What a line number text denotes.
    pub open spec fn parse(s: Seq<char>) -> Result<QueryReference, ReferenceError> {
        match parse_unsigned(s, u64::MAX as nat) {
            None => Err(ReferenceError::NotANumber),
            Some(n) => if n == 0 {
                Err(ReferenceError::Zero)
            } else if n - 1 > u32::MAX {
                Err(ReferenceError::TooLarge)
            } else {
                Ok(QueryReference { query_index: (n - 1) as u32 })
            },
        }
    }

    /// The line number, counted from one, as text.
    pub fn to_string(&self) -> (r: String)
        ensures
            r@ == decimal(self.line()),
    {
        let mut out = String::new();
        push_decimal(&mut out, self.query_index as u64 + 1);
        out
    }

    /// Reads a line number, counted from one.
    pub fn from_str(s: &str) -> (r: Result<QueryReference, ReferenceError>)
        ensures
            r == Self::parse(s@),
    {
        match parse_decimal(s, u64::MAX) {
            None => Err(ReferenceError::NotANumber),
            Some(n) => {
                if n == 0 {
                    Err(ReferenceError::Zero)
                } else if n - 1 > u32::MAX as u64 {
                    Err(ReferenceError::TooLarge)
                } else {
                    Ok(QueryReference { query_index: (n - 1) as u32 })
                }
            },
        }
    }

    /// The index as a `usize`.
    pub fn query_index_usize(&self) -> (r: usize)
        ensures
            r == self.query_index,
    {
        self.query_index as usize
    }
}

/// Reading the line number of a reference gives the reference back.
pub proof fn lemma_reference_round_trip(reference: QueryReference)
    ensures
        QueryReference::parse(decimal(reference.line())) == Ok::<QueryReference, ReferenceError>(
            reference,
        ),
{
    lemma_parse_decimal(reference.line(), u64::MAX as nat);
}

/// In valid UTF-8 a byte below 0x80 stands alone: a character starts at it,
/// and the next one right behind it.
proof fn lemma_ascii_byte_boundaries(b: Seq<u8>, p: int)
    requires
        valid_utf8(b),
        0 <= p < b.len(),
        b[p] < 0x80,
    ensures
        is_char_boundary(b, p),
        is_char_boundary(b, p + 1),
{
    is_char_boundary_iff_not_is_continuation_byte(b, p);
    if p + 1 == b.len() {
        is_char_boundary_start_end_of_seq(b);
    } else {
        valid_utf8_split(b, p);
        let tail = b.subrange(p, b.len() as int);
        assert(tail[0] == b[p]);
        assert(valid_first_scalar(tail) && valid_utf8(pop_first_scalar(tail))) by {
            reveal_with_fuel(valid_utf8, 1);
        }
        assert(length_of_first_scalar(tail) == 1);
        let rest = pop_first_scalar(tail);
        assert(rest =~= b.subrange(p + 1, b.len() as int));
        assert(rest.len() > 0);
        assert(valid_first_scalar(rest)) by {
            reveal_with_fuel(valid_utf8, 1);
        }
        assert(rest[0] == b[p + 1]);
        assert(!is_continuation_byte(b[p + 1]));
        is_char_boundary_iff_not_is_continuation_byte(b, p + 1);
    }
}

/// A character boundary of a text is one of each prefix that reaches it.
proof fn lemma_boundary_in_prefix(b: Seq<u8>, start: int, end: int)
    requires
        valid_utf8(b),
        0 <= start <= end <= b.len(),
        is_char_boundary(b, start),
        is_char_boundary(b, end),
    ensures
        valid_utf8(b.subrange(0, end)),
        is_char_boundary(b.subrange(0, end), start),
{
    valid_utf8_split(b, end);
    let head = b.subrange(0, end);
    if start == end {
        is_char_boundary_start_end_of_seq(head);
    } else {
        is_char_boundary_iff_not_is_continuation_byte(b, start);
        assert(head[start] == b[start]);
        is_char_boundary_iff_not_is_continuation_byte(head, start);
    }
}

/// Whether `spans` cuts `b` into its lines: the first span begins where
/// `b` begins and the last ends where `b` ends, each span ends at a
/// newline right behind which the next begins, and no span holds a newline.
pub open spec fn cuts_into_lines(b: Seq<u8>, spans: Seq<(int, int)>) -> bool {
    &&& spans.len() >= 1
    &&& spans[0].0 == 0
    &&& spans.last().1 == b.len()
    &&& forall|i: int|
        0 <= i < spans.len() ==> 0 <= (#[trigger] spans[i]).0 <= spans[i].1 <= b.len()
    &&& forall|i: int|
        0 <= i < spans.len() - 1 ==> b[(#[trigger] spans[i]).1] == NEWLINE && spans[i + 1].0
            == spans[i].1 + 1
    &&& forall|i: int, k: int|
        0 <= i < spans.len() && (#[trigger] spans[i]).0 <= k < spans[i].1 ==> #[trigger] b[k]
            != NEWLINE
}

/// The lines of a text are what cuts it at its newlines.
pub proof fn lemma_lines_cut_at_newlines(b: Seq<u8>)
    ensures
        cuts_into_lines(b, lines_from(b, 0, 0)),
{
    lemma_lines_from_cut(b, 0, 0);
}

/// The lines from a place on, with the line under way free of newlines so
/// far, cut the rest of the text at its newlines.
proof fn lemma_lines_from_cut(b: Seq<u8>, start: int, pos: int)
    requires
        0 <= start <= pos <= b.len(),
        forall|k: int| start <= k < pos ==> b[k] != NEWLINE,
    ensures
        ({
            let spans = lines_from(b, start, pos);
            &&& spans.len() >= 1
            &&& spans[0].0 == start
            &&& spans.last().1 == b.len()
            &&& forall|i: int|
                0 <= i < spans.len() ==> start <= (#[trigger] spans[i]).0 <= spans[i].1 <= b.len()
            &&& forall|i: int|
                0 <= i < spans.len() - 1 ==> b[(#[trigger] spans[i]).1] == NEWLINE && spans[i
                    + 1].0 == spans[i].1 + 1
            &&& forall|i: int, k: int|
                0 <= i < spans.len() && (#[trigger] spans[i]).0 <= k < spans[i].1
                    ==> #[trigger] b[k] != NEWLINE
        }),
    decreases b.len() - pos,
{
    let spans = lines_from(b, start, pos);
    if pos >= b.len() {
    } else if b[pos] == NEWLINE {
        lemma_lines_from_cut(b, pos + 1, pos + 1);
        let rest = lines_from(b, pos + 1, pos + 1);
        assert(spans == seq![(start, pos)] + rest);
        assert forall|i: int| 0 <= i < spans.len() implies start <= (#[trigger] spans[i]).0
            <= spans[i].1 <= b.len() by {
            if i > 0 {
                assert(spans[i] == rest[i - 1]);
            }
        }
        assert forall|i: int| 0 <= i < spans.len() - 1 implies b[(#[trigger] spans[i]).1]
            == NEWLINE && spans[i + 1].0 == spans[i].1 + 1 by {
            assert(spans[i + 1] == rest[i]);
            if i > 0 {
                assert(spans[i] == rest[i - 1]);
            }
        }
        assert forall|i: int, k: int|
            0 <= i < spans.len() && (#[trigger] spans[i]).0 <= k
                < spans[i].1 implies #[trigger] b[k] != NEWLINE by {
            if i > 0 {
                assert(spans[i] == rest[i - 1]);
            }
        }
        assert(spans.last() == rest.last());
    } else {
        lemma_lines_from_cut(b, start, pos + 1);
    }
}

/// The line under way ends where the scan meets the end of the text.
proof fn lemma_lines_from_bounds(b: Seq<u8>, start: int, pos: int)
    requires
        0 <= start <= pos <= b.len(),
    ensures
        lines_from(b, start, pos).len() >= 1,
        lines_from(b, start, pos).len() <= b.len() - pos + 1,
        forall|i: int|
            0 <= i < lines_from(b, start, pos).len() ==> {
                let span = #[trigger] lines_from(b, start, pos)[i];
                start <= span.0 <= span.1 <= b.len()
            },
    decreases b.len() - pos,
{
    if pos >= b.len() {
    } else if b[pos] == NEWLINE {
        lemma_lines_from_bounds(b, pos + 1, pos + 1);
    } else {
        lemma_lines_from_bounds(b, start, pos + 1);
    }
}

impl Queries {
    /// The text of the corpus.
    pub closed spec fn text(&self) -> Seq<char> {
        self.queries_string@
    }

    /// The text of the corpus as the UTF-8 bytes that the spans index.
    pub open spec fn bytes(&self) -> Seq<u8> {
        encode_utf8(self.text())
    }

    /// Where each query begins and ends in `bytes()`.
    pub closed spec fn spans(&self) -> Seq<(int, int)> {
        Seq::new(self.spans@.len(), |i: int| (self.spans@[i].0 as int, self.spans@[i].1 as int))
    }

    /// Every span lies in the text and cuts it between characters, and one
    /// query more would still have a 32-bit line number.
    pub open spec fn wf(&self) -> bool {
        &&& self.spans().len() <= max_queries()
        &&& forall|i: int|
            0 <= i < self.spans().len() ==> {
                let span = #[trigger] self.spans()[i];
                &&& 0 <= span.0 <= span.1 <= self.bytes().len()
                &&& is_char_boundary(self.bytes(), span.0)
                &&& is_char_boundary(self.bytes(), span.1)
            }
    }

    /// The number of queries.
    pub open spec fn len(&self) -> nat {
        self.spans().len()
    }

    /// The bytes of query `i`.
    pub open spec fn query_bytes(&self, i: int) -> Seq<u8> {
        self.bytes().subrange(self.spans()[i].0, self.spans()[i].1)
    }

    /// The text of query `i`.
    pub open spec fn query_text(&self, i: int) -> Seq<char> {
        decode_utf8(self.query_bytes(i))
    }

    /// The queries, each as its UTF-8 bytes, in corpus order.
    pub open spec fn view(&self) -> Seq<Seq<u8>> {
        Seq::new(self.len(), |i: int| self.query_bytes(i))
    }

    fn new_limited(queries_string: String, split: bool, limit: u32) -> (r: Result<
        Queries,
        CorpusError,
    >)
        requires
            limit <= max_queries(),
        ensures
            match r {
                Ok(q) => {
                    &&& q.wf()
                    &&& q.text() == queries_string@
                    &&& q.spans() == Self::spans_of(queries_string@, split)
                    &&& q.len() <= limit
                },
                Err(e) => {
                    &&& e == CorpusError::TooManyQueries
                    &&& Self::spans_of(queries_string@, split).len() > limit
                },
            },
    {
        let mut spans: Vec<(usize, usize)> = Vec::new();
        let text = queries_string.as_str();
        let bytes = text.as_bytes();
        let n = bytes.len();
        proof {
            encode_utf8_valid_utf8(queries_string@);
            is_char_boundary_start_end_of_seq(bytes@);
        }
        if split {
            let mut start: usize = 0;
            let mut pos: usize = 0;
            while pos < n
                invariant
                    split,
                    n == bytes@.len(),
                    bytes@ == encode_utf8(queries_string@),
                    valid_utf8(bytes@),
                    0 <= start <= pos <= n,
                    is_char_boundary(bytes@, start as int),
                    is_char_boundary(bytes@, n as int),
                    limit <= max_queries(),
                    spans@.len() <= limit,
                    lines_from(bytes@, 0, 0) == Seq::new(
                        spans@.len(),
                        |i: int| (spans@[i].0 as int, spans@[i].1 as int),
                    ) + lines_from(bytes@, start as int, pos as int),
                    forall|i: int|
                        0 <= i < spans@.len() ==> {
                            let span = #[trigger] spans@[i];
                            &&& span.0 <= span.1 <= n
                            &&& is_char_boundary(bytes@, span.0 as int)
                            &&& is_char_boundary(bytes@, span.1 as int)
                        },
                decreases n - pos,
            {
                if bytes[pos] == NEWLINE {
                    proof {
                        lemma_ascii_byte_boundaries(bytes@, pos as int);
                        lemma_lines_from_bounds(bytes@, pos + 1, pos + 1);
                    }
                    if spans.len() >= limit as usize {
                        proof {
                            let done = Seq::new(
                                spans@.len(),
                                |i: int| (spans@[i].0 as int, spans@[i].1 as int),
                            );
                            let rest = lines_from(bytes@, pos + 1, pos + 1);
                            let all = lines_from(bytes@, 0, 0);
                            assert(lines_from(bytes@, start as int, pos as int) == seq![
                                (start as int, pos as int),
                            ] + rest);
                            assert(all.len() == done.len() + 1 + rest.len());
                            assert(all.drop_last().len() == all.len() - 1);
                            assert(query_spans(bytes@).len() >= all.len() - 1);
                        }
                        return Err(CorpusError::TooManyQueries);
                    }
                    let ghost before = Seq::new(
                        spans@.len(),
                        |i: int| (spans@[i].0 as int, spans@[i].1 as int),
                    );
                    spans.push((start, pos));
                    proof {
                        let after = Seq::new(
                            spans@.len(),
                            |i: int| (spans@[i].0 as int, spans@[i].1 as int),
                        );
                        assert(after =~= before + seq![(start as int, pos as int)]);
                        assert(before + (seq![(start as int, pos as int)] + lines_from(
                            bytes@,
                            pos + 1,
                            pos + 1,
                        )) =~= after + lines_from(bytes@, pos + 1, pos + 1));
                    }
                    start = pos + 1;
                }
                pos = pos + 1;
            }
            proof {
                let done = Seq::new(
                    spans@.len(),
                    |i: int| (spans@[i].0 as int, spans@[i].1 as int),
                );
                let all = lines_from(bytes@, 0, 0);
                assert(all =~= done + seq![(start as int, n as int)]);
                assert(all.last() == (start as int, n as int));
                assert(all.drop_last() =~= done);
            }
            if start < n {
                if spans.len() >= limit as usize {
                    return Err(CorpusError::TooManyQueries);
                }
                let ghost before = Seq::new(
                    spans@.len(),
                    |i: int| (spans@[i].0 as int, spans@[i].1 as int),
                );
                spans.push((start, n));
                proof {
                    let after = Seq::new(
                        spans@.len(),
                        |i: int| (spans@[i].0 as int, spans@[i].1 as int),
                    );
                    assert(after =~= before + seq![(start as int, n as int)]);
                }
            }
        } else {
            if limit == 0 {
                return Err(CorpusError::TooManyQueries);
            }
            spans.push((0, n));
            proof {
                let after = Seq::new(
                    spans@.len(),
                    |i: int| (spans@[i].0 as int, spans@[i].1 as int),
                );
                assert(after =~= seq![(0int, n as int)]);
            }
        }
        let q = Queries { queries_string, spans };
        proof {
            assert(q.spans() =~= Self::spans_of(queries_string@, split));
        }
        Ok(q)
    }

    /// The spans of the queries of a text: its lines where `split` holds,
    /// else the whole text as one query.
    pub open spec fn spans_of(text: Seq<char>, split: bool) -> Seq<(int, int)> {
        if split {
            query_spans(encode_utf8(text))
        } else {
            seq![(0int, encode_utf8(text).len() as int)]
        }
    }

    /// The corpus of a newline-delimited text: one query per line.
    pub fn from_lines_string(queries_string: String) -> (r: Result<Queries, CorpusError>)
        ensures
            match r {
                Ok(q) => {
                    &&& q.wf()
                    &&& q.text() == queries_string@
                    &&& q.spans() == query_spans(encode_utf8(queries_string@))
                },
                Err(e) => {
                    &&& e == CorpusError::TooManyQueries
                    &&& query_spans(encode_utf8(queries_string@)).len() > max_queries()
                },
            },
    {
        Self::new_limited(queries_string, true, u32::MAX - 1)
    }

    /// As `from_lines_string`, for a corpus that may hold `limit` queries at most.
    pub fn from_lines_string_limited(queries_string: String, limit: u32) -> (r: Result<
        Queries,
        CorpusError,
    >)
        ensures
            match r {
                Ok(q) => {
                    &&& q.wf()
                    &&& q.text() == queries_string@
                    &&& q.spans() == query_spans(encode_utf8(queries_string@))
                    &&& q.len() <= limit
                },
                Err(e) => {
                    &&& e == CorpusError::TooManyQueries
                    &&& query_spans(encode_utf8(queries_string@)).len() > limit
                        || limit > max_queries()
                },
            },
    {
        if limit > u32::MAX - 1 {
            return Err(CorpusError::TooManyQueries);
        }
        Self::new_limited(queries_string, true, limit)
    }

    /// The corpus that holds the whole text as its only query.
    pub fn from_single_query(queries_string: String) -> (r: Result<Queries, CorpusError>)
        ensures
            r matches Ok(q) && q.wf() && q.text() == queries_string@ && q@ == seq![
                encode_utf8(queries_string@),
            ],
    {
        let r = Self::new_limited(queries_string, false, 1);
        proof {
            if r is Ok {
                let q = r->Ok_0;
                assert(q.query_bytes(0) =~= encode_utf8(queries_string@));
                assert(q@ =~= seq![encode_utf8(queries_string@)]);
            }
        }
        r
    }

    /// The number of queries.
    pub fn num_queries(&self) -> (n: usize)
        ensures
            n == self.len(),
    {
        self.spans.len()
    }

    /// The indices that refer to a query of this corpus.
    pub fn query_index_range(&self) -> (r: std::ops::Range<usize>)
        ensures
            r.start == 0,
            r.end == self.len(),
    {
        0..self.spans.len()
    }

    /// Query `i`, borrowed from the corpus text.
    pub fn get_query(&self, i: u32) -> (q: Query<'_>)
        requires
            self.wf(),
            i < self.len(),
        ensures
            q.string.spec_bytes() == self.query_bytes(i as int),
            q.string@ == self.query_text(i as int),
    {
        let span = self.spans[i as usize];
        let text = self.queries_string.as_str();
        proof {
            assert(self.spans()[i as int] == (span.0 as int, span.1 as int));
            encode_utf8_valid_utf8(self.queries_string@);
            lemma_boundary_in_prefix(text.spec_bytes(), span.0 as int, span.1 as int);
        }
        let (head, _) = text.split_at(span.1);
        let (_, string) = head.split_at(span.0);
        proof {
            encode_utf8_decode_utf8(string@);
            assert(string.spec_bytes() =~= self.query_bytes(i as int));
            assert(decode_utf8(string.spec_bytes()) == string@);
        }
        Query { string }
    }
}

/// The width to which the numbers in an output file's name are padded.
pub const FILE_NAME_DIGITS: usize = 6;

impl QueryReferenceWithRepetition {
    /// The name of the file that holds this instance's response: the line
    /// number, counted from one and padded with zeros so that names sort, and
    /// behind a hyphen the repetition, counted from zero and padded
    /// likewise, where `show_repetition` asks for it.
    pub open spec fn file_name(&self, show_repetition: bool) -> Seq<char> {
        let line = padded_decimal(self.query_reference.line(), FILE_NAME_DIGITS as nat);
        if show_repetition {
            line + seq!['-'] + padded_decimal(self.repetition as nat, FILE_NAME_DIGITS as nat)
        } else {
            line
        }
    }

    /// The name of the file that holds this instance's response.
    pub fn output_file_name(&self, show_repetition: bool) -> (r: String)
        ensures
            r@ == self.file_name(show_repetition),
    {
        let mut out = String::new();
        let line = self.query_reference.query_index as u64 + 1;
        push_padded_decimal(&mut out, line, FILE_NAME_DIGITS);
        if show_repetition {
            proof {
                reveal_strlit("-");
            }
            out.append("-");
            push_padded_decimal(&mut out, self.repetition as u64, FILE_NAME_DIGITS);
        }
        proof {
            assert(out@ =~= self.file_name(show_repetition));
        }
        out
    }

    /// The query that this instance sends.
    pub fn query<'q>(&self, queries: &'q Queries) -> (q: Query<'q>)
        requires
            queries.wf(),
            self.query_reference.query_index < queries.len(),
        ensures
            q.string.spec_bytes() == queries.query_bytes(self.query_reference.query_index as int),
            q.string@ == queries.query_text(self.query_reference.query_index as int),
    {
        queries.get_query(self.query_reference.query_index)
    }
}

} // verus!

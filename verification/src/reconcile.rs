//! Reconciling logs: what a log says of each query, whether it agrees with
//! itself, and whether two logs agree with each other.

use crate::auto_vec::{filled_to, AutoVec};
use crate::decimal::{decimal, push_decimal};
use crate::log_csv::{
    row_outcome, LogCsvReader, LogCsvRecord, LogError, RecordView, ResultView,
};
use crate::my_crc::Crc;
use crate::status::StatusCode;
use crate::text::{trim_end, trimmed_end};
use crate::types::{Queries, QueryReference, QueryReferenceWithRepetition};
use std::sync::Arc;
use vstd::prelude::*;
use vstd::seq_lib::to_multiset_insert;
use vstd::string::*;

verus! {

/// What the log keeps of a response: status, length and checksum.
pub type Summary = (StatusCode, usize, Crc);

/// A finding within one log.
#[derive(Debug, Clone, Copy, PartialEq, Eq, PartialOrd, Ord)]
pub enum SumError {
    /// A later response to a query differs from the first one.
    NonMatchingCrc {
        /// The instance whose response differs.
        reference: QueryReferenceWithRepetition,
        /// What that response was.
        crc: Summary,
    },
}

/// What a log says of its queries.
pub struct SumsView {
    /// For each query up to the last one that was answered: its first
    /// response, if it has one.
    pub entries: Seq<Option<Summary>>,
    /// For each of the same queries: the number of its responses, which
    /// stops at 255.
    pub seen: Seq<u8>,
    /// The later responses that differ from the first, in log order.
    pub errors: Seq<SumError>,
    /// The number of later responses that equal the first; it stops at the
    /// largest number that the machine counts to.
    pub successes: usize,
}

/// What a log says of its queries: the first response to each, and how the
/// later ones compare with it.
#[derive(Debug)]
pub struct Sums {
    path: String,
    sums: AutoVec<Summary>,
    seen: AutoVec<u8>,
    errors: Vec<SumError>,
    successes: usize,
}

/// The summary that stands where there is none.
pub open spec fn no_summary() -> Summary {
    (StatusCode(200), 13131313131313u64 as usize, Crc(0))
}

impl SumsView {
    /// A log without rows.
    pub open spec fn empty() -> SumsView {
        SumsView { entries: Seq::empty(), seen: Seq::empty(), errors: Seq::empty(), successes: 0 }
    }

    /// Whether the counts go with the first responses: a query has a first
    /// response where it has been answered, and only there.
    pub open spec fn wf(self) -> bool {
        &&& self.seen.len() == self.entries.len()
        &&& forall|i: int|
            0 <= i < self.entries.len() ==> ((#[trigger] self.entries[i]) is Some
                <==> self.seen[i] > 0)
    }

    /// The number of responses to query `i`, which stops at 255.
    pub open spec fn seen_count(self, i: int) -> u8 {
        if 0 <= i < self.seen.len() {
            self.seen[i]
        } else {
            0
        }
    }

    /// The counts with one more response to query `i`.
    pub open spec fn seen_once_more(self, i: int) -> Seq<u8> {
        filled_to(self.seen, 0u8, i + 1).update(
            i,
            if self.seen_count(i) < u8::MAX {
                (self.seen_count(i) + 1) as u8
            } else {
                u8::MAX
            },
        )
    }

    /// The first response to query `i`, if the log has one.
    pub open spec fn first(self, i: int) -> Option<Summary> {
        if 0 <= i < self.entries.len() {
            self.entries[i]
        } else {
            None
        }
    }

    /// The log with one more row. A failure changes nothing. A response is
    /// counted for its query, up to 255. The first response to a query is
    /// kept; each later one is held against it and counted where it is the
    /// same, and recorded with its instance where it is not.
    pub open spec fn add(self, record: RecordView) -> SumsView {
        match record.result {
            ResultView::Failure(_) => self,
            ResultView::Response(status, length, crc) => {
                let i = record.query_reference.query_index as int;
                let summary = (status, length, crc);
                match self.first(i) {
                    None => SumsView {
                        entries: filled_to(self.entries, None, i + 1).update(i, Some(summary)),
                        seen: self.seen_once_more(i),
                        ..self
                    },
                    Some(first) => if first == summary {
                        SumsView {
                            seen: self.seen_once_more(i),
                            successes: if self.successes < usize::MAX {
                                (self.successes + 1) as usize
                            } else {
                                self.successes
                            },
                            ..self
                        }
                    } else {
                        SumsView {
                            seen: self.seen_once_more(i),
                            errors: self.errors.push(
                                SumError::NonMatchingCrc {
                                    reference: QueryReferenceWithRepetition {
                                        query_reference: record.query_reference,
                                        repetition: record.repetition,
                                    },
                                    crc: summary,
                                },
                            ),
                            ..self
                        }
                    },
                }
            },
        }
    }
}

/// One more row leaves the counts in step with the first responses.
pub proof fn lemma_add_keeps_counts(sums: SumsView, record: RecordView)
    requires
        sums.wf(),
    ensures
        sums.add(record).wf(),
{
    let after = sums.add(record);
    if record.result is Response {
        let i = record.query_reference.query_index as int;
        assert forall|j: int| 0 <= j < after.entries.len() implies ((
        #[trigger] after.entries[j]) is Some <==> after.seen[j] > 0) by {
            if j != i && j < sums.entries.len() {
                assert(sums.entries[j] is Some <==> sums.seen[j] > 0);
            }
            if j == i && i < sums.entries.len() {
                assert(sums.entries[i] is Some <==> sums.seen[i] > 0);
            }
        }
    }
}

impl Sums {
    /// The name of the file of the log.
    pub closed spec fn path(&self) -> Seq<char> {
        self.path@
    }

    /// Whether the table of first responses and the table of queries seen
    /// go together.
    pub closed spec fn wf(&self) -> bool {
        &&& self.sums@.len() == self.seen@.len()
        &&& self.seen@.len() <= u32::MAX + 1
        &&& self.seen.fill() == 0
        &&& self.sums.fill() == no_summary()
    }

    /// What the log says of its queries.
    pub closed spec fn view(&self) -> SumsView {
        SumsView {
            entries: Seq::new(
                self.seen@.len(),
                |i: int|
                    if self.seen@[i] > 0 {
                        Some(self.sums@[i])
                    } else {
                        None
                    },
            ),
            seen: self.seen@,
            errors: self.errors@,
            successes: self.successes,
        }
    }

    /// The counts of a table go with its first responses.
    pub proof fn lemma_view_wf(&self)
        requires
            self.wf(),
        ensures
            self@.wf(),
    {
    }

    /// The table reaches no further than references do.
    pub proof fn lemma_len_bound(&self)
        requires
            self.wf(),
        ensures
            self@.entries.len() <= u32::MAX + 1,
    {
    }

    /// The table of a log without rows.
    pub fn new(path: String) -> (r: Self)
        ensures
            r.wf(),
            r.path() == path@,
            r@ == SumsView::empty(),
    {
        let r = Sums {
            path,
            sums: AutoVec::new((StatusCode(200), 13131313131313u64 as usize, Crc(0))),
            seen: AutoVec::new(0),
            errors: Vec::new(),
            successes: 0,
        };
        proof {
            assert(r@.entries =~= Seq::<Option<Summary>>::empty());
        }
        r
    }

    /// The number of queries up to the last one that has a response.
    pub fn len(&self) -> (n: usize)
        requires
            self.wf(),
        ensures
            n == self@.entries.len(),
    {
        self.sums.len()
    }

    /// The name of the file of the log.
    pub fn file_path(&self) -> (r: &str)
        ensures
            r@ == self.path(),
    {
        self.path.as_str()
    }

    /// The first response to query `i`, if the log has one.
    pub fn first(&self, i: usize) -> (r: Option<Summary>)
        requires
            self.wf(),
        ensures
            r == self@.first(i as int),
    {
        if self.seen.get_copy(i) > 0 {
            Some(self.sums.get_copy(i))
        } else {
            None
        }
    }

    /// The number of responses to query `i`, which stops at 255.
    pub fn seen(&self, i: usize) -> (r: u8)
        requires
            self.wf(),
        ensures
            r == self@.seen_count(i as int),
    {
        self.seen.get_copy(i)
    }

    /// The later responses that differ from the first, in log order.
    pub fn errors(&self) -> (r: &Vec<SumError>)
        ensures
            r@ == self@.errors,
    {
        &self.errors
    }

    /// The number of later responses that equal the first.
    pub fn successes(&self) -> (r: usize)
        ensures
            r == self@.successes,
    {
        self.successes
    }

    /// Takes one more row of the log into the table.
    pub fn add(&mut self, record: &LogCsvRecord)
        requires
            old(self).wf(),
            record.0.query_index < usize::MAX,
        ensures
            final(self).wf(),
            final(self).path() == old(self).path(),
            final(self)@ == old(self)@.add(record@),
            record@.result is Response ==> final(self)@.seen_count(record.0.query_index as int)
                == if old(self)@.seen_count(record.0.query_index as int) < u8::MAX {
                old(self)@.seen_count(record.0.query_index as int) + 1
            } else {
                u8::MAX as int
            },
            forall|j: int|
                !(record@.result is Response && j == record.0.query_index)
                    ==> #[trigger] final(self)@.seen_count(j) == old(self)@.seen_count(j),
    {
        if let Some(crc) = record.status_length_crc() {
            let i = record.query_reference().query_index_usize();
            let ghost entries = self@.entries;
            let now_uses = self.seen.saturating_inc(i);
            if now_uses > 1 {
                let first_crc = self.sums.get_copy(i);
                if crc.0 == first_crc.0 && crc.1 == first_crc.1 && crc.2 == first_crc.2 {
                    self.successes = self.successes.saturating_add(1);
                } else {
                    self.errors.push(
                        SumError::NonMatchingCrc {
                            reference: record.query_reference_with_repetition(),
                            crc,
                        },
                    );
                }
                proof {
                    assert(self@.entries =~= entries);
                }
            } else {
                self.sums.set(i, crc);
                proof {
                    assert(self@.entries =~= filled_to(entries, None, i + 1).update(
                        i as int,
                        Some(crc),
                    ));
                }
            }
        }
    }
}

/// `regex::Regex`: a regular expression of that crate, made from a
/// pattern. What it matches is spoken of through `regex_accepts` only.
#[verifier::external_type_specification]
#[verifier::external_body]
pub struct ExRegex(regex::Regex);

/// `regex::Error`: why a pattern is no regular expression. It is handed
/// on as it is.
#[verifier::external_type_specification]
#[verifier::external_body]
pub struct ExRegexError(regex::Error);

/// Whether the regular expression that `pattern` describes matches
/// somewhere in `text`; `None` where the pattern describes none, or one
/// that is too large.
pub uninterp spec fn regex_match(pattern: Seq<char>, text: Seq<char>) -> Option<bool>;

/// Whether the regular expression matches somewhere in `text`.
pub uninterp spec fn regex_accepts(regex: regex::Regex, text: Seq<char>) -> bool;

/// `regex::Regex::new`: the expression that the pattern describes, or the
/// error of a pattern that describes no expression or one that is too
/// large. Which of the two is up to the pattern alone, and so is what the
/// expression matches in each text.
#[verifier::external_body]
fn regex_new(pattern: &str) -> (r: Result<regex::Regex, regex::Error>)
    ensures
        match r {
            Ok(regex) => forall|text: Seq<char>| #[trigger]
                regex_match(pattern@, text) == Some(regex_accepts(regex, text)),
            Err(_) => forall|text: Seq<char>| #[trigger] regex_match(pattern@, text) is None,
        },
{
    regex::Regex::new(pattern)
}

/// `regex::Regex::is_match`: whether the expression matches anywhere in the
/// text, which is up to the expression and the text alone.
#[verifier::external_body]
fn regex_is_match(regex: &regex::Regex, text: &str) -> (found: bool)
    ensures
        found == regex_accepts(*regex, text@),
{
    regex.is_match(text)
}

/// Why the options choose no filter.
#[derive(Debug, Clone, Copy, PartialEq, Eq, Structural)]
pub enum FilterError {
    /// A pattern was given on its own and another one in a file.
    TwoPatterns,
    /// A pattern was given, but no corpus to hold it against.
    MissingQueries,
}

/// A pattern that is no regular expression, with what is wrong with it.
#[derive(Debug)]
pub struct BadPattern {
    pub pattern: String,
    pub error: regex::Error,
}

/// The pattern of a filter file: none where the file holds white space
/// only, else its text without the white space at its end.
pub open spec fn pattern_of_file(text: Seq<char>) -> Option<Seq<char>> {
    if trimmed_end(text).len() == 0 {
        None
    } else {
        Some(trimmed_end(text))
    }
}

/// The pattern that the options choose: the one given on its own, or the
/// one of a filter file. To give both is an error, and so is a pattern
/// without a corpus.
pub open spec fn chosen_pattern(
    ignore: Option<Seq<char>>,
    from_file: Option<Seq<char>>,
    has_queries: bool,
) -> Result<Option<Seq<char>>, FilterError> {
    let chosen = match (ignore, from_file) {
        (Some(_), Some(_)) => Err(FilterError::TwoPatterns),
        (Some(pattern), None) => Ok(Some(pattern)),
        (None, Some(text)) => Ok(pattern_of_file(text)),
        (None, None) => Ok(None),
    };
    match chosen {
        Ok(Some(pattern)) => if has_queries {
            Ok(Some(pattern))
        } else {
            Err(FilterError::MissingQueries)
        },
        other => other,
    }
}

/// What the outcome of choosing a pattern holds.
pub open spec fn choice_view(r: Result<Option<&str>, FilterError>) -> Result<
    Option<Seq<char>>,
    FilterError,
> {
    match r {
        Ok(chosen) => Ok(option_text(chosen)),
        Err(e) => Err(e),
    }
}

/// The pattern of a filter file.
pub fn ignore_pattern_from_text(text: &str) -> (r: Option<&str>)
    ensures
        match r {
            Some(pattern) => pattern_of_file(text@) == Some(pattern@),
            None => pattern_of_file(text@) is None,
        },
{
    let pattern = trim_end(text);
    if pattern.is_empty() {
        None
    } else {
        Some(pattern)
    }
}

/// Chooses the pattern of the filter from what was given: the pattern
/// itself in `ignore`, or the text of a filter file in `from_file`.
pub fn choose_ignore_pattern<'a>(
    ignore: Option<&'a str>,
    from_file: Option<&'a str>,
    has_queries: bool,
) -> (r: Result<Option<&'a str>, FilterError>)
    ensures
        choice_view(r) == chosen_pattern(option_text(ignore), option_text(from_file), has_queries),
{
    let chosen = match ignore {
        Some(pattern) => {
            if from_file.is_some() {
                return Err(FilterError::TwoPatterns);
            }
            Some(pattern)
        },
        None => match from_file {
            Some(text) => ignore_pattern_from_text(text),
            None => None,
        },
    };
    if chosen.is_some() && !has_queries {
        return Err(FilterError::MissingQueries);
    }
    Ok(chosen)
}

/// The text that may be given.
pub open spec fn option_text(text: Option<&str>) -> Option<Seq<char>> {
    match text {
        Some(text) => Some(text@),
        None => None,
    }
}

/// A corpus and the regular expression that tells which of its queries to
/// leave out of a comparison.
#[derive(Debug)]
pub struct QueriesWithIgnore {
    path: String,
    queries: Arc<Queries>,
    pattern: String,
    ignore_regex: regex::Regex,
}

/// Why a log cannot be reconciled.
#[derive(Debug)]
pub enum ReconcileError {
    /// A row refers to a query beyond the corpus, or beyond what the
    /// machine can index.
    ReferenceOutOfRange { reference: QueryReference },
    /// The log cannot be read.
    Log(LogError),
    /// The log has more rows than the machine counts to.
    TooManyRows,
}

impl QueriesWithIgnore {
    /// The name of the queries file, for messages.
    pub closed spec fn path(&self) -> Seq<char> {
        self.path@
    }

    /// The corpus.
    pub closed spec fn queries(&self) -> Queries {
        *self.queries
    }

    /// The pattern of the filter.
    pub closed spec fn pattern(&self) -> Seq<char> {
        self.pattern@
    }

    /// Whether the corpus is in order and the expression is that of the
    /// pattern.
    pub closed spec fn wf(&self) -> bool {
        &&& self.queries.wf()
        &&& forall|text: Seq<char>| #[trigger]
            regex_match(self.pattern@, text) == Some(regex_accepts(self.ignore_regex, text))
    }

    /// Whether the query of `reference` is left out: whether the pattern
    /// matches somewhere in its text. `None` where the reference is beyond
    /// the corpus.
    pub open spec fn ignores(&self, reference: QueryReference) -> Option<bool> {
        if reference.query_index < self.queries().len() {
            regex_match(self.pattern(), self.queries().query_text(reference.query_index as int))
        } else {
            None
        }
    }

    /// The filter of `pattern` over the corpus of the file `path`. Every
    /// pattern that describes a regular expression makes a filter.
    pub fn new(path: String, queries: Arc<Queries>, pattern: &str) -> (r: Result<
        QueriesWithIgnore,
        BadPattern,
    >)
        requires
            queries.wf(),
        ensures
            match r {
                Ok(filter) => {
                    &&& filter.wf()
                    &&& filter.path() == path@
                    &&& filter.queries() == *queries
                    &&& filter.pattern() == pattern@
                    &&& forall|text: Seq<char>| #[trigger] regex_match(pattern@, text) is Some
                },
                Err(e) => {
                    &&& e.pattern@ == pattern@
                    &&& forall|text: Seq<char>| #[trigger] regex_match(pattern@, text) is None
                },
            },
    {
        match regex_new(pattern) {
            Ok(ignore_regex) => Ok(
                QueriesWithIgnore { path, queries, pattern: pattern.to_owned(), ignore_regex },
            ),
            Err(error) => Err(BadPattern { pattern: pattern.to_owned(), error }),
        }
    }

    /// The name of the queries file, for messages.
    pub fn file_path(&self) -> (r: &str)
        ensures
            r@ == self.path(),
    {
        self.path.as_str()
    }

    /// Whether the query of `reference` is left out.
    pub fn ignore(&self, reference: QueryReference) -> (r: Result<bool, ReconcileError>)
        requires
            self.wf(),
        ensures
            match r {
                Ok(ignored) => self.ignores(reference) == Some(ignored),
                Err(e) => {
                    &&& reference.query_index >= self.queries().len()
                    &&& e matches ReconcileError::ReferenceOutOfRange { reference: refused }
                    &&& refused == reference
                },
            },
    {
        if reference.query_index_usize() < self.queries.num_queries() {
            let query = self.queries.get_query(reference.query_index);
            Ok(regex_is_match(&self.ignore_regex, query.string))
        } else {
            Err(ReconcileError::ReferenceOutOfRange { reference })
        }
    }
}

/// Whether a row with the given reference is left out of the table: never
/// without a filter, and as the filter says with one. `None` where the
/// reference is beyond the filter's corpus or beyond what the machine can
/// index.
pub open spec fn leaves_out(ignore: Option<QueriesWithIgnore>, reference: QueryReference) -> Option<
    bool,
> {
    if reference.query_index >= usize::MAX {
        None
    } else {
        match ignore {
            Some(filter) => filter.ignores(reference),
            None => Some(false),
        }
    }
}

/// What the rows of a log come to: the number of rows left out, and the
/// table of the others. `None` where some row has a reference out of range.
pub open spec fn tally(ignore: Option<QueriesWithIgnore>, records: Seq<RecordView>) -> Option<
    (nat, SumsView),
>
    decreases records.len(),
{
    if records.len() == 0 {
        Some((0nat, SumsView::empty()))
    } else {
        match tally(ignore, records.drop_last()) {
            None => None,
            Some((num_ignored, sums)) => match leaves_out(ignore, records.last().query_reference) {
                None => None,
                Some(true) => Some((num_ignored + 1, sums)),
                Some(false) => Some((num_ignored, sums.add(records.last()))),
            },
        }
    }
}

/// Takes a row into the table unless the filter leaves it out, and says
/// whether it did.
fn take_row(ignore: Option<&QueriesWithIgnore>, sums: &mut Sums, record: &LogCsvRecord) -> (r:
    Result<bool, ReconcileError>)
    requires
        old(sums).wf(),
        ignore matches Some(filter) ==> filter.wf(),
    ensures
        final(sums).wf(),
        final(sums).path() == old(sums).path(),
        match r {
            Ok(ignored) => leaves_out(option_value(ignore), record.0) == Some(ignored)
                && final(sums)@ == if ignored {
                old(sums)@
            } else {
                old(sums)@.add(record@)
            },
            Err(e) => {
                &&& leaves_out(option_value(ignore), record.0) is None
                &&& final(sums)@ == old(sums)@
                &&& e matches ReconcileError::ReferenceOutOfRange { reference }
                &&& reference == record.0
            },
        },
{
    let reference = record.query_reference();
    if reference.query_index_usize() >= usize::MAX {
        return Err(ReconcileError::ReferenceOutOfRange { reference });
    }
    if let Some(filter) = ignore {
        match filter.ignore(reference) {
            Ok(true) => {
                return Ok(true);
            },
            Ok(false) => {},
            Err(e) => {
                return Err(e);
            },
        }
    }
    sums.add(record);
    Ok(false)
}

/// The filter behind a reference to it.
pub open spec fn option_value(ignore: Option<&QueriesWithIgnore>) -> Option<QueriesWithIgnore> {
    match ignore {
        Some(filter) => Some(*filter),
        None => None,
    }
}

/// What the rows come to.
pub open spec fn records_view(records: Seq<LogCsvRecord>) -> Seq<RecordView> {
    Seq::new(records.len(), |i: int| records[i]@)
}

/// The table of the log `path` with the given rows, and the number of rows
/// that the filter left out of it.
pub fn sums_from_records(
    ignore: Option<&QueriesWithIgnore>,
    path: String,
    records: &Vec<LogCsvRecord>,
) -> (r: Result<(usize, Sums), ReconcileError>)
    requires
        ignore matches Some(filter) ==> filter.wf(),
    ensures
        match r {
            Ok((num_ignored, sums)) => sums.wf() && sums.path() == path@ && tally(
                option_value(ignore),
                records_view(records@),
            ) == Some((num_ignored as nat, sums@)),
            Err(e) => tally(option_value(ignore), records_view(records@)) is None
                && e is ReferenceOutOfRange,
        },
{
    let mut sums = Sums::new(path);
    let mut num_ignored: usize = 0;
    let mut i: usize = 0;
    while i < records.len()
        invariant
            i <= records@.len(),
            num_ignored <= i,
            sums.wf(),
            sums.path() == path@,
            ignore matches Some(filter) ==> filter.wf(),
            tally(option_value(ignore), records_view(records@).take(i as int)) == Some(
                (num_ignored as nat, sums@),
            ),
        decreases records@.len() - i,
    {
        proof {
            assert(records_view(records@).take(i + 1).drop_last() =~= records_view(records@).take(
                i as int,
            ));
        }
        match take_row(ignore, &mut sums, &records[i]) {
            Ok(true) => {
                num_ignored = num_ignored + 1;
            },
            Ok(false) => {},
            Err(e) => {
                proof {
                    lemma_tally_prefix(option_value(ignore), records_view(records@), i + 1);
                }
                return Err(e);
            },
        }
        i = i + 1;
    }
    proof {
        assert(records_view(records@).take(i as int) =~= records_view(records@));
    }
    Ok((num_ignored, sums))
}

/// A log whose first rows cannot be tallied cannot be tallied.
pub proof fn lemma_tally_prefix(
    ignore: Option<QueriesWithIgnore>,
    records: Seq<RecordView>,
    k: int,
)
    requires
        0 <= k <= records.len(),
        tally(ignore, records.take(k)) is None,
    ensures
        tally(ignore, records) is None,
    decreases records.len() - k,
{
    if k == records.len() {
        assert(records.take(k) =~= records);
    } else {
        assert(records.take(k + 1).drop_last() =~= records.take(k));
        lemma_tally_prefix(ignore, records, k + 1);
    }
}

/// Why a log cannot be taken into a table.
pub enum LogFault {
    /// The row with this number, counted from one, cannot be read.
    Row { row: nat },
    /// A row refers to this query, which is out of range.
    Reference { reference: QueryReference },
}

/// What the rows of a log come to, as the CSV reader hands them on: the
/// number of rows left out, and the table of the others. The first row
/// that cannot be read, or that refers to a query out of range, ends the
/// work with its fault.
pub open spec fn tally_rows(
    ignore: Option<QueriesWithIgnore>,
    rows: Seq<Option<Seq<Seq<char>>>>,
) -> Result<(nat, SumsView), LogFault>
    decreases rows.len(),
{
    if rows.len() == 0 {
        Ok((0nat, SumsView::empty()))
    } else {
        match tally_rows(ignore, rows.drop_last()) {
            Err(fault) => Err(fault),
            Ok((num_ignored, sums)) => match row_outcome(rows.last()) {
                Some(Ok(record)) => match leaves_out(ignore, record.query_reference) {
                    None => Err(LogFault::Reference { reference: record.query_reference }),
                    Some(true) => Ok((num_ignored + 1, sums)),
                    Some(false) => Ok((num_ignored, sums.add(record))),
                },
                _ => Err(LogFault::Row { row: rows.len() }),
            },
        }
    }
}

/// A log whose first rows come to a fault comes to that fault.
pub proof fn lemma_tally_rows_prefix(
    ignore: Option<QueriesWithIgnore>,
    rows: Seq<Option<Seq<Seq<char>>>>,
    k: int,
)
    requires
        0 <= k <= rows.len(),
        tally_rows(ignore, rows.take(k)) is Err,
    ensures
        tally_rows(ignore, rows) == tally_rows(ignore, rows.take(k)),
    decreases rows.len() - k,
{
    if k == rows.len() {
        assert(rows.take(k) =~= rows);
    } else {
        assert(rows.take(k + 1).drop_last() =~= rows.take(k));
        lemma_tally_rows_prefix(ignore, rows, k + 1);
    }
}

/// The table of a log that is read to its end, and the number of rows that
/// the filter left out of it. The first row that cannot be read, or that
/// refers to a query out of range, ends the work with its error.
pub fn sums_from_log(
    ignore: Option<&QueriesWithIgnore>,
    path: String,
    reader: &mut LogCsvReader,
) -> (r: Result<(usize, Sums), ReconcileError>)
    requires
        ignore matches Some(filter) ==> filter.wf(),
    ensures
        final(reader).path() == old(reader).path(),
        match r {
            Ok((num_ignored, sums)) => {
                &&& sums.wf()
                &&& sums.path() == path@
                &&& final(reader).rows_left().len() == 0
                &&& tally_rows(option_value(ignore), old(reader).rows_left()) == Ok::<
                    (nat, SumsView),
                    LogFault,
                >((num_ignored as nat, sums@))
            },
            Err(ReconcileError::ReferenceOutOfRange { reference }) => tally_rows(
                option_value(ignore),
                old(reader).rows_left(),
            ) == Err::<(nat, SumsView), LogFault>(LogFault::Reference { reference }),
            Err(ReconcileError::Log(e)) => {
                &&& e.path@ == old(reader).path()
                &&& e.row == final(reader).rows_read()
                &&& tally_rows(option_value(ignore), old(reader).rows_left()) matches Err(
                    LogFault::Row { row },
                )
                &&& old(reader).rows_left().len() - final(reader).rows_left().len() == row
            },
            Err(ReconcileError::TooManyRows) => old(reader).rows_left().len() > usize::MAX,
        },
{
    let mut sums = Sums::new(path);
    let mut num_ignored: usize = 0;
    let ghost rows = reader.rows_left();
    let ghost mut done: int = 0;
    proof {
        assert(rows.take(0) =~= Seq::<Option<Seq<Seq<char>>>>::empty());
        assert(rows.skip(0) =~= rows);
    }
    loop
        invariant
            reader.path() == old(reader).path(),
            rows == old(reader).rows_left(),
            0 <= done <= rows.len(),
            reader.rows_left() == rows.skip(done),
            sums.wf(),
            sums.path() == path@,
            ignore matches Some(filter) ==> filter.wf(),
            num_ignored <= done,
            tally_rows(option_value(ignore), rows.take(done)) == Ok::<(nat, SumsView), LogFault>(
                (num_ignored as nat, sums@),
            ),
        decreases rows.len() - done,
    {
        let next = reader.next();
        proof {
            if done < rows.len() {
                assert(rows.skip(done).drop_first() =~= rows.skip(done + 1));
                assert(rows.skip(done)[0] == rows[done]);
                assert(rows.take(done + 1).drop_last() =~= rows.take(done));
                assert(rows.take(done + 1).last() == rows[done]);
            } else {
                assert(rows.take(done) =~= rows);
            }
        }
        match next {
            None => {
                return Ok((num_ignored, sums));
            },
            Some(Err(e)) => {
                proof {
                    lemma_tally_rows_prefix(option_value(ignore), rows, done + 1);
                }
                return Err(ReconcileError::Log(e));
            },
            Some(Ok(record)) => {
                match take_row(ignore, &mut sums, &record) {
                    Ok(true) => {
                        if num_ignored == usize::MAX {
                            return Err(ReconcileError::TooManyRows);
                        }
                        num_ignored = num_ignored + 1;
                    },
                    Ok(false) => {},
                    Err(e) => {
                        proof {
                            lemma_tally_rows_prefix(option_value(ignore), rows, done + 1);
                        }
                        return Err(e);
                    },
                }
                proof {
                    done = done + 1;
                }
            },
        }
    }
}

/// A query to which the two logs hold different first responses.
#[derive(Debug, Clone, Copy, PartialEq, Eq)]
pub struct Divergence {
    pub reference: QueryReference,
    /// The first response in the first log.
    pub a: Summary,
    /// The first response in the second log.
    pub b: Summary,
}

/// Why two logs cannot be compared.
#[derive(Debug, Clone, Copy, PartialEq, Eq)]
pub enum CompareError {
    /// The tables of the two logs reach to different queries.
    DifferingLengths { a: usize, b: usize },
    /// One log has a response to the query and the other has none.
    SeenInOneOnly { reference: QueryReference, in_a: bool, in_b: bool },
    /// The logs have responses to more queries than the corpus holds.
    CorpusTooShort { num_queries: usize, num_compared: usize },
}

/// What comparing two logs found.
#[derive(Debug)]
pub struct Comparison {
    /// The queries with different first responses, by rising reference.
    pub divergences: Vec<Divergence>,
    /// The number of queries with the same first response in both logs.
    pub num_same: usize,
    /// The number of queries, among those that the tables reach to, that
    /// neither log has a response to.
    pub num_ignored: usize,
}

/// What a `Comparison` holds.
pub struct ComparisonView {
    pub divergences: Seq<Divergence>,
    pub num_same: nat,
    pub num_ignored: nat,
}

impl View for Comparison {
    type V = ComparisonView;

    open spec fn view(&self) -> ComparisonView {
        ComparisonView {
            divergences: self.divergences@,
            num_same: self.num_same as nat,
            num_ignored: self.num_ignored as nat,
        }
    }
}

/// What comparing the first `k` queries of two logs finds, query by query:
/// a query without a response in either log counts as ignored, one with
/// the same first response in both as the same, one with different first
/// responses is a divergence, and one with a response in one log only ends
/// the comparison with an error.
pub open spec fn compare_prefix(a: SumsView, b: SumsView, k: int) -> Result<
    ComparisonView,
    CompareError,
>
    decreases k,
{
    if k <= 0 {
        Ok(ComparisonView { divergences: Seq::empty(), num_same: 0, num_ignored: 0 })
    } else {
        match compare_prefix(a, b, k - 1) {
            Err(e) => Err(e),
            Ok(found) => match (a.first(k - 1), b.first(k - 1)) {
                (None, None) => Ok(
                    ComparisonView { num_ignored: found.num_ignored + 1, ..found },
                ),
                (Some(x), Some(y)) => if x == y {
                    Ok(ComparisonView { num_same: found.num_same + 1, ..found })
                } else {
                    Ok(
                        ComparisonView {
                            divergences: found.divergences.push(
                                Divergence {
                                    reference: QueryReference { query_index: (k - 1) as u32 },
                                    a: x,
                                    b: y,
                                },
                            ),
                            ..found
                        },
                    )
                },
                (x, y) => Err(
                    CompareError::SeenInOneOnly {
                        reference: QueryReference { query_index: (k - 1) as u32 },
                        in_a: x is Some,
                        in_b: y is Some,
                    },
                ),
            },
        }
    }
}

/// What comparing two logs finds. Their tables must reach to the same query.
pub open spec fn compare_views(a: SumsView, b: SumsView) -> Result<ComparisonView, CompareError> {
    if a.entries.len() != b.entries.len() {
        Err(
            CompareError::DifferingLengths {
                a: a.entries.len() as usize,
                b: b.entries.len() as usize,
            },
        )
    } else {
        compare_prefix(a, b, a.entries.len() as int)
    }
}

/// What the outcome of a comparison holds.
pub open spec fn comparison_view(r: Result<Comparison, CompareError>) -> Result<
    ComparisonView,
    CompareError,
> {
    match r {
        Ok(found) => Ok(found@),
        Err(e) => Err(e),
    }
}

/// Every query that a comparison went through is ignored, the same, or a divergence.
pub proof fn lemma_compare_counts(a: SumsView, b: SumsView, k: int)
    requires
        0 <= k,
    ensures
        compare_prefix(a, b, k) matches Ok(found) ==> found.divergences.len() + found.num_same
            + found.num_ignored == k,
    decreases k,
{
    if k > 0 {
        lemma_compare_counts(a, b, k - 1);
    }
}

/// A comparison that fails on its first queries fails.
pub proof fn lemma_compare_prefix_error(a: SumsView, b: SumsView, k: int, n: int)
    requires
        0 <= k <= n,
        compare_prefix(a, b, k) is Err,
    ensures
        compare_prefix(a, b, n) == compare_prefix(a, b, k),
    decreases n - k,
{
    if k < n {
        lemma_compare_prefix_error(a, b, k, n - 1);
    }
}

/// Holds every query of the two logs against each other.
pub fn compare(a: &Sums, b: &Sums) -> (r: Result<Comparison, CompareError>)
    requires
        a.wf(),
        b.wf(),
    ensures
        comparison_view(r) == compare_views(a@, b@),
{
    let len = a.len();
    if len != b.len() {
        return Err(CompareError::DifferingLengths { a: len, b: b.len() });
    }
    proof {
        a.lemma_len_bound();
    }
    let mut found = Comparison { divergences: Vec::new(), num_same: 0, num_ignored: 0 };
    let mut i: usize = 0;
    while i < len
        invariant
            a.wf(),
            b.wf(),
            i <= len,
            len == a@.entries.len(),
            len == b@.entries.len(),
            len <= u32::MAX + 1,
            compare_prefix(a@, b@, i as int) == Ok::<ComparisonView, CompareError>(found@),
            found.divergences@.len() + found.num_same + found.num_ignored == i,
        decreases len - i,
    {
        let reference = QueryReference { query_index: i as u32 };
        match (a.first(i), b.first(i)) {
            (None, None) => {
                found.num_ignored = found.num_ignored + 1;
            },
            (Some(x), Some(y)) => {
                if x.0 == y.0 && x.1 == y.1 && x.2 == y.2 {
                    found.num_same = found.num_same + 1;
                } else {
                    found.divergences.push(Divergence { reference, a: x, b: y });
                }
            },
            (x, y) => {
                proof {
                    assert(compare_prefix(a@, b@, i + 1) == Err::<ComparisonView, CompareError>(
                        CompareError::SeenInOneOnly {
                            reference,
                            in_a: x is Some,
                            in_b: y is Some,
                        },
                    ));
                    lemma_compare_prefix_error(a@, b@, i + 1, len as int);
                }
                return Err(
                    CompareError::SeenInOneOnly {
                        reference,
                        in_a: x.is_some(),
                        in_b: y.is_some(),
                    },
                );
            },
        }
        i = i + 1;
    }
    Ok(found)
}

/// A log compared with itself shows no divergence and no query seen in one
/// log only: every query that its table reaches to is the same or ignored.
pub proof fn lemma_compare_self(a: SumsView)
    ensures
        compare_views(a, a) matches Ok(found) && found.divergences.len() == 0 && found.num_same
            + found.num_ignored == a.entries.len(),
{
    lemma_compare_self_prefix(a, a.entries.len() as int);
}

/// The divergences as seen from the other log.
pub open spec fn swapped(divergences: Seq<Divergence>) -> Seq<Divergence> {
    Seq::new(
        divergences.len(),
        |i: int|
            Divergence {
                reference: divergences[i].reference,
                a: divergences[i].b,
                b: divergences[i].a,
            },
    )
}

/// What a comparison finds as seen from the other log: the same numbers,
/// and the same divergences and the same fault with the two logs swapped.
pub open spec fn mirrored(found: Result<ComparisonView, CompareError>) -> Result<
    ComparisonView,
    CompareError,
> {
    match found {
        Ok(found) => Ok(ComparisonView { divergences: swapped(found.divergences), ..found }),
        Err(CompareError::DifferingLengths { a, b }) => Err(
            CompareError::DifferingLengths { a: b, b: a },
        ),
        Err(CompareError::SeenInOneOnly { reference, in_a, in_b }) => Err(
            CompareError::SeenInOneOnly { reference, in_a: in_b, in_b: in_a },
        ),
        Err(e) => Err(e),
    }
}

/// Comparing two logs the other way round finds the same, seen from the
/// other log.
pub proof fn lemma_compare_mirrored(a: SumsView, b: SumsView)
    ensures
        compare_views(b, a) == mirrored(compare_views(a, b)),
{
    if a.entries.len() == b.entries.len() {
        lemma_compare_prefix_mirrored(a, b, a.entries.len() as int);
    }
}

/// The first `k` queries compared the other way round.
proof fn lemma_compare_prefix_mirrored(a: SumsView, b: SumsView, k: int)
    requires
        0 <= k,
    ensures
        compare_prefix(b, a, k) == mirrored(compare_prefix(a, b, k)),
    decreases k,
{
    if k == 0 {
        assert(swapped(Seq::<Divergence>::empty()) =~= Seq::<Divergence>::empty());
    } else {
        lemma_compare_prefix_mirrored(a, b, k - 1);
        match compare_prefix(a, b, k - 1) {
            Ok(found) => {
                match (a.first(k - 1), b.first(k - 1)) {
                    (Some(x), Some(y)) => {
                        if x != y {
                            let d = Divergence {
                                reference: QueryReference { query_index: (k - 1) as u32 },
                                a: x,
                                b: y,
                            };
                            let e = Divergence { reference: d.reference, a: y, b: x };
                            assert(swapped(found.divergences.push(d)) =~= swapped(
                                found.divergences,
                            ).push(e));
                        }
                    },
                    _ => {},
                }
            },
            Err(_) => {},
        }
    }
}

/// Two readings of the same rows with the same filter come to the same
/// number of rows left out and to the same table, and the two tables held
/// against each other show no divergence and no query seen in one only.
pub proof fn lemma_same_log_agrees(
    ignore: Option<QueriesWithIgnore>,
    rows: Seq<Option<Seq<Seq<char>>>>,
    a: (nat, SumsView),
    b: (nat, SumsView),
)
    requires
        tally_rows(ignore, rows) == Ok::<(nat, SumsView), LogFault>(a),
        tally_rows(ignore, rows) == Ok::<(nat, SumsView), LogFault>(b),
    ensures
        a == b,
        compare_views(a.1, b.1) matches Ok(found) && found.divergences.len() == 0
            && found.num_same + found.num_ignored == a.1.entries.len(),
{
    lemma_compare_self(a.1);
}

/// The first `k` queries of a log compared with themselves show no divergence.
proof fn lemma_compare_self_prefix(a: SumsView, k: int)
    requires
        0 <= k,
    ensures
        compare_prefix(a, a, k) matches Ok(found) && found.divergences.len() == 0
            && found.num_same + found.num_ignored == k,
    decreases k,
{
    if k > 0 {
        lemma_compare_self_prefix(a, k - 1);
    }
}

/// The numbers that a comparison comes to.
#[derive(Debug, Clone, Copy, PartialEq, Eq, Structural)]
pub struct Verdict {
    /// The number of queries to which the two logs hold different responses.
    pub num_errors: usize,
    /// The number of queries to which they hold the same response.
    pub num_same: usize,
    /// The number of queries of the corpus to which neither holds a response.
    pub num_ignored: usize,
    /// The number of responses in the first log that differ from the first
    /// response to the same query.
    pub num_unstable_a: usize,
    /// The same number for the second log.
    pub num_unstable_b: usize,
}

impl Verdict {
    /// The summary in words.
    pub open spec fn summary(self, requests_ignored_a: usize, requests_ignored_b: usize) -> Seq<
        char,
    > {
        "=> "@ + decimal(self.num_errors as nat) + " queries gave CRC differences, "@ + decimal(
            self.num_same as nat,
        ) + " had the same CRC, "@ + decimal(self.num_ignored as nat) + " were ignored ("@
            + decimal(requests_ignored_a as nat) + " and "@ + decimal(requests_ignored_b as nat)
            + " requests)"@
    }

    /// Whether the logs are free of defects: no query with different
    /// responses in the two logs, and none within either log.
    pub fn is_success(&self) -> (r: bool)
        ensures
            r == (self.num_errors == 0 && self.num_unstable_a == 0 && self.num_unstable_b == 0),
    {
        self.num_errors == 0 && self.num_unstable_a == 0 && self.num_unstable_b == 0
    }

    /// The summary in words; the last two numbers are those of the rows
    /// that the filter left out of each log.
    pub fn summary_line(&self, requests_ignored_a: usize, requests_ignored_b: usize) -> (r: String)
        ensures
            r@ == self.summary(requests_ignored_a, requests_ignored_b),
    {
        let mut line = String::new();
        line.append("=> ");
        push_decimal(&mut line, self.num_errors as u64);
        line.append(" queries gave CRC differences, ");
        push_decimal(&mut line, self.num_same as u64);
        line.append(" had the same CRC, ");
        push_decimal(&mut line, self.num_ignored as u64);
        line.append(" were ignored (");
        push_decimal(&mut line, requests_ignored_a as u64);
        line.append(" and ");
        push_decimal(&mut line, requests_ignored_b as u64);
        line.append(" requests)");
        proof {
            assert(line@ =~= self.summary(requests_ignored_a, requests_ignored_b));
        }
        line
    }
}

/// The numbers that a comparison comes to, for a corpus of `num_queries`
/// queries: every query without a response in either log counts as
/// ignored, whether the tables reach to it or not. The corpus must hold
/// the queries that the comparison went through.
pub fn verdict(found: &Comparison, a: &Sums, b: &Sums, num_queries: usize) -> (r: Result<
    Verdict,
    CompareError,
>)
    ensures
        match r {
            Ok(verdict) => {
                &&& found@.divergences.len() + found@.num_same + found@.num_ignored <= num_queries
                &&& verdict == Verdict {
                    num_errors: found@.divergences.len() as usize,
                    num_same: found.num_same,
                    num_ignored: (num_queries - found@.divergences.len()
                        - found@.num_same) as usize,
                    num_unstable_a: a@.errors.len() as usize,
                    num_unstable_b: b@.errors.len() as usize,
                }
            },
            Err(e) => {
                &&& found@.divergences.len() + found@.num_same + found@.num_ignored > num_queries
                &&& e matches CompareError::CorpusTooShort { num_queries: n, .. }
                &&& n == num_queries
            },
        },
{
    let num_errors = found.divergences.len();
    let answered = num_errors as u128 + found.num_same as u128;
    let compared = answered + found.num_ignored as u128;
    if compared > num_queries as u128 {
        let num_compared = if compared > usize::MAX as u128 {
            usize::MAX
        } else {
            compared as usize
        };
        return Err(CompareError::CorpusTooShort { num_queries, num_compared });
    }
    Ok(
        Verdict {
            num_errors,
            num_same: found.num_same,
            num_ignored: num_queries - answered as usize,
            num_unstable_a: a.errors().len(),
            num_unstable_b: b.errors().len(),
        },
    )
}

impl SumError {
    /// The instance of the finding.
    pub open spec fn instance(self) -> QueryReferenceWithRepetition {
        match self {
            SumError::NonMatchingCrc { reference, .. } => reference,
        }
    }

    /// The response of the finding.
    pub open spec fn response(self) -> Summary {
        match self {
            SumError::NonMatchingCrc { crc, .. } => crc,
        }
    }

    /// The order of findings in a report: by reference, then by
    /// repetition, then by status, length and checksum of the response.
    pub open spec fn in_order(self, other: SumError) -> bool {
        let a = self.instance();
        let b = other.instance();
        let x = self.response();
        let y = other.response();
        if a.query_reference.query_index != b.query_reference.query_index {
            a.query_reference.query_index < b.query_reference.query_index
        } else if a.repetition != b.repetition {
            a.repetition < b.repetition
        } else if x.0.0 != y.0.0 {
            x.0.0 < y.0.0
        } else if x.1 != y.1 {
            x.1 < y.1
        } else {
            x.2.0 <= y.2.0
        }
    }

    /// Whether the finding stands before `other` in a report, or is the same.
    pub fn precedes(&self, other: &SumError) -> (r: bool)
        ensures
            r == self.in_order(*other),
    {
        match (self, other) {
            (
                SumError::NonMatchingCrc { reference: a, crc: x },
                SumError::NonMatchingCrc { reference: b, crc: y },
            ) => {
                if a.query_reference.query_index != b.query_reference.query_index {
                    a.query_reference.query_index < b.query_reference.query_index
                } else if a.repetition != b.repetition {
                    a.repetition < b.repetition
                } else if x.0.0 != y.0.0 {
                    x.0.0 < y.0.0
                } else if x.1 != y.1 {
                    x.1 < y.1
                } else {
                    x.2.0 <= y.2.0
                }
            },
        }
    }
}

/// A summary as a report shows it: status, length and checksum, with tabs
/// between them.
pub open spec fn summary_text(summary: Summary) -> Seq<char> {
    summary.0.text() + seq!['\t'] + decimal(summary.1 as nat) + seq!['\t'] + summary.2.text()
}

/// Appends a tab and a summary as a report shows it.
fn push_summary(out: &mut String, summary: &Summary)
    requires
        summary.0.wf(),
    ensures
        final(out)@ == old(out)@ + seq!['\t'] + summary_text(*summary),
{
    proof {
        reveal_strlit("\t");
    }
    out.append("\t");
    let status = summary.0.to_string();
    out.append(status.as_str());
    out.append("\t");
    push_decimal(out, summary.1 as u64);
    out.append("\t");
    let crc = summary.2.to_string();
    out.append(crc.as_str());
    proof {
        assert(out@ =~= old(out)@ + seq!['\t'] + summary_text(*summary));
    }
}

/// What stands for the text of a query that cannot be shown because no
/// corpus was given.
pub open spec fn missing_queries_text() -> Seq<char> {
    "<error: missing --queries option>"@
}

/// What stands for the text of a query that is beyond the corpus.
pub open spec fn missing_line_text() -> Seq<char> {
    "<error: line is not in given query file>"@
}

/// The text of the query of `reference` for a report, or what stands for
/// it where there is no corpus, or none that holds the query.
pub fn query_text_for_report<'a>(queries: Option<&'a Queries>, reference: QueryReference) -> (r:
    &'a str)
    requires
        queries matches Some(corpus) ==> corpus.wf(),
    ensures
        r@ == match queries {
            Some(corpus) => if reference.query_index < corpus.len() {
                corpus.query_text(reference.query_index as int)
            } else {
                missing_line_text()
            },
            None => missing_queries_text(),
        },
{
    match queries {
        Some(corpus) => {
            if reference.query_index_usize() < corpus.num_queries() {
                corpus.get_query(reference.query_index).string
            } else {
                "<error: line is not in given query file>"
            }
        },
        None => "<error: missing --queries option>",
    }
}

impl Divergence {
    /// The line of a report for the divergence: the line number of the
    /// query, the response of either log, and the text of the query, with
    /// tabs between them.
    pub open spec fn report(self, query: Seq<char>) -> Seq<char> {
        decimal(self.reference.line()) + seq!['\t'] + summary_text(self.a) + seq!['\t']
            + summary_text(self.b) + seq!['\t'] + query
    }

    /// The line of a report for the divergence.
    pub fn report_line(&self, query: &str) -> (r: String)
        requires
            self.a.0.wf(),
            self.b.0.wf(),
        ensures
            r@ == self.report(query@),
    {
        proof {
            reveal_strlit("\t");
        }
        let mut line = self.reference.to_string();
        push_summary(&mut line, &self.a);
        push_summary(&mut line, &self.b);
        line.append("\t");
        line.append(query);
        proof {
            assert(line@ =~= self.report(query@));
        }
        line
    }
}

impl SumError {
    /// The line of a report for the finding: line number and repetition of
    /// the instance, the first response to the query, and the response of
    /// the instance, with tabs between them.
    pub open spec fn report(self, first: Summary) -> Seq<char> {
        decimal(self.instance().query_reference.line()) + seq!['\t'] + decimal(
            self.instance().repetition as nat,
        ) + seq!['\t'] + summary_text(first) + seq!['\t'] + summary_text(self.response())
    }

    /// The line of a report for the finding, given the first response to
    /// the query.
    pub fn report_line(&self, first: &Summary) -> (r: String)
        requires
            first.0.wf(),
            self.response().0.wf(),
        ensures
            r@ == self.report(*first),
    {
        proof {
            reveal_strlit("\t");
        }
        match self {
            SumError::NonMatchingCrc { reference, crc } => {
                let mut line = reference.query_reference.to_string();
                line.append("\t");
                push_decimal(&mut line, reference.repetition as u64);
                push_summary(&mut line, first);
                push_summary(&mut line, crc);
                proof {
                    assert(line@ =~= self.report(*first));
                }
                line
            },
        }
    }
}

/// Whether the findings stand in the order of a report.
pub open spec fn sorted(errors: Seq<SumError>) -> bool {
    forall|i: int, j: int|
        0 <= i < j < errors.len() ==> (#[trigger] errors[i]).in_order(#[trigger] errors[j])
}

/// The findings in the order of a report: the same findings, each as often
/// as before, by reference, repetition and response.
pub fn sorted_errors(errors: &Vec<SumError>) -> (r: Vec<SumError>)
    ensures
        sorted(r@),
        r@.to_multiset() == errors@.to_multiset(),
{
    let mut out: Vec<SumError> = Vec::new();
    let mut i: usize = 0;
    proof {
        assert(errors@.take(0) =~= Seq::<SumError>::empty());
    }
    while i < errors.len()
        invariant
            i <= errors@.len(),
            out@.len() == i,
            sorted(out@),
            out@.to_multiset() == errors@.take(i as int).to_multiset(),
        decreases errors@.len() - i,
    {
        let x = errors[i];
        let mut p: usize = out.len();
        while p > 0 && !out[p - 1].precedes(&x)
            invariant
                p <= out@.len(),
                forall|k: int| p <= k < out@.len() ==> x.in_order(#[trigger] out@[k]),
            decreases p,
        {
            p = p - 1;
        }
        let ghost before = out@;
        out.insert(p, x);
        proof {
            to_multiset_insert(before, p as int, x);
            assert(errors@.take(i + 1) =~= errors@.take(i as int).push(x));
            vstd::seq_lib::to_multiset_build(errors@.take(i as int), x);
            assert forall|a: int, b: int| 0 <= a < b < out@.len() implies (
            #[trigger] out@[a]).in_order(#[trigger] out@[b]) by {
                if b < p {
                    assert(out@[a] == before[a] && out@[b] == before[b]);
                } else if b == p {
                    assert(out@[a] == before[a]);
                    assert(before[a].in_order(before[p - 1]) || a == p - 1);
                } else if a < p {
                    assert(out@[a] == before[a] && out@[b] == before[b - 1]);
                } else if a == p {
                    assert(out@[b] == before[b - 1]);
                } else {
                    assert(out@[a] == before[a - 1] && out@[b] == before[b - 1]);
                }
            }
        }
        i = i + 1;
    }
    proof {
        assert(errors@.take(i as int) =~= errors@);
    }
    out
}

} // verus!

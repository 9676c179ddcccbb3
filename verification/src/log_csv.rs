//! The log of a run: one row for each instance that was executed.

use crate::cowstr::Cowstr;
use crate::decimal::{decimal, lemma_parse_decimal, parse_decimal, parse_unsigned, push_decimal};
use crate::my_crc::{lemma_crc_round_trip, Crc};
use crate::status::{lemma_status_round_trip, StatusCode, StatusError};
use crate::text::str_eq;
use crate::time::{lemma_seconds_round_trip, Seconds, UnixTimeWrap};
use crate::types::{
    lemma_reference_round_trip, Queries, QueryReference, QueryReferenceWithRepetition,
};
use std::sync::Arc;
use vstd::prelude::*;
use vstd::string::*;

verus! {

broadcast use vstd::string::group_string_axioms;

/// The number of columns of a row without the query text.
pub const NUM_COLS: usize = 10;

/// What came of a query.
#[derive(Debug, PartialEq, Eq)]
pub enum LogCsvResult {
    /// A response: its status, the length of its body, and the checksum of
    /// the body. The log writes `Ok` for it.
    Response(StatusCode, usize, Crc),
    /// No response: the failure in words. The log writes `Err` for it.
    Failure(String),
}

/// A row of the log.
#[derive(Debug, PartialEq, Eq)]
pub struct LogCsvRecord(
    /// The reference (line number) into the queries file.
    pub QueryReference,
    /// The repetition.
    pub u32,
    /// When the query was sent.
    pub UnixTimeWrap,
    /// When the response was complete.
    pub UnixTimeWrap,
    /// The time between the two.
    pub Seconds,
    /// What came of it; this takes four columns.
    pub LogCsvResult,
);

/// What a `LogCsvResult` holds.
pub enum ResultView {
    Response(StatusCode, usize, Crc),
    Failure(Seq<char>),
}

/// What a `LogCsvRecord` holds.
pub struct RecordView {
    pub query_reference: QueryReference,
    pub repetition: u32,
    pub start: UnixTimeWrap,
    pub end: UnixTimeWrap,
    pub duration: Seconds,
    pub result: ResultView,
}

/// The column that a row fails on.
#[derive(Debug, Clone, Copy, PartialEq, Eq, Structural)]
pub enum RowError {
    /// The line number is none, is zero, or is too large.
    Line,
    /// The repetition is no unsigned 32-bit number.
    Repetition,
    /// The start time is no number of seconds.
    Start,
    /// The end time is no number of seconds.
    End,
    /// The duration is no number of seconds.
    Duration,
    /// The column that tells responses from failures holds neither `Ok` nor `Err`.
    OkErr,
    /// The status of a response is not followed by a space.
    StatusSpace,
    /// The status of a response is no status code.
    Status,
    /// The length of a response is no unsigned number that fits the machine.
    Length,
    /// The checksum of a response is none.
    Crc,
}

impl View for LogCsvResult {
    type V = ResultView;

    open spec fn view(&self) -> ResultView {
        match self {
            LogCsvResult::Response(status, length, crc) => ResultView::Response(
                *status,
                *length,
                *crc,
            ),
            LogCsvResult::Failure(message) => ResultView::Failure(message@),
        }
    }
}

impl View for LogCsvRecord {
    type V = RecordView;

    open spec fn view(&self) -> RecordView {
        RecordView {
            query_reference: self.0,
            repetition: self.1,
            start: self.2,
            end: self.3,
            duration: self.4,
            result: self.5@,
        }
    }
}

impl RecordView {
    /// Whether the times count their nanoseconds within a second and the
    /// status, if there is one, has three digits.
    pub open spec fn wf(&self) -> bool {
        &&& self.start.0.wf()
        &&& self.end.0.wf()
        &&& self.duration.wf()
        &&& self.result matches ResultView::Response(status, _, _) ==> status.wf()
    }
}

/// The text `Ok`.
pub open spec fn ok_text() -> Seq<char> {
    seq!['O', 'k']
}

/// The text `Err`.
pub open spec fn err_text() -> Seq<char> {
    seq!['E', 'r', 'r']
}

/// The ten columns of a record.
pub open spec fn record_columns(record: RecordView) -> Seq<Seq<char>> {
    let head = seq![
        decimal(record.query_reference.line()),
        decimal(record.repetition as nat),
        record.start.0.text(),
        record.end.0.text(),
        record.duration.text(),
    ];
    match record.result {
        ResultView::Response(status, length, crc) => head + seq![
            ok_text(),
            status.text(),
            decimal(length as nat),
            crc.text(),
            Seq::empty(),
        ],
        ResultView::Failure(message) => head + seq![
            err_text(),
            Seq::empty(),
            Seq::empty(),
            Seq::empty(),
            message,
        ],
    }
}

/// What the four columns of the result denote.
pub open spec fn parse_result(row: Seq<Seq<char>>) -> Result<ResultView, RowError>
    recommends
        row.len() == NUM_COLS,
{
    if row[5] == ok_text() {
        match StatusCode::parse(row[6]) {
            Err(StatusError::MissingSpace) => Err(RowError::StatusSpace),
            Err(StatusError::BadCode) => Err(RowError::Status),
            Ok(status) => match parse_unsigned(row[7], usize::MAX as nat) {
                None => Err(RowError::Length),
                Some(length) => match Crc::parse(row[8]) {
                    Err(_) => Err(RowError::Crc),
                    Ok(crc) => Ok(ResultView::Response(status, length as usize, crc)),
                },
            },
        }
    } else if row[5] == err_text() {
        Ok(ResultView::Failure(row[9]))
    } else {
        Err(RowError::OkErr)
    }
}

/// What a row of ten columns denotes. The columns are read from left to
/// right, and the first that cannot be read decides the error; of the
/// columns that a failure leaves empty and a response fills, only those
/// that the kind of the row calls for are read.
pub open spec fn parse_columns(row: Seq<Seq<char>>) -> Result<RecordView, RowError>
    recommends
        row.len() == NUM_COLS,
{
    match QueryReference::parse(row[0]) {
        Err(_) => Err(RowError::Line),
        Ok(query_reference) => match parse_unsigned(row[1], u32::MAX as nat) {
            None => Err(RowError::Repetition),
            Some(repetition) => match Seconds::parse(row[2]) {
                None => Err(RowError::Start),
                Some(start) => match Seconds::parse(row[3]) {
                    None => Err(RowError::End),
                    Some(end) => match Seconds::parse(row[4]) {
                        None => Err(RowError::Duration),
                        Some(duration) => match parse_result(row) {
                            Err(e) => Err(e),
                            Ok(result) => Ok(
                                RecordView {
                                    query_reference,
                                    repetition: repetition as u32,
                                    start: UnixTimeWrap(start),
                                    end: UnixTimeWrap(end),
                                    duration,
                                    result,
                                },
                            ),
                        },
                    },
                },
            },
        },
    }
}

/// What the outcome of reading a row holds.
pub open spec fn outcome_view(r: Result<LogCsvRecord, RowError>) -> Result<RecordView, RowError> {
    match r {
        Ok(record) => Ok(record@),
        Err(e) => Err(e),
    }
}

/// The texts of a row.
pub open spec fn row_view(row: Seq<&str>) -> Seq<Seq<char>> {
    Seq::new(row.len(), |i: int| row[i]@)
}

impl LogCsvRecord {
    /// Whether the times count their nanoseconds within a second and the
    /// status, if there is one, has three digits.
    pub open spec fn wf(&self) -> bool {
        self@.wf()
    }

    /// Whether the times count their nanoseconds within a second and the
    /// status, if there is one, has three digits.
    pub fn is_valid(&self) -> (r: bool)
        ensures
            r == self.wf(),
    {
        self.2.0.is_valid() && self.3.0.is_valid() && self.4.is_valid() && match &self.5 {
            LogCsvResult::Response(status, _, _) => status.is_valid(),
            LogCsvResult::Failure(_) => true,
        }
    }

    pub fn query_reference(&self) -> (r: QueryReference)
        ensures
            r == self.0,
    {
        self.0
    }

    pub fn repetition(&self) -> (r: u32)
        ensures
            r == self.1,
    {
        self.1
    }

    pub fn query_reference_with_repetition(&self) -> (r: QueryReferenceWithRepetition)
        ensures
            r == (QueryReferenceWithRepetition { query_reference: self.0, repetition: self.1 }),
    {
        QueryReferenceWithRepetition {
            query_reference: self.query_reference(),
            repetition: self.repetition(),
        }
    }

    pub fn result(&self) -> (r: &LogCsvResult)
        ensures
            *r == self.5,
    {
        &self.5
    }

    /// The checksum where there is a response, whatever its status.
    pub fn crc(&self) -> (r: Option<Crc>)
        ensures
            r == match self@.result {
                ResultView::Response(_, _, crc) => Some(crc),
                ResultView::Failure(_) => None,
            },
    {
        match self.result() {
            LogCsvResult::Response(_status_code, _length, crc) => Some(*crc),
            LogCsvResult::Failure(_) => None,
        }
    }

    /// Status, length and checksum where there is a response.
    pub fn status_length_crc(&self) -> (r: Option<(StatusCode, usize, Crc)>)
        ensures
            r == match self@.result {
                ResultView::Response(status, length, crc) => Some((status, length, crc)),
                ResultView::Failure(_) => None,
            },
    {
        match self.result() {
            LogCsvResult::Response(status_code, length, crc) => Some((*status_code, *length, *crc)),
            LogCsvResult::Failure(_) => None,
        }
    }
}

/// The texts of a row that is about to be written.
pub open spec fn texts(fields: Seq<Cowstr>) -> Seq<Seq<char>> {
    Seq::new(fields.len(), |i: int| fields[i]@)
}

/// The columns of a record as the log writes them: the ten of
/// `record_columns`, and behind them the text of the query where one is given.
pub fn record_fields<'a>(record: &'a LogCsvRecord, query: Option<&'a str>) -> (fields: Vec<
    Cowstr<'a>,
>)
    requires
        record.wf(),
    ensures
        texts(fields@) == match query {
            Some(text) => record_columns(record@).push(text@),
            None => record_columns(record@),
        },
{
    proof {
        reveal_strlit("Ok");
        reveal_strlit("Err");
        reveal_strlit("");
        assert("Ok"@ =~= ok_text());
        assert("Err"@ =~= err_text());
        assert(""@ =~= Seq::<char>::empty());
    }
    let mut repetition = String::new();
    push_decimal(&mut repetition, record.1 as u64);
    let mut fields: Vec<Cowstr<'a>> = Vec::new();
    fields.push(Cowstr::String(record.0.to_string()));
    fields.push(Cowstr::String(repetition));
    fields.push(Cowstr::String(record.2.to_string()));
    fields.push(Cowstr::String(record.3.to_string()));
    fields.push(Cowstr::String(record.4.to_string()));
    match &record.5 {
        LogCsvResult::Response(status, length, crc) => {
            let mut length_text = String::new();
            push_decimal(&mut length_text, *length as u64);
            fields.push(Cowstr::Str("Ok"));
            fields.push(Cowstr::String(status.to_string()));
            fields.push(Cowstr::String(length_text));
            fields.push(Cowstr::String(crc.to_string()));
            fields.push(Cowstr::Str(""));
        },
        LogCsvResult::Failure(message) => {
            fields.push(Cowstr::Str("Err"));
            fields.push(Cowstr::Str(""));
            fields.push(Cowstr::Str(""));
            fields.push(Cowstr::Str(""));
            fields.push(Cowstr::Str(message.as_str()));
        },
    }
    proof {
        assert(texts(fields@) =~= record_columns(record@));
    }
    match query {
        Some(text) => {
            fields.push(Cowstr::Str(text));
            proof {
                assert(texts(fields@) =~= record_columns(record@).push(text@));
            }
        },
        None => {},
    }
    fields
}

/// Reading the columns of a record gives the record back, field by field
/// and the words of a failure letter by letter.
pub proof fn lemma_record_round_trip(record: RecordView)
    requires
        record.wf(),
    ensures
        record_columns(record).len() == NUM_COLS,
        parse_columns(record_columns(record)) == Ok::<RecordView, RowError>(record),
{
    let row = record_columns(record);
    lemma_reference_round_trip(record.query_reference);
    lemma_parse_decimal(record.repetition as nat, u32::MAX as nat);
    lemma_seconds_round_trip(record.start.0);
    lemma_seconds_round_trip(record.end.0);
    lemma_seconds_round_trip(record.duration);
    match record.result {
        ResultView::Response(status, length, crc) => {
            lemma_status_round_trip(status);
            lemma_parse_decimal(length as nat, usize::MAX as nat);
            lemma_crc_round_trip(crc);
            assert(parse_result(row) == Ok::<ResultView, RowError>(record.result));
        },
        ResultView::Failure(message) => {
            assert(row[5] == err_text());
            assert(err_text() != ok_text()) by {
                assert(err_text().len() != ok_text().len());
            }
            assert(parse_result(row) == Ok::<ResultView, RowError>(record.result));
        },
    }
}

/// The names of the columns, as the first row of a log gives them: the
/// ten of every log, and the one of the query text where the log has it.
pub open spec fn header_columns(extended: bool) -> Seq<Seq<char>> {
    let normal = seq![
        "line in query file"@,
        "repetition"@,
        "start"@,
        "end"@,
        "d"@,
        "Ok/Err"@,
        "status"@,
        "length"@,
        "crc"@,
        "error"@,
    ];
    if extended {
        normal.push("query string"@)
    } else {
        normal
    }
}

/// The layout of a log: with or without the text of each query.
pub trait Format {
    /// The corpus from which the query texts are taken, where the log has them.
    spec fn corpus(&self) -> Option<Queries>;

    /// The number of columns of a row.
    fn num_cols(&self) -> (n: usize)
        ensures
            n == header_columns(self.corpus() is Some).len(),
    ;

    /// The names of the columns.
    fn header(&self) -> (names: Vec<&'static str>)
        ensures
            row_view(names@) == header_columns(self.corpus() is Some),
    ;

    /// The corpus from which the query texts are taken, where the log has them.
    fn queries(&self) -> (q: Option<&Queries>)
        ensures
            match q {
                Some(queries) => self.corpus() == Some(*queries),
                None => self.corpus() is None,
            },
    ;
}

/// The names of the ten columns of every log.
fn normal_header() -> (names: Vec<&'static str>)
    ensures
        row_view(names@) == header_columns(false),
{
    let mut names: Vec<&'static str> = Vec::new();
    names.push("line in query file");
    names.push("repetition");
    names.push("start");
    names.push("end");
    names.push("d");
    names.push("Ok/Err");
    names.push("status");
    names.push("length");
    names.push("crc");
    names.push("error");
    proof {
        assert(row_view(names@) =~= header_columns(false));
    }
    names
}

/// The log with the text of each query in a last column.
pub struct LogCsvExtendedFormat {
    pub queries: Arc<Queries>,
}

impl Format for LogCsvExtendedFormat {
    open spec fn corpus(&self) -> Option<Queries> {
        Some(*self.queries)
    }

    fn num_cols(&self) -> (n: usize) {
        NUM_COLS + 1
    }

    fn header(&self) -> (names: Vec<&'static str>) {
        let mut names = normal_header();
        names.push("query string");
        proof {
            assert(row_view(names@) =~= header_columns(true));
        }
        names
    }

    fn queries(&self) -> (q: Option<&Queries>) {
        Some(&*self.queries)
    }
}

/// The log without the query text.
pub struct LogCsvNormalFormat;

impl Format for LogCsvNormalFormat {
    open spec fn corpus(&self) -> Option<Queries> {
        None
    }

    fn num_cols(&self) -> (n: usize) {
        NUM_COLS
    }

    fn header(&self) -> (names: Vec<&'static str>) {
        normal_header()
    }

    fn queries(&self) -> (q: Option<&Queries>) {
        None
    }
}

impl LogCsvNormalFormat {
    /// Reads the ten columns of a row.
    pub fn parse_row(row: &[&str; NUM_COLS]) -> (r: Result<LogCsvRecord, RowError>)
        ensures
            outcome_view(r) == parse_columns(row_view(row@)),
            r matches Ok(record) ==> record.wf(),
    {
        let query_reference = match QueryReference::from_str(row[0]) {
            Ok(query_reference) => query_reference,
            Err(_) => {
                return Err(RowError::Line);
            },
        };
        let repetition = match parse_decimal(row[1], u32::MAX as u64) {
            Some(repetition) => repetition as u32,
            None => {
                return Err(RowError::Repetition);
            },
        };
        let start = match UnixTimeWrap::from_str(row[2]) {
            Some(start) => start,
            None => {
                return Err(RowError::Start);
            },
        };
        let end = match UnixTimeWrap::from_str(row[3]) {
            Some(end) => end,
            None => {
                return Err(RowError::End);
            },
        };
        let duration = match Seconds::from_str(row[4]) {
            Some(duration) => duration,
            None => {
                return Err(RowError::Duration);
            },
        };
        proof {
            reveal_strlit("Ok");
            reveal_strlit("Err");
            assert("Ok"@ =~= ok_text());
            assert("Err"@ =~= err_text());
        }
        let result = if str_eq(row[5], "Ok") {
            let status = match StatusCode::from_str(row[6]) {
                Ok(status) => status,
                Err(StatusError::MissingSpace) => {
                    return Err(RowError::StatusSpace);
                },
                Err(StatusError::BadCode) => {
                    return Err(RowError::Status);
                },
            };
            let length = match parse_decimal(row[7], usize::MAX as u64) {
                Some(length) => length as usize,
                None => {
                    return Err(RowError::Length);
                },
            };
            let crc = match Crc::from_str(row[8]) {
                Ok(crc) => crc,
                Err(_) => {
                    return Err(RowError::Crc);
                },
            };
            LogCsvResult::Response(status, length, crc)
        } else if str_eq(row[5], "Err") {
            LogCsvResult::Failure(row[9].to_owned())
        } else {
            return Err(RowError::OkErr);
        };
        Ok(LogCsvRecord(query_reference, repetition, start, end, duration, result))
    }
}

/// `csv::Error`: why the `csv` crate could not read or write a row. It is
/// handed on as it is.
#[verifier::external_type_specification]
#[verifier::external_body]
pub struct ExCsvError(csv::Error);

/// `csv::Reader`: the reader of the `csv` crate over some input. What it
/// has yet to read is spoken of through `reader_rows` only.
#[verifier::external_type_specification]
#[verifier::external_body]
#[verifier::reject_recursive_types(R)]
pub struct ExCsvReader<R>(csv::Reader<R>);

/// The bytes of the row that the `csv` crate writes for the given fields,
/// with its settings as they are when nothing is set.
pub uninterp spec fn csv_row(fields: Seq<Seq<char>>) -> Seq<u8>;

/// `csv::Writer::write_record` on a writer that `csv::Writer::from_writer`
/// made over an empty buffer, and the buffer as `csv::Writer::into_inner`
/// hands it back: the bytes of one row. The row is the first of its writer,
/// so its bytes depend on the fields alone, and no earlier row sets a
/// number of fields that it could miss. The writer fails otherwise only
/// where what it writes to fails, and a buffer in memory does not: the call
/// succeeds.
#[verifier::external_body]
fn csv_write_row(fields: &Vec<Cowstr>) -> (r: Result<Vec<u8>, csv::Error>)
    ensures
        match r {
            Ok(bytes) => bytes@ == csv_row(texts(fields@)),
            Err(_) => false,
        },
{
    let mut writer = csv::Writer::from_writer(Vec::new());
    writer.write_record(fields.iter().map(|field| field.as_bytes()))?;
    writer.into_inner().map_err(|e| csv::Error::from(e.into_error()))
}

/// The rows that the `csv` crate reads from the bytes of a file, with its
/// settings as they are when nothing is set: the fields of each row behind
/// the row of column names, in the order of the file, and `None` for a row
/// that it cannot read.
pub uninterp spec fn csv_rows(data: Seq<u8>) -> Seq<Option<Seq<Seq<char>>>>;

/// The rows that a reader has yet to read.
pub uninterp spec fn reader_rows(reader: csv::Reader<&[u8]>) -> Seq<Option<Seq<Seq<char>>>>;

/// `csv::Reader::from_reader` over bytes in memory: a reader at the start
/// of the bytes, which takes the first row for the names of the columns.
#[verifier::external_body]
fn csv_reader<'a>(data: &'a [u8]) -> (reader: csv::Reader<&'a [u8]>)
    ensures
        reader_rows(reader) == csv_rows(data@),
{
    csv::Reader::from_reader(data)
}

/// `csv::Reader::read_record`: the fields of the next row behind the row of
/// column names, `None` at the end of the input, or the reader's error for
/// a row that it cannot read. Each call but those at the end takes one row
/// off the rows that are left.
#[verifier::external_body]
fn csv_read_row<'a>(reader: &mut csv::Reader<&'a [u8]>) -> (r: Result<
    Option<Vec<String>>,
    csv::Error,
>)
    ensures
        reader_rows(*old(reader)).len() == 0 ==> {
            &&& r matches Ok(None)
            &&& reader_rows(*final(reader)) == reader_rows(*old(reader))
        },
        reader_rows(*old(reader)).len() > 0 ==> {
            &&& reader_rows(*final(reader)) == reader_rows(*old(reader)).drop_first()
            &&& match reader_rows(*old(reader))[0] {
                Some(fields) => {
                    &&& r matches Ok(Some(read))
                    &&& strings_view(read@) == fields
                },
                None => r is Err,
            }
        },
{
    let mut record = csv::StringRecord::new();
    if reader.read_record(&mut record)? {
        Ok(Some(record.iter().map(|field| field.to_owned()).collect()))
    } else {
        Ok(None)
    }
}

/// What is wrong with a row, or with the log as a whole.
#[derive(Debug)]
pub enum LogErrorKind {
    /// The row is no CSV, or some field of it no UTF-8, or it could not be
    /// written as CSV.
    Csv(csv::Error),
    /// The row has another number of columns than the layout.
    ColumnCount { expected: usize, got: usize },
    /// A column of the row cannot be read.
    Column(RowError),
}

/// A failure of reading or writing a log, with the file and the row at
/// which it came up. Rows count from one, the row of column names apart.
#[derive(Debug)]
pub struct LogError {
    pub path: String,
    pub row: usize,
    pub kind: LogErrorKind,
}

/// What a row of any number of columns denotes.
pub open spec fn parse_fields(fields: Seq<Seq<char>>) -> Result<RecordView, LogErrorKind> {
    if fields.len() != NUM_COLS {
        Err(LogErrorKind::ColumnCount { expected: NUM_COLS, got: fields.len() as usize })
    } else {
        match parse_columns(fields) {
            Ok(record) => Ok(record),
            Err(e) => Err(LogErrorKind::Column(e)),
        }
    }
}

/// The texts of the fields of a row.
pub open spec fn strings_view(fields: Seq<String>) -> Seq<Seq<char>> {
    Seq::new(fields.len(), |i: int| fields[i]@)
}

/// Reads a row of the file `path`, given as its fields: a row of ten
/// columns that can all be read is a record, and every other row an error
/// that names the file and the row.
pub fn parse_record(path: &str, row: usize, fields: &Vec<String>) -> (r: Result<
    LogCsvRecord,
    LogError,
>)
    ensures
        match r {
            Ok(record) => parse_fields(strings_view(fields@)) == Ok::<RecordView, LogErrorKind>(
                record@,
            ) && record.wf(),
            Err(e) => parse_fields(strings_view(fields@)) == Err::<RecordView, LogErrorKind>(
                e.kind,
            ) && e.path@ == path@ && e.row == row,
        },
{
    if fields.len() != NUM_COLS {
        return Err(
            LogError {
                path: path.to_owned(),
                row,
                kind: LogErrorKind::ColumnCount { expected: NUM_COLS, got: fields.len() },
            },
        );
    }
    let columns: [&str; NUM_COLS] = [
        fields[0].as_str(),
        fields[1].as_str(),
        fields[2].as_str(),
        fields[3].as_str(),
        fields[4].as_str(),
        fields[5].as_str(),
        fields[6].as_str(),
        fields[7].as_str(),
        fields[8].as_str(),
        fields[9].as_str(),
    ];
    proof {
        assert(row_view(columns@) =~= strings_view(fields@));
    }
    match LogCsvNormalFormat::parse_row(&columns) {
        Ok(record) => Ok(record),
        Err(e) => Err(LogError { path: path.to_owned(), row, kind: LogErrorKind::Column(e) }),
    }
}

/// What reading a row that the CSV reader hands on comes to: the record of
/// its fields, or the error of the fields; and the error of the reader
/// where it could not read the row.
pub open spec fn row_outcome(row: Option<Seq<Seq<char>>>) -> Option<
    Result<RecordView, LogErrorKind>,
> {
    match row {
        Some(fields) => Some(parse_fields(fields)),
        None => None,
    }
}

/// A log that is read back, row by row, from the bytes of its file.
pub struct LogCsvReader<'a> {
    path: String,
    line0: usize,
    reader: csv::Reader<&'a [u8]>,
}

impl<'a> LogCsvReader<'a> {
    /// The name of the file, for errors.
    pub closed spec fn path(&self) -> Seq<char> {
        self.path@
    }

    /// The number of rows read so far, the row of column names apart; it
    /// stops at the largest number that the machine counts to.
    pub closed spec fn rows_read(&self) -> nat {
        self.line0 as nat
    }

    /// The rows that are left to read: the fields of each, or `None` for a
    /// row that is no CSV or no text.
    pub closed spec fn rows_left(&self) -> Seq<Option<Seq<Seq<char>>>> {
        reader_rows(self.reader)
    }

    /// The number that the next row gets.
    pub open spec fn next_row(&self) -> nat {
        if self.rows_read() < usize::MAX {
            self.rows_read() + 1
        } else {
            self.rows_read()
        }
    }

    /// The number of rows read so far, the row of column names apart.
    pub fn rows(&self) -> (n: usize)
        ensures
            n == self.rows_read(),
    {
        self.line0
    }

    /// A reader at the start of `data`, the bytes of the file `path`.
    pub fn new(path: String, data: &'a [u8]) -> (r: Self)
        ensures
            r.path() == path@,
            r.rows_read() == 0,
            r.rows_left() == csv_rows(data@),
    {
        LogCsvReader { path, line0: 0, reader: csv_reader(data) }
    }

    /// The next row: `None` at the end of the log, else what `parse_record`
    /// makes of the fields of the row, or the error of the CSV reader. The
    /// row is counted either way.
    pub fn next(&mut self) -> (r: Option<Result<LogCsvRecord, LogError>>)
        ensures
            final(self).path() == old(self).path(),
            old(self).rows_left().len() == 0 ==> {
                &&& r is None
                &&& final(self).rows_left() == old(self).rows_left()
                &&& final(self).rows_read() == old(self).rows_read()
            },
            old(self).rows_left().len() > 0 ==> {
                &&& final(self).rows_left() == old(self).rows_left().drop_first()
                &&& final(self).rows_read() == old(self).next_row()
                &&& r matches Some(outcome)
                &&& match outcome {
                    Ok(record) => record.wf() && row_outcome(old(self).rows_left()[0]) == Some(
                        Ok::<RecordView, LogErrorKind>(record@),
                    ),
                    Err(e) => {
                        &&& e.path@ == old(self).path()
                        &&& e.row == old(self).next_row()
                        &&& match row_outcome(old(self).rows_left()[0]) {
                            Some(read) => read == Err::<RecordView, LogErrorKind>(e.kind),
                            None => e.kind is Csv,
                        }
                    },
                }
            },
    {
        match csv_read_row(&mut self.reader) {
            Ok(None) => None,
            Ok(Some(fields)) => {
                self.line0 = self.line0.saturating_add(1);
                Some(parse_record(self.path.as_str(), self.line0, &fields))
            },
            Err(error) => {
                self.line0 = self.line0.saturating_add(1);
                Some(
                    Err(
                        LogError {
                            path: self.path.clone(),
                            row: self.line0,
                            kind: LogErrorKind::Csv(error),
                        },
                    ),
                )
            },
        }
    }
}

/// The bytes of a log as they come about, row by row.
pub struct LogCsv<F: Format> {
    path: String,
    format: F,
    rows: usize,
    pending: Vec<u8>,
}

impl<F: Format> LogCsv<F> {
    /// The name of the file, for errors.
    pub closed spec fn path(&self) -> Seq<char> {
        self.path@
    }

    /// The layout of the log.
    pub closed spec fn format(&self) -> F {
        self.format
    }

    /// The number of rows written so far, the row of column names apart;
    /// it stops at the largest number that the machine counts to.
    pub closed spec fn rows_written(&self) -> nat {
        self.rows as nat
    }

    /// The bytes that were written and not yet taken.
    pub closed spec fn pending(&self) -> Seq<u8> {
        self.pending@
    }

    /// The columns that the log writes for a record.
    pub open spec fn columns(&self, record: RecordView) -> Seq<Seq<char>> {
        match self.format().corpus() {
            Some(queries) => record_columns(record).push(
                queries.query_text(record.query_reference.query_index as int),
            ),
            None => record_columns(record),
        }
    }

    /// A log for the file `path` in the given layout, which holds the row
    /// of column names. Every layout makes a log.
    pub fn create(path: String, format: F) -> (r: Result<Self, LogError>)
        ensures
            r matches Ok(log) && {
                &&& log.path() == path@
                &&& log.format() == format
                &&& log.rows_written() == 0
                &&& log.pending() == csv_row(header_columns(format.corpus() is Some))
            },
    {
        let names = format.header();
        let mut fields: Vec<Cowstr> = Vec::new();
        let mut i: usize = 0;
        while i < names.len()
            invariant
                i <= names@.len(),
                texts(fields@) == row_view(names@).take(i as int),
            decreases names@.len() - i,
        {
            let ghost before = texts(fields@);
            fields.push(Cowstr::Str(names[i]));
            proof {
                assert(before.len() == i);
                assert(texts(fields@) =~= before.push(names@[i as int]@));
                assert(row_view(names@).take(i + 1) =~= row_view(names@).take(i as int).push(
                    names@[i as int]@,
                ));
            }
            i = i + 1;
        }
        proof {
            assert(row_view(names@).take(i as int) =~= row_view(names@));
        }
        match csv_write_row(&fields) {
            Ok(pending) => Ok(LogCsv { path, format, rows: 0, pending }),
            Err(error) => Err(LogError { path, row: 0, kind: LogErrorKind::Csv(error) }),
        }
    }

    /// Writes the row of a record behind the rows written so far. Where
    /// the log has the query texts, the record must refer to a query of the
    /// corpus. Every such record is written.
    pub fn write_row(&mut self, record: &LogCsvRecord) -> (r: Result<(), LogError>)
        requires
            record.wf(),
            old(self).format().corpus() matches Some(queries) ==> queries.wf()
                && record.0.query_index < queries.len(),
        ensures
            final(self).path() == old(self).path(),
            final(self).format() == old(self).format(),
            r is Ok,
            final(self).pending() == old(self).pending() + csv_row(old(self).columns(record@)),
            final(self).rows_written() == if old(self).rows_written() < usize::MAX {
                old(self).rows_written() + 1
            } else {
                old(self).rows_written()
            },
    {
        let written = match self.format.queries() {
            Some(queries) => {
                let query = queries.get_query(record.0.query_index);
                let fields = record_fields(record, Some(query.string));
                csv_write_row(&fields)
            },
            None => {
                let fields = record_fields(record, None);
                csv_write_row(&fields)
            },
        };
        let row = self.rows.saturating_add(1);
        match written {
            Ok(mut bytes) => {
                self.pending.append(&mut bytes);
                self.rows = row;
                Ok(())
            },
            Err(error) => Err(
                LogError { path: self.path.clone(), row, kind: LogErrorKind::Csv(error) },
            ),
        }
    }

    /// The number of rows written so far, the row of column names apart.
    pub fn rows(&self) -> (n: usize)
        ensures
            n == self.rows_written(),
    {
        self.rows
    }

    /// Ends the log: what is left of its bytes, for the file. The log is
    /// used up, so that nothing can be written behind them.
    pub fn finish(self) -> (bytes: Vec<u8>)
        ensures
            bytes@ == self.pending(),
    {
        self.pending
    }

    /// Takes the bytes that were written since the last time, for the file.
    pub fn take_bytes(&mut self) -> (bytes: Vec<u8>)
        ensures
            final(self).path() == old(self).path(),
            final(self).format() == old(self).format(),
            final(self).rows_written() == old(self).rows_written(),
            bytes@ == old(self).pending(),
            final(self).pending() == Seq::<u8>::empty(),
    {
        let mut bytes: Vec<u8> = Vec::new();
        bytes.append(&mut self.pending);
        proof {
            assert(bytes@ =~= old(self).pending());
        }
        bytes
    }
}

} // verus!

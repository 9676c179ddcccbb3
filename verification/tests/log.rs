use api_query::log_csv::{
    parse_record, record_fields, Format, LogCsv, LogCsvExtendedFormat, LogCsvNormalFormat,
    LogCsvReader, LogCsvRecord, LogCsvResult, LogErrorKind, RowError, NUM_COLS,
};
use api_query::my_crc::Crc;
use api_query::status::StatusCode;
use api_query::time::{Seconds, UnixTimeWrap};
use api_query::types::{Queries, QueryReference, QueryReferenceWithRepetition};
use std::sync::Arc;

fn time(secs: u64, nanos: u32) -> UnixTimeWrap {
    UnixTimeWrap(Seconds { secs, nanos })
}

fn response(
    query_index: u32,
    repetition: u32,
    status: u16,
    length: usize,
    crc: u64,
) -> LogCsvRecord {
    LogCsvRecord(
        QueryReference { query_index },
        repetition,
        time(1700000000, 5),
        time(1700000001, 250_000_000),
        Seconds { secs: 1, nanos: 249_999_995 },
        LogCsvResult::Response(StatusCode(status), length, Crc(crc)),
    )
}

fn failure(query_index: u32, repetition: u32, message: &str) -> LogCsvRecord {
    LogCsvRecord(
        QueryReference { query_index },
        repetition,
        time(1700000000, 0),
        time(1700000000, 1),
        Seconds { secs: 0, nanos: 1 },
        LogCsvResult::Failure(message.to_owned()),
    )
}

fn texts(record: &LogCsvRecord) -> Vec<String> {
    record_fields(record, None).iter().map(|field| field.as_str().to_owned()).collect()
}

fn row(fields: &[String]) -> [&str; NUM_COLS] {
    let fields: Vec<&str> = fields.iter().map(|field| field.as_str()).collect();
    fields.try_into().unwrap()
}

const GOOD: [&str; NUM_COLS] =
    ["3", "1", "10.5", "11.25", "0.75", "Ok", "200 OK", "42", "crc:99", ""];

fn with(column: usize, text: &'static str) -> [&'static str; NUM_COLS] {
    let mut row = GOOD;
    row[column] = text;
    row
}

#[test]
fn accessors() {
    let record = response(4, 2, 404, 17, 99);
    assert_eq!(record.query_reference(), QueryReference { query_index: 4 });
    assert_eq!(record.repetition(), 2);
    assert_eq!(
        record.query_reference_with_repetition(),
        QueryReferenceWithRepetition {
            query_reference: QueryReference { query_index: 4 },
            repetition: 2
        }
    );
    assert_eq!(record.result(), &LogCsvResult::Response(StatusCode(404), 17, Crc(99)));
    assert_eq!(record.crc(), Some(Crc(99)));
    assert_eq!(record.status_length_crc(), Some((StatusCode(404), 17, Crc(99))));
    let record = failure(4, 2, "connection refused");
    assert_eq!(record.result(), &LogCsvResult::Failure("connection refused".to_owned()));
    assert_eq!(record.crc(), None);
    assert_eq!(record.status_length_crc(), None);
}

#[test]
fn columns_of_a_response() {
    assert_eq!(
        texts(&response(4, 2, 200, 17, 99)),
        vec![
            "5",
            "2",
            "1700000000.000000005",
            "1700000001.250000000",
            "1.249999995",
            "Ok",
            "200 OK",
            "17",
            "crc:99",
            ""
        ]
    );
}

#[test]
fn columns_of_a_failure() {
    assert_eq!(
        texts(&failure(0, 0, "connection refused")),
        vec![
            "1",
            "0",
            "1700000000.000000000",
            "1700000000.000000001",
            "0.000000001",
            "Err",
            "",
            "",
            "",
            "connection refused"
        ]
    );
}

#[test]
fn query_text_makes_an_eleventh_column() {
    let record = response(4, 2, 200, 17, 99);
    let fields = record_fields(&record, Some("select 1"));
    assert_eq!(fields.len(), NUM_COLS + 1);
    assert_eq!(fields[NUM_COLS].as_str(), "select 1");
    assert_eq!(fields[0].as_str(), "5");
}

#[test]
fn reading_a_response_row() {
    assert_eq!(
        LogCsvNormalFormat::parse_row(&GOOD),
        Ok(LogCsvRecord(
            QueryReference { query_index: 2 },
            1,
            time(10, 500_000_000),
            time(11, 250_000_000),
            Seconds { secs: 0, nanos: 750_000_000 },
            LogCsvResult::Response(StatusCode(200), 42, Crc(99)),
        ))
    );
}

#[test]
fn reading_a_failure_row() {
    let row = ["3", "1", "10.5", "11.25", "0.75", "Err", "", "", "", "timed out, \"sorry\""];
    assert_eq!(
        LogCsvNormalFormat::parse_row(&row),
        Ok(LogCsvRecord(
            QueryReference { query_index: 2 },
            1,
            time(10, 500_000_000),
            time(11, 250_000_000),
            Seconds { secs: 0, nanos: 750_000_000 },
            LogCsvResult::Failure("timed out, \"sorry\"".to_owned()),
        ))
    );
}

#[test]
fn a_failure_row_leaves_the_response_columns_unread() {
    let row = ["3", "1", "10.5", "11.25", "0.75", "Err", "no status", "x", "y", "message"];
    assert!(matches!(
        LogCsvNormalFormat::parse_row(&row),
        Ok(LogCsvRecord(_, _, _, _, _, LogCsvResult::Failure(_)))
    ));
}

#[test]
fn a_response_row_leaves_the_error_column_unread() {
    let row = with(9, "left over");
    assert_eq!(LogCsvNormalFormat::parse_row(&row), LogCsvNormalFormat::parse_row(&GOOD));
}

#[test]
fn row_with_wrong_line() {
    for text in ["", "0", "x", "-1", "4294967297", "1.5"] {
        assert_eq!(LogCsvNormalFormat::parse_row(&with(0, text)), Err(RowError::Line), "{text:?}");
    }
}

#[test]
fn row_with_wrong_repetition() {
    for text in ["", "x", "-1", "4294967296", "1.5"] {
        assert_eq!(
            LogCsvNormalFormat::parse_row(&with(1, text)),
            Err(RowError::Repetition),
            "{text:?}"
        );
    }
}

#[test]
fn row_with_wrong_times() {
    assert_eq!(LogCsvNormalFormat::parse_row(&with(2, "now")), Err(RowError::Start));
    assert_eq!(LogCsvNormalFormat::parse_row(&with(3, "-1")), Err(RowError::End));
    assert_eq!(LogCsvNormalFormat::parse_row(&with(4, "")), Err(RowError::Duration));
}

#[test]
fn row_with_wrong_kind() {
    for text in ["", "ok", "OK", "Error", "Ok ", "200"] {
        assert_eq!(LogCsvNormalFormat::parse_row(&with(5, text)), Err(RowError::OkErr), "{text:?}");
    }
}

#[test]
fn row_with_wrong_status() {
    assert_eq!(LogCsvNormalFormat::parse_row(&with(6, "200")), Err(RowError::StatusSpace));
    assert_eq!(LogCsvNormalFormat::parse_row(&with(6, "")), Err(RowError::StatusSpace));
    assert_eq!(LogCsvNormalFormat::parse_row(&with(6, "20 OK")), Err(RowError::Status));
    assert_eq!(LogCsvNormalFormat::parse_row(&with(6, "OK 200")), Err(RowError::Status));
}

#[test]
fn row_with_wrong_length() {
    for text in ["", "x", "-1", "18446744073709551616"] {
        let read = LogCsvNormalFormat::parse_row(&with(7, text));
        assert_eq!(read, Err(RowError::Length), "{text:?}");
    }
}

#[test]
fn row_with_wrong_checksum() {
    for text in ["", "99", "crc:", "crc32:99", "crc:x"] {
        assert_eq!(LogCsvNormalFormat::parse_row(&with(8, text)), Err(RowError::Crc), "{text:?}");
    }
}

#[test]
fn the_first_wrong_column_decides() {
    let row = ["x", "x", "x", "x", "x", "x", "x", "x", "x", "x"];
    assert_eq!(LogCsvNormalFormat::parse_row(&row), Err(RowError::Line));
    let row = ["1", "x", "x", "x", "x", "x", "x", "x", "x", "x"];
    assert_eq!(LogCsvNormalFormat::parse_row(&row), Err(RowError::Repetition));
    let row = ["1", "1", "1", "1", "x", "x", "x", "x", "x", "x"];
    assert_eq!(LogCsvNormalFormat::parse_row(&row), Err(RowError::Duration));
    let row = ["1", "1", "1", "1", "1", "x", "x", "x", "x", "x"];
    assert_eq!(LogCsvNormalFormat::parse_row(&row), Err(RowError::OkErr));
    let row = ["1", "1", "1", "1", "1", "Ok", "200 OK", "x", "x", "x"];
    assert_eq!(LogCsvNormalFormat::parse_row(&row), Err(RowError::Length));
}

#[test]
fn record_round_trip_through_columns() {
    let records = [
        response(0, 0, 200, 0, 0),
        response(4, 2, 404, 17, 99),
        response(u32::MAX, u32::MAX, 999, usize::MAX, u64::MAX),
        response(7, 1, 100, 1, 1),
        failure(0, 0, ""),
        failure(3, 9, "connection refused"),
        failure(3, 9, "Ok"),
        failure(3, 9, "  two lines\nand, commas; \"quotes\" and ünïcödé\t"),
    ];
    for record in records {
        let fields = texts(&record);
        assert_eq!(LogCsvNormalFormat::parse_row(&row(&fields)), Ok(record));
    }
}

#[test]
fn headers() {
    let normal = LogCsvNormalFormat;
    assert_eq!(normal.num_cols(), 10);
    assert_eq!(
        normal.header(),
        vec![
            "line in query file",
            "repetition",
            "start",
            "end",
            "d",
            "Ok/Err",
            "status",
            "length",
            "crc",
            "error"
        ]
    );
    assert!(normal.queries().is_none());
    let queries = Arc::new(Queries::from_lines_string("a\nb".to_owned()).unwrap());
    let extended = LogCsvExtendedFormat { queries };
    assert_eq!(extended.num_cols(), 11);
    let header = extended.header();
    assert_eq!(header.len(), 11);
    assert_eq!(header[..10], normal.header()[..]);
    assert_eq!(header[10], "query string");
    assert_eq!(extended.queries().unwrap().num_queries(), 2);
}

#[test]
fn log_bytes() {
    let mut log = LogCsv::create("run.csv".to_owned(), LogCsvNormalFormat).unwrap();
    log.write_row(&response(4, 2, 200, 17, 99)).unwrap();
    log.write_row(&failure(0, 0, "refused, \"again\"")).unwrap();
    let bytes = log.take_bytes();
    assert_eq!(
        String::from_utf8(bytes).unwrap(),
        "line in query file,repetition,start,end,d,Ok/Err,status,length,crc,error\n\
         5,2,1700000000.000000005,1700000001.250000000,1.249999995,Ok,200 OK,17,crc:99,\n\
         1,0,1700000000.000000000,1700000000.000000001,0.000000001,Err,,,,\"refused, \"\"again\"\"\"\n"
    );
}

#[test]
fn taken_bytes_are_gone() {
    let mut log = LogCsv::create("run.csv".to_owned(), LogCsvNormalFormat).unwrap();
    assert!(!log.take_bytes().is_empty());
    assert!(log.take_bytes().is_empty());
    log.write_row(&response(0, 0, 200, 1, 1)).unwrap();
    let row = log.take_bytes();
    assert!(String::from_utf8(row).unwrap().starts_with("1,0,"));
    assert!(log.take_bytes().is_empty());
}

#[test]
fn extended_log_bytes() {
    let corpus = "select a\nselect \"b\", c".to_owned();
    let queries = Arc::new(Queries::from_lines_string(corpus).unwrap());
    let mut log = LogCsv::create("run.csv".to_owned(), LogCsvExtendedFormat { queries }).unwrap();
    log.write_row(&response(1, 0, 200, 17, 99)).unwrap();
    log.write_row(&failure(0, 0, "refused")).unwrap();
    assert_eq!(
        String::from_utf8(log.take_bytes()).unwrap(),
        "line in query file,repetition,start,end,d,Ok/Err,status,length,crc,error,query string\n\
         2,0,1700000000.000000005,1700000001.250000000,1.249999995,Ok,200 OK,17,crc:99,,\"select \"\"b\"\", c\"\n\
         1,0,1700000000.000000000,1700000000.000000001,0.000000001,Err,,,,refused,select a\n"
    );
}

#[test]
fn record_round_trip_through_the_log() {
    let records = vec![
        response(0, 0, 200, 0, 0),
        failure(3, 9, "  two lines\nand, commas; \"quotes\" and ünïcödé\t"),
        response(u32::MAX, u32::MAX, 999, usize::MAX, u64::MAX),
        failure(1, 0, ""),
    ];
    let mut log = LogCsv::create("run.csv".to_owned(), LogCsvNormalFormat).unwrap();
    for record in &records {
        log.write_row(record).unwrap();
    }
    let bytes = log.take_bytes();
    let mut reader = LogCsvReader::new("run.csv".to_owned(), &bytes);
    let mut read = Vec::new();
    while let Some(record) = reader.next() {
        read.push(record.unwrap());
    }
    assert_eq!(read, records);
    assert_eq!(reader.rows(), 4);
    assert!(reader.next().is_none());
    assert_eq!(reader.rows(), 4);
}

#[test]
fn reading_an_empty_log() {
    let mut reader = LogCsvReader::new("run.csv".to_owned(), b"");
    assert!(reader.next().is_none());
    let mut log = LogCsv::create("run.csv".to_owned(), LogCsvNormalFormat).unwrap();
    let bytes = log.take_bytes();
    let mut reader = LogCsvReader::new("run.csv".to_owned(), &bytes);
    assert!(reader.next().is_none());
    assert_eq!(reader.rows(), 0);
}

#[test]
fn reading_a_log_with_too_many_columns() {
    let queries = Arc::new(Queries::from_lines_string("a\nb".to_owned()).unwrap());
    let mut log = LogCsv::create("run.csv".to_owned(), LogCsvExtendedFormat { queries }).unwrap();
    log.write_row(&response(0, 0, 200, 1, 1)).unwrap();
    log.write_row(&response(1, 0, 200, 1, 1)).unwrap();
    let bytes = log.take_bytes();
    let mut reader = LogCsvReader::new("extended.csv".to_owned(), &bytes);
    for row in [1, 2] {
        let error = reader.next().unwrap().unwrap_err();
        assert_eq!(error.path, "extended.csv");
        assert_eq!(error.row, row);
        assert!(matches!(error.kind, LogErrorKind::ColumnCount { expected: 10, got: 11 }));
    }
    assert!(reader.next().is_none());
}

#[test]
fn reading_a_log_with_a_wrong_row() {
    let bytes = b"a,b,c,d,e,f,g,h,i,j\n\
        1,0,1.0,2.0,1.0,Ok,200 OK,3,crc:5,\n\
        2,0,1.0,2.0,1.0,Ok,200 OK,three,crc:5,\n\
        3,0,1.0,2.0,1.0,Err,,,,gone\n";
    let mut reader = LogCsvReader::new("run.csv".to_owned(), bytes);
    assert!(reader.next().unwrap().is_ok());
    let error = reader.next().unwrap().unwrap_err();
    assert_eq!(error.path, "run.csv");
    assert_eq!(error.row, 2);
    assert!(matches!(error.kind, LogErrorKind::Column(RowError::Length)));
    assert!(reader.next().unwrap().is_ok());
    assert!(reader.next().is_none());
}

#[test]
fn reading_a_log_with_rows_of_different_lengths() {
    let bytes = b"a,b,c,d,e,f,g,h,i,j\n1,2,3\n";
    let mut reader = LogCsvReader::new("run.csv".to_owned(), bytes);
    let error = reader.next().unwrap().unwrap_err();
    assert_eq!(error.row, 1);
    assert!(matches!(error.kind, LogErrorKind::Csv(_)));
}

#[test]
fn reading_a_log_that_is_no_text() {
    let bytes = b"a,b,c,d,e,f,g,h,i,j\n1,0,1.0,2.0,1.0,Err,,,,\xff\xfe\n";
    let mut reader = LogCsvReader::new("run.csv".to_owned(), bytes);
    let error = reader.next().unwrap().unwrap_err();
    assert!(matches!(error.kind, LogErrorKind::Csv(_)));
}

#[test]
fn rows_given_as_fields() {
    let fields: Vec<String> = GOOD.iter().map(|field| field.to_string()).collect();
    assert_eq!(
        parse_record("run.csv", 7, &fields).unwrap(),
        LogCsvNormalFormat::parse_row(&GOOD).unwrap()
    );
    let mut short = fields.clone();
    short.pop();
    let error = parse_record("run.csv", 7, &short).unwrap_err();
    assert_eq!(error.path, "run.csv");
    assert_eq!(error.row, 7);
    assert!(matches!(error.kind, LogErrorKind::ColumnCount { expected: 10, got: 9 }));
    let error = parse_record("run.csv", 8, &Vec::new()).unwrap_err();
    assert!(matches!(error.kind, LogErrorKind::ColumnCount { expected: 10, got: 0 }));
    let mut wrong = fields;
    wrong[8] = "99".to_owned();
    let error = parse_record("run.csv", 9, &wrong).unwrap_err();
    assert_eq!(error.row, 9);
    assert!(matches!(error.kind, LogErrorKind::Column(RowError::Crc)));
}

#[test]
fn written_rows_are_counted() {
    let mut log = LogCsv::create("run.csv".to_owned(), LogCsvNormalFormat).unwrap();
    assert_eq!(log.rows(), 0);
    log.write_row(&response(0, 0, 200, 1, 1)).unwrap();
    log.write_row(&failure(1, 0, "gone")).unwrap();
    assert_eq!(log.rows(), 2);
    log.take_bytes();
    assert_eq!(log.rows(), 2);
}

#[test]
fn finishing_hands_out_what_is_left() {
    let mut log = LogCsv::create("run.csv".to_owned(), LogCsvNormalFormat).unwrap();
    let header = log.take_bytes();
    log.write_row(&failure(1, 0, "gone")).unwrap();
    let rest = log.finish();
    assert_eq!(
        String::from_utf8(rest).unwrap(),
        "2,0,1700000000.000000000,1700000000.000000001,0.000000001,Err,,,,gone\n"
    );
    assert!(String::from_utf8(header).unwrap().starts_with("line in query file,"));
}

#[test]
fn rows_come_out_in_the_order_in_which_they_went_in() {
    let mut log = LogCsv::create("run.csv".to_owned(), LogCsvNormalFormat).unwrap();
    let order = [5u32, 0, 3, 3, 1];
    for (i, query_index) in order.iter().enumerate() {
        log.write_row(&response(*query_index, i as u32, 200, 1, 1)).unwrap();
        if i % 2 == 0 {
            log.take_bytes();
        }
    }
    let mut log = LogCsv::create("run.csv".to_owned(), LogCsvNormalFormat).unwrap();
    for (i, query_index) in order.iter().enumerate() {
        log.write_row(&response(*query_index, i as u32, 200, 1, 1)).unwrap();
    }
    let bytes = log.finish();
    let mut reader = LogCsvReader::new("run.csv".to_owned(), &bytes);
    let mut read = Vec::new();
    while let Some(record) = reader.next() {
        read.push(record.unwrap().query_reference().query_index);
    }
    assert_eq!(read, order);
}

#[test]
fn every_row_is_written() {
    let queries = Arc::new(Queries::from_lines_string("a\n\n\"\"\",\n".to_owned()).unwrap());
    let mut log = LogCsv::create("run.csv".to_owned(), LogCsvExtendedFormat { queries }).unwrap();
    assert!(log.write_row(&failure(0, 0, "")).is_ok());
    assert!(log.write_row(&failure(1, 0, "\r\n\"\0")).is_ok());
    assert!(log.write_row(&response(2, 0, 999, usize::MAX, u64::MAX)).is_ok());
    assert_eq!(log.rows(), 3);
    let text = String::from_utf8(log.finish()).unwrap();
    assert_eq!(text.matches("\n").count(), 5);
}

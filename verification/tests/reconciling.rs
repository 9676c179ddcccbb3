use api_query::log_csv::{LogCsv, LogCsvNormalFormat, LogCsvReader, LogCsvRecord, LogCsvResult};
use api_query::my_crc::{checksum_of, Crc};
use api_query::reconcile::{
    choose_ignore_pattern, compare, ignore_pattern_from_text, query_text_for_report,
    sorted_errors, sums_from_log, sums_from_records, verdict, CompareError, Comparison,
    Divergence, FilterError, QueriesWithIgnore, ReconcileError, SumError, Sums, Verdict,
};
use api_query::status::StatusCode;
use api_query::time::{Seconds, UnixTimeWrap};
use api_query::types::{Queries, QueryReference, QueryReferenceWithRepetition};
use std::sync::Arc;

fn time(secs: u64) -> UnixTimeWrap {
    UnixTimeWrap(Seconds { secs, nanos: 0 })
}

fn response(query_index: u32, repetition: u32, status: u16, body: &[u8]) -> LogCsvRecord {
    LogCsvRecord(
        QueryReference { query_index },
        repetition,
        time(10),
        time(11),
        Seconds { secs: 1, nanos: 0 },
        LogCsvResult::Response(
            StatusCode(status),
            body.len(),
            checksum_of::<crc_fast::Digest>(body),
        ),
    )
}

fn failure(query_index: u32, repetition: u32) -> LogCsvRecord {
    LogCsvRecord(
        QueryReference { query_index },
        repetition,
        time(10),
        time(11),
        Seconds { secs: 1, nanos: 0 },
        LogCsvResult::Failure("connection refused".to_owned()),
    )
}

fn summary(status: u16, body: &[u8]) -> (StatusCode, usize, Crc) {
    (StatusCode(status), body.len(), checksum_of::<crc_fast::Digest>(body))
}

fn finding(query_index: u32, repetition: u32, status: u16, body: &[u8]) -> SumError {
    SumError::NonMatchingCrc {
        reference: QueryReferenceWithRepetition {
            query_reference: QueryReference { query_index },
            repetition,
        },
        crc: summary(status, body),
    }
}

fn sums(records: &[LogCsvRecord]) -> Sums {
    let mut sums = Sums::new("run.csv".to_owned());
    for record in records {
        sums.add(record);
    }
    sums
}

fn filter(corpus: &str, pattern: &str) -> QueriesWithIgnore {
    let queries = Arc::new(Queries::from_lines_string(corpus.to_owned()).unwrap());
    QueriesWithIgnore::new("queries.txt".to_owned(), queries, pattern).unwrap()
}

/// The log of a run over `corpus` against a server that answers each query
/// with `answer(query, repetition)`.
fn run(corpus: &[&str], repeat: u32, answer: &dyn Fn(&str, u32) -> Vec<u8>) -> Vec<u8> {
    let mut log = LogCsv::create("run.csv".to_owned(), LogCsvNormalFormat).unwrap();
    for repetition in 0..repeat {
        for (query_index, query) in corpus.iter().enumerate() {
            let body = answer(query, repetition);
            log.write_row(&response(query_index as u32, repetition, 200, &body)).unwrap();
        }
    }
    log.take_bytes()
}

fn echo(query: &str, _repetition: u32) -> Vec<u8> {
    query.as_bytes().to_vec()
}

#[test]
fn empty_table() {
    let sums = Sums::new("run.csv".to_owned());
    assert_eq!(sums.len(), 0);
    assert_eq!(sums.file_path(), "run.csv");
    assert_eq!(sums.first(0), None);
    assert!(sums.errors().is_empty());
    assert_eq!(sums.successes(), 0);
}

#[test]
fn first_response_is_kept() {
    let sums = sums(&[response(2, 0, 200, b"x"), response(0, 0, 404, b"")]);
    assert_eq!(sums.len(), 3);
    assert_eq!(sums.first(0), Some(summary(404, b"")));
    assert_eq!(sums.first(1), None);
    assert_eq!(sums.first(2), Some(summary(200, b"x")));
    assert_eq!(sums.first(3), None);
    assert!(sums.errors().is_empty());
    assert_eq!(sums.successes(), 0);
}

#[test]
fn failures_leave_the_table_alone() {
    let sums = sums(&[failure(5, 0), failure(0, 0)]);
    assert_eq!(sums.len(), 0);
    assert_eq!(sums.first(5), None);
    assert!(sums.errors().is_empty());
}

#[test]
fn later_equal_responses_are_counted() {
    let sums = sums(&[
        response(1, 0, 200, b"x"),
        response(1, 1, 200, b"x"),
        failure(1, 2),
        response(1, 3, 200, b"x"),
    ]);
    assert_eq!(sums.first(1), Some(summary(200, b"x")));
    assert_eq!(sums.successes(), 2);
    assert!(sums.errors().is_empty());
}

#[test]
fn later_different_responses_are_findings() {
    let sums = sums(&[
        response(1, 0, 200, b"x"),
        response(1, 1, 200, b"y"),
        response(1, 2, 500, b"x"),
        response(1, 3, 200, b"xx"),
        response(1, 4, 200, b"x"),
    ]);
    assert_eq!(sums.first(1), Some(summary(200, b"x")));
    assert_eq!(sums.successes(), 1);
    assert_eq!(
        sums.errors(),
        &vec![finding(1, 1, 200, b"y"), finding(1, 2, 500, b"x"), finding(1, 3, 200, b"xx")]
    );
}

#[test]
fn many_responses_to_one_query() {
    let records: Vec<LogCsvRecord> = (0..1000).map(|i| response(0, i, 200, b"x")).collect();
    let sums = sums(&records);
    assert_eq!(sums.successes(), 999);
    assert_eq!(sums.first(0), Some(summary(200, b"x")));
}

#[test]
fn second_response_that_differs_is_a_finding_at_repetition_one() {
    let bytes = run(&["q"], 2, &|_query, repetition| vec![b'0' + repetition as u8]);
    let mut reader = LogCsvReader::new("run.csv".to_owned(), &bytes);
    let (ignored, sums) = sums_from_log(None, "run.csv".to_owned(), &mut reader).unwrap();
    assert_eq!(ignored, 0);
    assert_eq!(sums.errors(), &vec![finding(0, 1, 200, b"1")]);
    assert_eq!(sums.first(0), Some(summary(200, b"0")));
    let found = compare(&sums, &sums).unwrap();
    let verdict = verdict(&found, &sums, &sums, 1).unwrap();
    assert!(!verdict.is_success());
    assert_eq!(verdict.num_errors, 0);
    assert_eq!(verdict.num_unstable_a, 1);
}

#[test]
fn two_runs_against_an_echo_endpoint_agree() {
    let corpus = ["a", "b", "c"];
    let first = run(&corpus, 1, &echo);
    let second = run(&corpus, 1, &echo);
    let mut reader = LogCsvReader::new("a.csv".to_owned(), &first);
    let (ignored_a, a) = sums_from_log(None, "a.csv".to_owned(), &mut reader).unwrap();
    let mut reader = LogCsvReader::new("b.csv".to_owned(), &second);
    let (ignored_b, b) = sums_from_log(None, "b.csv".to_owned(), &mut reader).unwrap();
    let found = compare(&a, &b).unwrap();
    assert!(found.divergences.is_empty());
    assert_eq!(found.num_same, 3);
    let verdict = verdict(&found, &a, &b, 3).unwrap();
    assert!(verdict.is_success());
    assert_eq!(
        verdict.summary_line(ignored_a, ignored_b),
        "=> 0 queries gave CRC differences, 3 had the same CRC, 0 were ignored (0 and 0 requests)"
    );
}

#[test]
fn two_runs_against_different_servers_diverge() {
    let corpus = ["a", "b", "c"];
    let first = run(&corpus, 1, &echo);
    let second = run(&corpus, 1, &|query, _| {
        if query == "b" {
            b"B".to_vec()
        } else {
            echo(query, 0)
        }
    });
    let mut reader = LogCsvReader::new("a.csv".to_owned(), &first);
    let (_, a) = sums_from_log(None, "a.csv".to_owned(), &mut reader).unwrap();
    let mut reader = LogCsvReader::new("b.csv".to_owned(), &second);
    let (_, b) = sums_from_log(None, "b.csv".to_owned(), &mut reader).unwrap();
    let found = compare(&a, &b).unwrap();
    assert_eq!(
        found.divergences,
        vec![Divergence {
            reference: QueryReference { query_index: 1 },
            a: summary(200, b"b"),
            b: summary(200, b"B"),
        }]
    );
    assert_eq!(found.num_same, 2);
    assert_eq!(found.num_ignored, 0);
    let verdict = verdict(&found, &a, &b, 3).unwrap();
    assert!(!verdict.is_success());
    assert_eq!(
        verdict.summary_line(0, 0),
        "=> 1 queries gave CRC differences, 2 had the same CRC, 0 were ignored (0 and 0 requests)"
    );
}

#[test]
fn a_log_agrees_with_itself() {
    let records = [
        response(0, 0, 200, b"x"),
        response(3, 0, 404, b""),
        response(0, 1, 200, b"y"),
        failure(1, 0),
        response(5, 0, 500, b"zzz"),
    ];
    let a = sums(&records);
    let found = compare(&a, &a).unwrap();
    assert!(found.divergences.is_empty());
    assert_eq!(found.num_same, 3);
    assert_eq!(found.num_ignored, 3);
}

#[test]
fn ignored_query_is_left_out_of_all_counts() {
    let corpus = ["a", "b", "c"];
    let first = run(&corpus, 2, &echo);
    let second = run(&corpus, 2, &|query, repetition| {
        if query == "b" {
            vec![b'?', repetition as u8]
        } else {
            echo(query, 0)
        }
    });
    let filter = filter("a\nb\nc", "^b$");
    let mut reader = LogCsvReader::new("a.csv".to_owned(), &first);
    let (ignored_a, a) = sums_from_log(Some(&filter), "a.csv".to_owned(), &mut reader).unwrap();
    let mut reader = LogCsvReader::new("b.csv".to_owned(), &second);
    let (ignored_b, b) = sums_from_log(Some(&filter), "b.csv".to_owned(), &mut reader).unwrap();
    assert_eq!((ignored_a, ignored_b), (2, 2));
    assert_eq!(a.first(1), None);
    assert_eq!(b.first(1), None);
    assert!(a.errors().is_empty());
    assert!(b.errors().is_empty());
    let found = compare(&a, &b).unwrap();
    assert!(found.divergences.is_empty());
    assert_eq!(found.num_same, 2);
    assert_eq!(found.num_ignored, 1);
    let verdict = verdict(&found, &a, &b, 3).unwrap();
    assert!(verdict.is_success());
    assert_eq!(verdict.num_ignored, 1);
    assert_eq!(
        verdict.summary_line(ignored_a, ignored_b),
        "=> 0 queries gave CRC differences, 2 had the same CRC, 1 were ignored (2 and 2 requests)"
    );
    assert_eq!(filter.ignore(QueryReference { query_index: 1 }).unwrap(), true);
    assert_eq!(filter.ignore(QueryReference { query_index: 0 }).unwrap(), false);
}

#[test]
fn ignored_last_query_counts_as_ignored() {
    let filter = filter("a\nb\nc", "c");
    let records =
        vec![response(0, 0, 200, b"x"), response(1, 0, 200, b"y"), response(2, 0, 200, b"z")];
    let (ignored, a) = sums_from_records(Some(&filter), "a.csv".to_owned(), &records).unwrap();
    assert_eq!(ignored, 1);
    assert_eq!(a.len(), 2);
    let found = compare(&a, &a).unwrap();
    assert_eq!((found.num_same, found.num_ignored), (2, 0));
    let verdict = verdict(&found, &a, &a, 3).unwrap();
    assert_eq!(verdict.num_ignored, 1);
}

#[test]
fn filter_matches_anywhere_in_the_query() {
    let filter = filter("select a\ninsert b\nselect c", "sel");
    assert!(filter.ignore(QueryReference { query_index: 0 }).unwrap());
    assert!(!filter.ignore(QueryReference { query_index: 1 }).unwrap());
    assert!(filter.ignore(QueryReference { query_index: 2 }).unwrap());
}

#[test]
fn filter_refuses_references_beyond_the_corpus() {
    let filter = filter("a\nb", "a");
    assert!(matches!(
        filter.ignore(QueryReference { query_index: 2 }),
        Err(ReconcileError::ReferenceOutOfRange { reference: QueryReference { query_index: 2 } })
    ));
    let records = vec![response(0, 0, 200, b"x"), response(2, 0, 200, b"y")];
    assert!(matches!(
        sums_from_records(Some(&filter), "a.csv".to_owned(), &records),
        Err(ReconcileError::ReferenceOutOfRange { reference: QueryReference { query_index: 2 } })
    ));
}

#[test]
fn table_from_records() {
    let records = vec![
        response(1, 0, 200, b"x"),
        failure(0, 0),
        response(1, 1, 200, b"y"),
        response(1, 2, 200, b"x"),
    ];
    let (ignored, sums) = sums_from_records(None, "a.csv".to_owned(), &records).unwrap();
    assert_eq!(ignored, 0);
    assert_eq!(sums.file_path(), "a.csv");
    assert_eq!(sums.len(), 2);
    assert_eq!(sums.successes(), 1);
    assert_eq!(sums.errors(), &vec![finding(1, 1, 200, b"y")]);
}

#[test]
fn table_from_a_log_that_cannot_be_read() {
    let bytes = b"a,b,c,d,e,f,g,h,i,j\n1,0,1.0,2.0,1.0,Ok,200 OK,3,crc:5,\nnot a row\n";
    let mut reader = LogCsvReader::new("a.csv".to_owned(), bytes);
    match sums_from_log(None, "a.csv".to_owned(), &mut reader) {
        Err(ReconcileError::Log(error)) => {
            assert_eq!(error.row, 2);
            assert_eq!(error.path, "a.csv");
        }
        other => panic!("{other:?}"),
    }
}

#[test]
fn logs_that_reach_to_different_queries_cannot_be_compared() {
    let a = sums(&[response(0, 0, 200, b"x"), response(1, 0, 200, b"y")]);
    let b = sums(&[response(0, 0, 200, b"x")]);
    assert_eq!(compare(&a, &b).unwrap_err(), CompareError::DifferingLengths { a: 2, b: 1 });
    assert_eq!(compare(&b, &a).unwrap_err(), CompareError::DifferingLengths { a: 1, b: 2 });
}

#[test]
fn a_query_seen_in_one_log_only_is_fatal() {
    let a = sums(&[response(0, 0, 200, b"x"), response(2, 0, 200, b"z")]);
    let b = sums(&[response(1, 0, 200, b"y"), response(2, 0, 200, b"z")]);
    assert_eq!(
        compare(&a, &b).unwrap_err(),
        CompareError::SeenInOneOnly {
            reference: QueryReference { query_index: 0 },
            in_a: true,
            in_b: false
        }
    );
    assert_eq!(
        compare(&b, &a).unwrap_err(),
        CompareError::SeenInOneOnly {
            reference: QueryReference { query_index: 0 },
            in_a: false,
            in_b: true
        }
    );
}

#[test]
fn status_and_length_count_in_a_comparison() {
    let a = sums(&[response(0, 0, 200, b"x")]);
    let b = sums(&[response(0, 0, 404, b"x")]);
    assert_eq!(compare(&a, &b).unwrap().divergences.len(), 1);
    let same_crc_other_length = LogCsvRecord(
        QueryReference { query_index: 0 },
        0,
        time(1),
        time(2),
        Seconds { secs: 1, nanos: 0 },
        LogCsvResult::Response(StatusCode(200), 2, checksum_of::<crc_fast::Digest>(b"x")),
    );
    let c = sums(&[same_crc_other_length]);
    assert_eq!(compare(&a, &c).unwrap().divergences.len(), 1);
}

#[test]
fn verdict_numbers() {
    let a =
        sums(&[response(0, 0, 200, b"x"), response(0, 1, 200, b"y"), response(0, 2, 200, b"z")]);
    let b = sums(&[response(0, 0, 200, b"x"), response(0, 1, 200, b"w")]);
    let found = Comparison {
        divergences: vec![Divergence {
            reference: QueryReference { query_index: 4 },
            a: summary(200, b"x"),
            b: summary(200, b"y"),
        }],
        num_same: 5,
        num_ignored: 2,
    };
    assert_eq!(
        verdict(&found, &a, &b, 10),
        Ok(Verdict {
            num_errors: 1,
            num_same: 5,
            num_ignored: 4,
            num_unstable_a: 2,
            num_unstable_b: 1
        })
    );
    assert_eq!(
        verdict(&found, &a, &b, 8),
        Ok(Verdict {
            num_errors: 1,
            num_same: 5,
            num_ignored: 2,
            num_unstable_a: 2,
            num_unstable_b: 1
        })
    );
    assert_eq!(
        verdict(&found, &a, &b, 7),
        Err(CompareError::CorpusTooShort { num_queries: 7, num_compared: 8 })
    );
}

#[test]
fn verdict_is_a_success_only_without_any_defect() {
    let clean = Verdict {
        num_errors: 0,
        num_same: 5,
        num_ignored: 2,
        num_unstable_a: 0,
        num_unstable_b: 0,
    };
    assert!(clean.is_success());
    assert!(!Verdict { num_errors: 1, ..clean }.is_success());
    assert!(!Verdict { num_unstable_a: 1, ..clean }.is_success());
    assert!(!Verdict { num_unstable_b: 1, ..clean }.is_success());
    assert_eq!(
        Verdict { num_errors: 12, num_same: 345, num_ignored: 6, ..clean }.summary_line(7, 89),
        "=> 12 queries gave CRC differences, 345 had the same CRC, 6 were ignored \
         (7 and 89 requests)"
    );
}

#[test]
fn findings_sort_by_reference_then_repetition_then_response() {
    let errors = vec![
        finding(2, 0, 200, b"x"),
        finding(0, 5, 200, b"x"),
        finding(1, 1, 404, b"x"),
        finding(0, 2, 200, b"x"),
        finding(1, 1, 200, b"xx"),
        finding(1, 1, 200, b"x"),
        finding(0, 5, 200, b"x"),
    ];
    let sorted = sorted_errors(&errors);
    let mut expected = errors.clone();
    expected.sort();
    assert_eq!(sorted, expected);
    assert_eq!(sorted[0], finding(0, 2, 200, b"x"));
    assert_eq!(sorted[6], finding(2, 0, 200, b"x"));
    assert!(finding(0, 2, 200, b"x").precedes(&finding(0, 5, 200, b"x")));
    assert!(!finding(1, 0, 200, b"x").precedes(&finding(0, 5, 200, b"x")));
    assert!(finding(1, 0, 200, b"x").precedes(&finding(1, 0, 200, b"x")));
    assert_eq!(sorted_errors(&Vec::new()), Vec::new());
}

#[test]
fn findings_sort_like_their_derived_order() {
    let mut errors = Vec::new();
    for i in 0..200u32 {
        let x = i.wrapping_mul(2654435761);
        let status = 200 + (x >> 16) as u16 % 2;
        errors.push(finding(x % 5, (x >> 8) % 3, status, &[(x >> 24) as u8 % 4]));
    }
    let mut expected = errors.clone();
    expected.sort();
    assert_eq!(sorted_errors(&errors), expected);
}

#[test]
fn filter_knows_its_file() {
    assert_eq!(filter("a\nb", "a").file_path(), "queries.txt");
}

#[test]
fn filter_with_a_pattern_that_is_none() {
    let queries = Arc::new(Queries::from_lines_string("a\nb".to_owned()).unwrap());
    let error = QueriesWithIgnore::new("queries.txt".to_owned(), queries, "(").unwrap_err();
    assert_eq!(error.pattern, "(");
    assert!(!error.error.to_string().is_empty());
    let empty = Arc::new(Queries::from_lines_string(String::new()).unwrap());
    assert!(QueriesWithIgnore::new("queries.txt".to_owned(), empty, "[").is_err());
}

#[test]
fn filter_over_an_empty_corpus() {
    let filter = filter("", "a");
    assert!(matches!(
        filter.ignore(QueryReference { query_index: 0 }),
        Err(ReconcileError::ReferenceOutOfRange { .. })
    ));
}

#[test]
fn filter_with_the_syntax_of_regular_expressions() {
    let filter = filter("select 1\nSELECT 2\nselect 10\n", r"(?i)^select \d$");
    assert!(filter.ignore(QueryReference { query_index: 0 }).unwrap());
    assert!(filter.ignore(QueryReference { query_index: 1 }).unwrap());
    assert!(!filter.ignore(QueryReference { query_index: 2 }).unwrap());
}

#[test]
fn pattern_of_a_filter_file() {
    assert_eq!(ignore_pattern_from_text(""), None);
    assert_eq!(ignore_pattern_from_text(" \n\t "), None);
    assert_eq!(ignore_pattern_from_text("^select \n"), Some("^select"));
    assert_eq!(ignore_pattern_from_text("  x"), Some("  x"));
    assert_eq!(ignore_pattern_from_text("a b\u{a0}\u{2003}"), Some("a b"));
    assert_eq!(ignore_pattern_from_text("(\n"), Some("("));
}

#[test]
fn choosing_the_pattern() {
    assert_eq!(choose_ignore_pattern(Some("a"), Some("b"), true), Err(FilterError::TwoPatterns));
    assert_eq!(choose_ignore_pattern(Some("a"), Some(""), true), Err(FilterError::TwoPatterns));
    assert_eq!(choose_ignore_pattern(Some("a"), Some("b"), false), Err(FilterError::TwoPatterns));
    assert_eq!(choose_ignore_pattern(Some("a"), None, true), Ok(Some("a")));
    assert_eq!(choose_ignore_pattern(Some("a "), None, true), Ok(Some("a ")));
    assert_eq!(choose_ignore_pattern(Some("a"), None, false), Err(FilterError::MissingQueries));
    assert_eq!(choose_ignore_pattern(None, None, false), Ok(None));
    assert_eq!(choose_ignore_pattern(None, None, true), Ok(None));
    assert_eq!(choose_ignore_pattern(None, Some("b\n"), true), Ok(Some("b")));
    assert_eq!(choose_ignore_pattern(None, Some("b\n"), false), Err(FilterError::MissingQueries));
    assert_eq!(choose_ignore_pattern(None, Some("\n"), false), Ok(None));
    assert_eq!(choose_ignore_pattern(None, Some("\n"), true), Ok(None));
}

#[test]
fn report_line_of_a_divergence() {
    let divergence = Divergence {
        reference: QueryReference { query_index: 1 },
        a: (StatusCode(200), 17, Crc(99)),
        b: (StatusCode(404), 0, Crc(0)),
    };
    assert_eq!(
        divergence.report_line("select \"b\""),
        "2\t200 OK\t17\tcrc:99\t404 Not Found\t0\tcrc:0\tselect \"b\""
    );
    assert_eq!(divergence.report_line(""), "2\t200 OK\t17\tcrc:99\t404 Not Found\t0\tcrc:0\t");
}

#[test]
fn report_line_of_a_finding() {
    let finding = SumError::NonMatchingCrc {
        reference: QueryReferenceWithRepetition {
            query_reference: QueryReference { query_index: 6 },
            repetition: 3,
        },
        crc: (StatusCode(500), 5, Crc(1)),
    };
    assert_eq!(
        finding.report_line(&(StatusCode(200), 17, Crc(99))),
        "7\t3\t200 OK\t17\tcrc:99\t500 Internal Server Error\t5\tcrc:1"
    );
}

#[test]
fn query_texts_for_a_report() {
    let queries = Queries::from_lines_string("select a\nselect b".to_owned()).unwrap();
    assert_eq!(
        query_text_for_report(Some(&queries), QueryReference { query_index: 1 }),
        "select b"
    );
    assert_eq!(
        query_text_for_report(Some(&queries), QueryReference { query_index: 2 }),
        "<error: line is not in given query file>"
    );
    assert_eq!(
        query_text_for_report(None, QueryReference { query_index: 0 }),
        "<error: missing --queries option>"
    );
}

#[test]
fn comparing_the_other_way_round_swaps_the_logs() {
    let a =
        sums(&[response(0, 0, 200, b"x"), response(1, 0, 200, b"y"), response(3, 0, 200, b"z")]);
    let b =
        sums(&[response(0, 0, 200, b"x"), response(1, 0, 404, b""), response(3, 0, 200, b"w")]);
    let forth = compare(&a, &b).unwrap();
    let back = compare(&b, &a).unwrap();
    assert_eq!((forth.num_same, forth.num_ignored), (1, 1));
    assert_eq!((back.num_same, back.num_ignored), (1, 1));
    assert_eq!(forth.divergences.len(), 2);
    let swapped: Vec<Divergence> = forth
        .divergences
        .iter()
        .map(|d| Divergence { reference: d.reference, a: d.b, b: d.a })
        .collect();
    assert_eq!(back.divergences, swapped);
}

#[test]
fn responses_are_counted_up_to_255() {
    let mut sums = Sums::new("run.csv".to_owned());
    assert_eq!(sums.seen(0), 0);
    assert_eq!(sums.seen(7), 0);
    sums.add(&response(2, 0, 200, b"x"));
    assert_eq!((sums.seen(0), sums.seen(1), sums.seen(2), sums.seen(3)), (0, 0, 1, 0));
    sums.add(&response(2, 1, 200, b"x"));
    sums.add(&response(2, 2, 200, b"y"));
    sums.add(&failure(2, 3));
    sums.add(&failure(1, 0));
    assert_eq!((sums.seen(0), sums.seen(1), sums.seen(2), sums.seen(3)), (0, 0, 3, 0));
    for repetition in 3..300 {
        sums.add(&response(2, repetition, 200, b"x"));
    }
    assert_eq!(sums.seen(2), 255);
    assert_eq!(sums.successes(), 298);
    assert_eq!(sums.errors().len(), 1);
    sums.add(&response(0, 0, 200, b"x"));
    assert_eq!((sums.seen(0), sums.seen(2)), (1, 255));
}

#[test]
fn reading_a_log_twice_gives_the_same_table() {
    let bytes = run(&["a", "b", "c"], 3, &|query, repetition| {
        if query == "b" {
            vec![repetition as u8]
        } else {
            echo(query, 0)
        }
    });
    let filter = filter("a\nb\nc", "c");
    let mut reader = LogCsvReader::new("run.csv".to_owned(), &bytes);
    let (ignored_a, a) = sums_from_log(Some(&filter), "run.csv".to_owned(), &mut reader).unwrap();
    let mut reader = LogCsvReader::new("run.csv".to_owned(), &bytes);
    let (ignored_b, b) = sums_from_log(Some(&filter), "run.csv".to_owned(), &mut reader).unwrap();
    assert_eq!(ignored_a, ignored_b);
    assert_eq!(a.len(), b.len());
    for i in 0..a.len() {
        assert_eq!(a.first(i), b.first(i));
        assert_eq!(a.seen(i), b.seen(i));
    }
    assert_eq!(a.errors(), b.errors());
    let found = compare(&a, &b).unwrap();
    assert!(found.divergences.is_empty());
    assert_eq!((found.num_same, found.num_ignored), (2, 0));
}

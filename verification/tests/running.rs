use api_query::my_crc::{checksum_of, Crc};
use api_query::run_query::{
    check_status, cleanup, default_url, endpoint_url, Cleanup, FoldError, OutputMode, ResponseFold,
    RunQueryResult, UrlError,
};
use api_query::status::StatusCode;

#[test]
fn default_endpoint() {
    assert_eq!(default_url(None, None).unwrap(), "http://localhost:8081/query");
    assert_eq!(default_url(Some(9000), None).unwrap(), "http://localhost:9000/query");
    assert_eq!(default_url(None, Some("7000")).unwrap(), "http://localhost:7000/query");
    assert_eq!(default_url(Some(9000), Some("7000")).unwrap(), "http://localhost:9000/query");
    assert_eq!(default_url(Some(9000), Some("junk")).unwrap(), "http://localhost:9000/query");
    assert_eq!(default_url(None, Some("0")).unwrap(), "http://localhost:0/query");
    assert_eq!(default_url(None, Some("65535")).unwrap(), "http://localhost:65535/query");
    assert_eq!(default_url(None, Some("+80")).unwrap(), "http://localhost:80/query");
}

#[test]
fn port_of_the_environment_must_be_a_port() {
    for text in ["", "junk", "65536", "-1", "80 ", "8081/tcp"] {
        assert_eq!(default_url(None, Some(text)), Err(UrlError::BadPort), "{text:?}");
    }
}

#[test]
fn explicit_endpoint_wins() {
    assert_eq!(
        endpoint_url(Some("https://example.org/q"), Some(1), Some("junk")).unwrap(),
        "https://example.org/q"
    );
    assert_eq!(endpoint_url(None, Some(1), Some("junk")).unwrap(), "http://localhost:1/query");
    assert_eq!(endpoint_url(None, None, Some("2")).unwrap(), "http://localhost:2/query");
    assert_eq!(endpoint_url(None, None, None).unwrap(), "http://localhost:8081/query");
    assert_eq!(endpoint_url(None, None, Some("junk")), Err(UrlError::BadPort));
}

#[test]
fn only_status_200_is_a_success() {
    assert_eq!(check_status(StatusCode(200)), Ok(()));
    assert_eq!(check_status(StatusCode(201)), Err(StatusCode(201)));
    assert_eq!(check_status(StatusCode(404)), Err(StatusCode(404)));
}

#[test]
fn output_modes() {
    assert_eq!(OutputMode::from_options(None, false), OutputMode::Print);
    assert_eq!(OutputMode::from_options(None, true), OutputMode::Drop);
    assert_eq!(
        OutputMode::from_options(Some("out".to_owned()), false),
        OutputMode::Outdir("out".to_owned())
    );
    assert_eq!(OutputMode::from_options(Some("out".to_owned()), true), OutputMode::Drop);
    assert!(OutputMode::Print.is_stdout());
    assert!(!OutputMode::Print.is_drop());
    assert!(!OutputMode::Drop.is_stdout());
    assert!(OutputMode::Drop.is_drop());
    assert!(!OutputMode::Outdir("out".to_owned()).is_stdout());
    assert!(!OutputMode::Outdir("out".to_owned()).is_drop());
}

#[test]
fn newline_follows_a_printed_body_that_is_no_success() {
    assert!(OutputMode::Print.newline_after_body(StatusCode(500)));
    assert!(!OutputMode::Print.newline_after_body(StatusCode(200)));
    assert!(!OutputMode::Drop.newline_after_body(StatusCode(500)));
    assert!(!OutputMode::Outdir("out".to_owned()).newline_after_body(StatusCode(500)));
}

#[test]
fn empty_successful_file_is_removed() {
    assert_eq!(cleanup("000001", 0, StatusCode(200)), Cleanup::Remove);
}

#[test]
fn other_files_show_their_status() {
    assert_eq!(cleanup("000001", 1, StatusCode(200)), Cleanup::Rename("000001.200 OK".to_owned()));
    assert_eq!(
        cleanup("000001", 0, StatusCode(404)),
        Cleanup::Rename("000001.404 Not Found".to_owned())
    );
    assert_eq!(
        cleanup("000007-000003", 99, StatusCode(500)),
        Cleanup::Rename("000007-000003.500 Internal Server Error".to_owned())
    );
    assert_eq!(cleanup("", 0, StatusCode(204)), Cleanup::Rename(".204 No Content".to_owned()));
}

#[test]
fn fold_counts_and_sums_the_body() {
    let mut fold: ResponseFold<crc_fast::Digest> = ResponseFold::new(true);
    fold.add(b"1234").unwrap();
    fold.add(b"").unwrap();
    fold.add(b"56789").unwrap();
    assert_eq!(
        fold.finish(StatusCode(200)),
        RunQueryResult { status: StatusCode(200), outsize: 9, crc: Some(Crc(0xae8b14860a799888)) }
    );
}

#[test]
fn fold_of_an_empty_body() {
    let fold: ResponseFold<crc_fast::Digest> = ResponseFold::new(true);
    assert_eq!(
        fold.finish(StatusCode(404)),
        RunQueryResult {
            status: StatusCode(404),
            outsize: 0,
            crc: Some(checksum_of::<crc_fast::Digest>(b"")),
        }
    );
}

#[test]
fn fold_without_checksum() {
    let mut fold: ResponseFold<crc_fast::Digest> = ResponseFold::new(false);
    fold.add(b"123456789").unwrap();
    assert_eq!(
        fold.finish(StatusCode(200)),
        RunQueryResult { status: StatusCode(200), outsize: 9, crc: None }
    );
}

#[test]
fn fold_is_chunk_invariant() {
    let body: Vec<u8> = (0..5000u32).map(|i| (i % 251) as u8).collect();
    let mut whole: ResponseFold<crc_fast::Digest> = ResponseFold::new(true);
    whole.add(&body).unwrap();
    let whole = whole.finish(StatusCode(200));
    for size in [1usize, 13, 4096] {
        let mut fold: ResponseFold<crc_fast::Digest> = ResponseFold::new(true);
        for chunk in body.chunks(size) {
            assert_eq!(fold.add(chunk), Ok::<(), FoldError>(()));
        }
        assert_eq!(fold.finish(StatusCode(200)), whole);
    }
}

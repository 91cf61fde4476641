use tcp_webserver::reader::{classify_read, PushOutcome};
use tcp_webserver::{HttpError, Method, Request, RequestReader};

/// Feeds a whole request in one push and returns the outcome.
fn parse_whole(bytes: &[u8]) -> PushOutcome {
    let mut reader = RequestReader::new();
    reader.push(bytes)
}

/// Feeds a whole request one byte at a time and returns the final outcome.
fn parse_bytewise(bytes: &[u8]) -> PushOutcome {
    let mut reader = RequestReader::new();
    for (i, b) in bytes.iter().enumerate() {
        match reader.push(&[*b]) {
            PushOutcome::NeedMore => assert!(i + 1 < bytes.len(), "ended early"),
            done => return done,
        }
    }
    panic!("request never completed");
}

fn expect_done(outcome: PushOutcome) -> Request {
    match outcome {
        PushOutcome::Done(r) => r,
        PushOutcome::NeedMore => panic!("expected a complete request, got NeedMore"),
        PushOutcome::Failed(e) => panic!("expected a complete request, got {:?}", e),
    }
}

fn expect_failed(outcome: PushOutcome) -> HttpError {
    match outcome {
        PushOutcome::Failed(e) => e,
        PushOutcome::NeedMore => panic!("expected a failure, got NeedMore"),
        PushOutcome::Done(_) => panic!("expected a failure, got a request"),
    }
}

#[test]
fn simple_get_request() {
    let req = expect_done(parse_whole(b"GET /index.html HTTP/1.1\r\n\r\n"));
    assert_eq!(req.method, Method::Get);
    assert_eq!(req.path, b"/index.html".to_vec());
    assert_eq!(req.version, b"HTTP/1.1".to_vec());
    assert_eq!(req.headers.len(), 0);
    assert!(req.body.is_none());
}

#[test]
fn split_reads_match_single_read() {
    let bytes = b"GET /index.html HTTP/1.1\r\nHost: example\r\n\r\n";
    let whole = expect_done(parse_whole(bytes));
    let split = expect_done(parse_bytewise(bytes));
    assert_eq!(whole.method, split.method);
    assert_eq!(whole.path, split.path);
    assert_eq!(whole.version, split.version);
    assert_eq!(whole.headers.len(), split.headers.len());
    assert_eq!(whole.body, split.body);
    assert_eq!(
        whole.headers.get(b"Host").cloned(),
        split.headers.get(b"Host").cloned()
    );
}

#[test]
fn split_reads_match_single_read_with_body() {
    let bytes = b"GET / HTTP/1.1\r\nContent-Length: 5\r\n\r\nhello";
    let whole = expect_done(parse_whole(bytes));
    let split = expect_done(parse_bytewise(bytes));
    assert_eq!(whole.body, Some(b"hello".to_vec()));
    assert_eq!(split.body, Some(b"hello".to_vec()));
}

#[test]
fn terminator_straddling_every_boundary() {
    let bytes = b"GET / HTTP/1.1\r\n\r\n";
    for cut in 1..bytes.len() {
        let mut reader = RequestReader::new();
        let outcome = match reader.push(&bytes[..cut]) {
            PushOutcome::NeedMore => reader.push(&bytes[cut..]),
            done => done,
        };
        let req = expect_done(outcome);
        assert_eq!(req.method, Method::Get, "cut at {}", cut);
        assert_eq!(req.path, b"/".to_vec(), "cut at {}", cut);
    }
}

#[test]
fn content_length_body() {
    let req = expect_done(parse_whole(b"GET / HTTP/1.1\r\nContent-Length: 5\r\n\r\nhello"));
    assert_eq!(req.body, Some(b"hello".to_vec()));
    assert_eq!(
        req.headers.get(b"Content-Length").cloned(),
        Some(b"5".to_vec())
    );
}

#[test]
fn content_length_zero_gives_empty_body() {
    let req = expect_done(parse_whole(b"GET / HTTP/1.1\r\nContent-Length: 0\r\n\r\n"));
    assert_eq!(req.body, Some(Vec::new()));
}

#[test]
fn content_length_lookup_ignores_case() {
    let req = expect_done(parse_whole(b"GET / HTTP/1.1\r\ncontent-length: 2\r\n\r\nok"));
    assert_eq!(req.body, Some(b"ok".to_vec()));
}

#[test]
fn header_values_are_trimmed() {
    let req = expect_done(parse_whole(b"GET / HTTP/1.1\r\nHost:   spaced.example  \r\n\r\n"));
    assert_eq!(req.headers.get(b"Host").cloned(), Some(b"spaced.example".to_vec()));
}

#[test]
fn header_without_colon_is_invalid_header() {
    let e = expect_failed(parse_whole(b"GET / HTTP/1.1\r\nX-Bad-Header\r\n\r\n"));
    assert_eq!(e, HttpError::InvalidHeader);
}

#[test]
fn unknown_method_is_invalid_method() {
    let e = expect_failed(parse_whole(b"FOO / HTTP/1.1\r\n\r\n"));
    assert_eq!(e, HttpError::InvalidMethod);
}

#[test]
fn short_request_line_is_invalid_format() {
    let e = expect_failed(parse_whole(b"GET /\r\n\r\n"));
    assert_eq!(e, HttpError::InvalidFormat);
}

#[test]
fn long_request_line_is_invalid_format() {
    let e = expect_failed(parse_whole(b"GET / HTTP/1.1 extra\r\n\r\n"));
    assert_eq!(e, HttpError::InvalidFormat);
}

#[test]
fn unparseable_content_length_is_invalid_format() {
    let e = expect_failed(parse_whole(b"GET / HTTP/1.1\r\nContent-Length: abc\r\n\r\n"));
    assert_eq!(e, HttpError::InvalidFormat);
}

#[test]
fn undecodable_header_block_is_invalid_format() {
    let mut bytes = b"GET /\xff HTTP/1.1\r\n\r\n".to_vec();
    bytes[5] = 0xff;
    let e = expect_failed(parse_whole(&bytes));
    assert_eq!(e, HttpError::InvalidFormat);
}

#[test]
fn undecodable_body_is_invalid_format() {
    let mut bytes = b"GET / HTTP/1.1\r\nContent-Length: 2\r\n\r\nxx".to_vec();
    let n = bytes.len();
    bytes[n - 1] = 0xff;
    bytes[n - 2] = 0xfe;
    let e = expect_failed(parse_whole(&bytes));
    assert_eq!(e, HttpError::InvalidFormat);
}

#[test]
fn multibyte_utf8_body_is_accepted() {
    // a two-byte, a three-byte and a four-byte scalar
    let body = "é€😀".as_bytes();
    let mut bytes = format!("GET / HTTP/1.1\r\nContent-Length: {}\r\n\r\n", body.len()).into_bytes();
    bytes.extend_from_slice(body);
    let req = expect_done(parse_whole(&bytes));
    assert_eq!(req.body, Some(body.to_vec()));
}

#[test]
fn overlong_encoding_in_body_is_invalid_format() {
    let mut bytes = b"GET / HTTP/1.1\r\nContent-Length: 2\r\n\r\n".to_vec();
    bytes.extend_from_slice(&[0xc0, 0x80]);
    let e = expect_failed(parse_whole(&bytes));
    assert_eq!(e, HttpError::InvalidFormat);
}

#[test]
fn surrogate_encoding_in_body_is_invalid_format() {
    let mut bytes = b"GET / HTTP/1.1\r\nContent-Length: 3\r\n\r\n".to_vec();
    bytes.extend_from_slice(&[0xed, 0xa0, 0x80]);
    let e = expect_failed(parse_whole(&bytes));
    assert_eq!(e, HttpError::InvalidFormat);
}

#[test]
fn truncated_multibyte_scalar_in_body_is_invalid_format() {
    let mut bytes = b"GET / HTTP/1.1\r\nContent-Length: 1\r\n\r\n".to_vec();
    bytes.extend_from_slice(&[0xc3]);
    let e = expect_failed(parse_whole(&bytes));
    assert_eq!(e, HttpError::InvalidFormat);
}

#[test]
fn target_query_is_not_part_of_the_path() {
    let req = expect_done(parse_whole(b"GET /page.html?q=1 HTTP/1.1\r\n\r\n"));
    assert_eq!(req.path, b"/page.html".to_vec());
}

#[test]
fn relative_target_is_invalid_format() {
    let e = expect_failed(parse_whole(b"GET page.html HTTP/1.1\r\n\r\n"));
    assert_eq!(e, HttpError::InvalidFormat);
}

#[test]
fn all_nine_methods_are_recognized() {
    let methods: [(&[u8], Method); 9] = [
        (b"CONNECT", Method::Connect),
        (b"DELETE", Method::Delete),
        (b"GET", Method::Get),
        (b"HEAD", Method::Head),
        (b"OPTIONS", Method::Options),
        (b"PATCH", Method::Patch),
        (b"POST", Method::Post),
        (b"PUT", Method::Put),
        (b"TRACE", Method::Trace),
    ];
    for (name, expected) in methods {
        let mut line = name.to_vec();
        line.extend_from_slice(b" / HTTP/1.1");
        let (m, target, version) = Request::parse_request_line(&line).unwrap();
        assert_eq!(m, expected);
        assert_eq!(target, b"/".to_vec());
        assert_eq!(version, b"HTTP/1.1".to_vec());
    }
}

#[test]
fn lower_case_method_is_rejected() {
    let e = Request::parse_request_line(b"get / HTTP/1.1").unwrap_err();
    assert_eq!(e, HttpError::InvalidMethod);
}

#[test]
fn later_header_with_same_name_replaces_the_value() {
    let req = expect_done(parse_whole(b"GET / HTTP/1.1\r\nA: 1\r\nA: 2\r\n\r\n"));
    assert_eq!(req.headers.len(), 1);
    assert_eq!(req.headers.get(b"A").cloned(), Some(b"2".to_vec()));
}

#[test]
fn read_returns_are_classified() {
    assert_eq!(classify_read(10), Ok(10));
    assert_eq!(classify_read(0), Err(HttpError::ReceivingFailed));
    assert_eq!(classify_read(-1), Err(HttpError::ReceivingFailed));
}

#[test]
fn error_messages_name_their_kind() {
    assert_eq!(HttpError::InvalidFormat.message(), "Error: invalid HTTP format");
    assert_eq!(HttpError::InvalidMethod.message(), "Error: invalid HTTP method");
    assert_eq!(HttpError::InvalidHeader.message(), "Error: invalid HTTP header");
    assert_eq!(
        HttpError::ReceivingFailed.message(),
        "Error: failed to receive HTTP request message"
    );
}

use tcp_webserver::reader::PushOutcome;
use tcp_webserver::response::ServeStep;
use tcp_webserver::send::chunk_bounds;
use tcp_webserver::{FileOutcome, Method, Request, RequestReader, Response};

fn request_for(bytes: &[u8]) -> Request {
    let mut reader = RequestReader::new();
    match reader.push(bytes) {
        PushOutcome::Done(r) => r,
        _ => panic!("not a complete request"),
    }
}

#[test]
fn existing_text_file_is_served_with_its_type() {
    let req = request_for(b"GET /a.txt HTTP/1.1\r\n\r\n");
    let path = match req.serve_step(b"root") {
        ServeStep::ReadFile(p) => p,
        ServeStep::Respond(_) => panic!("expected a file read"),
    };
    assert_eq!(path, b"root/a.txt".to_vec());
    let resp = Response::finish(&path, FileOutcome::Content(b"hi".to_vec()));
    assert_eq!(resp.status_code, b"200".to_vec());
    assert_eq!(resp.status_text, b"OK".to_vec());
    assert_eq!(
        resp.headers.get(b"Content-Type").cloned(),
        Some(b"text/plain".to_vec())
    );
    assert_eq!(resp.body, Some(b"hi".to_vec()));
}

#[test]
fn missing_file_yields_bodiless_404() {
    let resp = Response::finish(b"root/missing", FileOutcome::NotFound);
    assert_eq!(resp.status_code, b"404".to_vec());
    assert_eq!(resp.status_text, b"Not Found".to_vec());
    assert_eq!(resp.headers.len(), 0);
    assert!(resp.body.is_none());
}

#[test]
fn forbidden_file_yields_bodiless_403() {
    let resp = Response::finish(b"root/locked", FileOutcome::PermissionDenied);
    assert_eq!(resp.status_code, b"403".to_vec());
    assert_eq!(resp.status_text, b"Forbidden".to_vec());
    assert!(resp.body.is_none());
}

#[test]
fn other_io_failure_yields_bodiless_500() {
    let resp = Response::finish(b"root/odd", FileOutcome::OtherError);
    assert_eq!(resp.status_code, b"500".to_vec());
    assert_eq!(resp.status_text, b"Internal Server Error".to_vec());
    assert!(resp.body.is_none());
}

#[test]
fn traversal_out_of_root_is_refused_without_a_read() {
    let req = request_for(b"GET /../secret HTTP/1.1\r\n\r\n");
    match req.serve_step(b"root") {
        ServeStep::Respond(resp) => {
            assert_eq!(resp.status_code, b"404".to_vec());
            assert!(resp.body.is_none());
        }
        ServeStep::ReadFile(p) => panic!("escaped the root: {:?}", p),
    }
}

#[test]
fn traversal_that_stays_inside_root_is_allowed() {
    let req = request_for(b"GET /sub/../a.txt HTTP/1.1\r\n\r\n");
    match req.serve_step(b"root") {
        ServeStep::ReadFile(p) => assert_eq!(p, b"root/sub/../a.txt".to_vec()),
        ServeStep::Respond(_) => panic!("expected a file read"),
    }
}

#[test]
fn non_get_methods_are_answered_not_implemented() {
    let req = request_for(b"POST /a.txt HTTP/1.1\r\n\r\n");
    assert_eq!(req.method, Method::Post);
    match req.serve_step(b"root") {
        ServeStep::Respond(resp) => {
            assert_eq!(resp.status_code, b"501".to_vec());
            assert_eq!(resp.status_text, b"Not Implemented".to_vec());
            assert!(resp.body.is_none());
        }
        ServeStep::ReadFile(_) => panic!("only GET may read files"),
    }
}

#[test]
fn known_extensions_map_to_their_types() {
    let html = Response::finish(b"root/x.html", FileOutcome::Content(Vec::new()));
    assert_eq!(html.headers.get(b"Content-Type").cloned(), Some(b"text/html".to_vec()));
    let png = Response::finish(b"root/x.png", FileOutcome::Content(Vec::new()));
    assert_eq!(png.headers.get(b"Content-Type").cloned(), Some(b"image/png".to_vec()));
    let json = Response::finish(b"root/x.json", FileOutcome::Content(Vec::new()));
    assert_eq!(
        json.headers.get(b"Content-Type").cloned(),
        Some(b"application/json".to_vec())
    );
}

#[test]
fn unknown_or_missing_extension_is_served_as_raw_bytes() {
    let odd = Response::finish(b"root/x.weird", FileOutcome::Content(Vec::new()));
    assert_eq!(
        odd.headers.get(b"Content-Type").cloned(),
        Some(b"application/octet-stream".to_vec())
    );
    let bare = Response::finish(b"root/README", FileOutcome::Content(Vec::new()));
    assert_eq!(
        bare.headers.get(b"Content-Type").cloned(),
        Some(b"application/octet-stream".to_vec())
    );
    let hidden = Response::finish(b"root/.bashrc", FileOutcome::Content(Vec::new()));
    assert_eq!(
        hidden.headers.get(b"Content-Type").cloned(),
        Some(b"application/octet-stream".to_vec())
    );
}

#[test]
fn bodiless_head_serializes_to_status_line_and_terminator() {
    let resp = Response::finish(b"root/missing", FileOutcome::NotFound);
    assert_eq!(resp.head_bytes(), b"HTTP/1.1 404 Not Found\r\n\r\n".to_vec());
}

#[test]
fn head_with_header_serializes_in_wire_order() {
    let resp = Response::finish(b"root/a.txt", FileOutcome::Content(b"hi".to_vec()));
    assert_eq!(
        resp.head_bytes(),
        b"HTTP/1.1 200 OK\r\nContent-Type: text/plain\r\n\r\n".to_vec()
    );
}

#[test]
fn parse_failures_are_answered_with_bad_request() {
    let resp = Response::bad_request();
    assert_eq!(resp.status_code, b"400".to_vec());
    assert_eq!(resp.status_text, b"Bad Request".to_vec());
    assert!(resp.body.is_none());
    assert_eq!(resp.head_bytes(), b"HTTP/1.1 400 Bad Request\r\n\r\n".to_vec());
}

#[test]
fn exact_multiple_makes_only_full_chunks() {
    let chunks = chunk_bounds(2048, 1024);
    assert_eq!(chunks, vec![(0, 1024), (1024, 2048)]);
}

#[test]
fn one_byte_over_adds_a_one_byte_chunk() {
    let chunks = chunk_bounds(2049, 1024);
    assert_eq!(chunks, vec![(0, 1024), (1024, 2048), (2048, 2049)]);
}

#[test]
fn short_body_is_a_single_chunk() {
    assert_eq!(chunk_bounds(10, 1024), vec![(0, 10)]);
    assert_eq!(chunk_bounds(1024, 1024), vec![(0, 1024)]);
}

#[test]
fn empty_body_makes_no_chunks() {
    assert_eq!(chunk_bounds(0, 1024), Vec::<(usize, usize)>::new());
}

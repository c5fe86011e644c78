use http_server::handler::Action;
use http_server::headers::header_lookup;
use http_server::line_reader::LineReader;
use http_server::request::{ParseOutcome, Request};
use http_server::response::Response;
use http_server::server::{Args, Server};

fn parse_bytes(data: &[u8]) -> Request {
    let mut reader = LineReader::new(data.to_vec());
    match Request::parse(&mut reader) {
        ParseOutcome::Parsed(req) => req,
        ParseOutcome::Incomplete => panic!("unexpected incomplete request"),
        ParseOutcome::Malformed => panic!("unexpected malformed request"),
    }
}

fn test_server() -> Server {
    Server::new(Args { dir: b"./".to_vec() })
}

fn done(action: Action) -> Response {
    match action {
        Action::Done(resp) => resp,
        _ => panic!("expected a finished response"),
    }
}

#[test]
fn start_line_tokens() {
    let req = parse_bytes(b"GET /echo/abc HTTP/1.1\r\n\r\n");
    assert_eq!(req.method, b"GET".to_vec());
    assert_eq!(req.version, b"HTTP/1.1".to_vec());
    assert_eq!(req.path, vec![b"echo".to_vec(), b"abc".to_vec()]);
    assert!(req.body.is_empty());
}

#[test]
fn target_two_segments_repeated_slashes() {
    let req = parse_bytes(b"GET //echo///hello/ HTTP/1.1\r\n\r\n");
    assert_eq!(req.path, vec![b"echo".to_vec(), b"hello".to_vec()]);
    for seg in &req.path {
        assert!(!seg.is_empty());
        assert!(!seg.contains(&b'/'));
    }
}

#[test]
fn root_and_double_slash_have_empty_path() {
    let req = parse_bytes(b"GET / HTTP/1.1\r\n\r\n");
    assert!(req.path.is_empty());
    let req = parse_bytes(b"GET // HTTP/1.1\r\n\r\n");
    assert!(req.path.is_empty());
}

#[test]
fn lf_only_terminators_are_accepted() {
    let req = parse_bytes(b"GET /echo/x HTTP/1.1\nHost: here\n\n");
    assert_eq!(req.path, vec![b"echo".to_vec(), b"x".to_vec()]);
    assert_eq!(header_lookup(&req.headers, b"host"), Some(b"here".to_vec()));
}

#[test]
fn missing_target_is_malformed() {
    let mut reader = LineReader::new(b"GET\r\n\r\n".to_vec());
    assert!(matches!(Request::parse(&mut reader), ParseOutcome::Malformed));
}

#[test]
fn unterminated_start_line_is_incomplete() {
    let mut reader = LineReader::new(b"GET / HTTP/1.1".to_vec());
    assert!(matches!(Request::parse(&mut reader), ParseOutcome::Incomplete));
}

#[test]
fn truncated_body_is_incomplete() {
    let mut reader = LineReader::new(b"POST /files/a HTTP/1.1\r\nContent-Length: 5\r\n\r\nhi".to_vec());
    assert!(matches!(Request::parse(&mut reader), ParseOutcome::Incomplete));
}

#[test]
fn body_read_to_declared_length() {
    let req = parse_bytes(b"POST /files/a HTTP/1.1\r\nContent-Length: 2\r\n\r\nhi");
    assert_eq!(req.body, b"hi".to_vec());
}

#[test]
fn unparsable_content_length_means_empty_body() {
    let req = parse_bytes(b"POST /x HTTP/1.1\r\nContent-Length: abc\r\n\r\n");
    assert!(req.body.is_empty());
    let req = parse_bytes(b"POST /x HTTP/1.1\r\nContent-Length: 99999999999999999999999\r\n\r\n");
    assert!(req.body.is_empty());
}

#[test]
fn header_line_without_separator_is_dropped() {
    let req = parse_bytes(b"GET / HTTP/1.1\r\nbogus-line\r\nHost: here\r\n\r\n");
    assert_eq!(req.headers.len(), 1);
    assert_eq!(header_lookup(&req.headers, b"host"), Some(b"here".to_vec()));
}

#[test]
fn duplicate_header_last_wins() {
    let req = parse_bytes(b"GET / HTTP/1.1\r\nX-K: one\r\nx-k: two\r\n\r\n");
    assert_eq!(header_lookup(&req.headers, b"X-K"), Some(b"two".to_vec()));
}

#[test]
fn header_lookup_is_case_insensitive() {
    let lower = parse_bytes(b"GET /user-agent HTTP/1.1\r\nuser-agent: X\r\n\r\n");
    let mixed = parse_bytes(b"GET /user-agent HTTP/1.1\r\nUser-Agent: X\r\n\r\n");
    let server = test_server();
    let body_lower = done(server.dispatch(&lower)).body;
    let body_mixed = done(server.dispatch(&mixed)).body;
    assert_eq!(body_lower, b"X".to_vec());
    assert_eq!(body_mixed, b"X".to_vec());
}

#[test]
fn scenario_root_ok() {
    let req = parse_bytes(b"GET / HTTP/1.1\r\n\r\n");
    let resp = done(test_server().dispatch(&req));
    assert_eq!(resp.status_code, b"200 OK".to_vec());
    assert!(resp.body.is_empty());
}

#[test]
fn scenario_echo_hello() {
    let req = parse_bytes(b"GET /echo/hello HTTP/1.1\r\n\r\n");
    let resp = done(test_server().dispatch(&req));
    assert_eq!(resp.status_code, b"200 OK".to_vec());
    assert_eq!(resp.body, b"hello".to_vec());
}

#[test]
fn echo_without_second_segment_is_bad_request() {
    let req = parse_bytes(b"GET /echo HTTP/1.1\r\n\r\n");
    let resp = done(test_server().dispatch(&req));
    assert_eq!(resp.status_code, b"400 Bad Request".to_vec());
    assert!(resp.body.is_empty());
}

#[test]
fn scenario_user_agent() {
    let req = parse_bytes(b"GET /user-agent HTTP/1.1\r\nUser-Agent: test-client\r\n\r\n");
    let resp = done(test_server().dispatch(&req));
    assert_eq!(resp.status_code, b"200 OK".to_vec());
    assert_eq!(resp.body, b"test-client".to_vec());
}

#[test]
fn user_agent_absent_is_unknown() {
    let req = parse_bytes(b"GET /user-agent HTTP/1.1\r\n\r\n");
    let resp = done(test_server().dispatch(&req));
    assert_eq!(resp.body, b"Unknown".to_vec());
}

#[test]
fn scenario_files_post_then_get() {
    let server = test_server();
    let post = parse_bytes(b"POST /files/note.txt HTTP/1.1\r\nContent-Length: 2\r\n\r\nhi");
    let (path, contents) = match server.dispatch(&post) {
        Action::WriteFile(path, contents) => (path, contents),
        _ => panic!("expected a file write"),
    };
    assert_eq!(path, b"./note.txt".to_vec());
    assert_eq!(contents, b"hi".to_vec());
    let created = server.handler.file_post_response(Ok(()));
    assert_eq!(created.status_code, b"201 Created".to_vec());
    assert!(created.body.is_empty());

    let get = parse_bytes(b"GET /files/note.txt HTTP/1.1\r\n\r\n");
    let read_path = match server.dispatch(&get) {
        Action::ReadFile(path) => path,
        _ => panic!("expected a file read"),
    };
    assert_eq!(read_path, b"./note.txt".to_vec());
    let resp = server.handler.file_get_response(Ok(contents));
    assert_eq!(resp.status_code, b"200 OK".to_vec());
    assert_eq!(resp.body, b"hi".to_vec());
    assert_eq!(
        header_lookup(&resp.headers, b"content-type"),
        Some(b"application/octet-stream".to_vec())
    );
    assert_eq!(header_lookup(&resp.headers, b"content-length"), Some(b"2".to_vec()));
}

#[test]
fn scenario_files_missing_is_bad_request() {
    let server = test_server();
    let resp = server
        .handler
        .file_get_response(Err(b"No such file or directory".to_vec()));
    assert_eq!(resp.status_code, b"400 Bad Request".to_vec());
    assert_eq!(resp.body, b"No such file or directory".to_vec());
}

#[test]
fn files_with_other_method_not_allowed() {
    let req = parse_bytes(b"DELETE /files/note.txt HTTP/1.1\r\n\r\n");
    let resp = done(test_server().dispatch(&req));
    assert_eq!(resp.status_code, b"405 Method Not Allowed".to_vec());
}

#[test]
fn files_without_name_is_bad_request() {
    let req = parse_bytes(b"GET /files HTTP/1.1\r\n\r\n");
    let resp = done(test_server().dispatch(&req));
    assert_eq!(resp.status_code, b"400 Bad Request".to_vec());
}

#[test]
fn unknown_route_is_not_found() {
    let req = parse_bytes(b"GET /nothing HTTP/1.1\r\n\r\n");
    let resp = done(test_server().dispatch(&req));
    assert_eq!(resp.status_code, b"404 Not Found".to_vec());
    assert!(resp.body.is_empty());
}

#[test]
fn files_get_twice_is_byte_identical() {
    let server = test_server();
    let raw = b"GET /files/note.txt HTTP/1.1\r\n\r\n";
    let first = match server.dispatch(&parse_bytes(raw)) {
        Action::ReadFile(path) => path,
        _ => panic!("expected a file read"),
    };
    let second = match server.dispatch(&parse_bytes(raw)) {
        Action::ReadFile(path) => path,
        _ => panic!("expected a file read"),
    };
    assert_eq!(first, second);
    let r1 = server.handler.file_get_response(Ok(b"same".to_vec())).serialize();
    let r2 = server.handler.file_get_response(Ok(b"same".to_vec())).serialize();
    assert_eq!(r1, r2);
}

#[test]
fn scenario_connection_close() {
    let close = parse_bytes(b"GET / HTTP/1.1\r\nConnection: close\r\n\r\n");
    assert!(close.connection_close());
    let keep = parse_bytes(b"GET / HTTP/1.1\r\nConnection: keep-alive\r\n\r\n");
    assert!(!keep.connection_close());
    let none = parse_bytes(b"GET / HTTP/1.1\r\n\r\n");
    assert!(!none.connection_close());
}

#[test]
fn two_requests_in_one_buffer() {
    let mut reader =
        LineReader::new(b"GET /echo/a HTTP/1.1\r\n\r\nGET /echo/b HTTP/1.1\r\n\r\n".to_vec());
    let first = match Request::parse(&mut reader) {
        ParseOutcome::Parsed(req) => req,
        _ => panic!("expected the first request"),
    };
    assert_eq!(first.path[1], b"a".to_vec());
    let second = match Request::parse(&mut reader) {
        ParseOutcome::Parsed(req) => req,
        _ => panic!("expected the second request"),
    };
    assert_eq!(second.path[1], b"b".to_vec());
}

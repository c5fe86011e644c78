use http_server::headers::header_lookup;
use http_server::line_reader::LineReader;
use http_server::request::{ParseOutcome, Request};
use http_server::response::Response;

#[test]
fn new_seeds_content_type_and_length() {
    let resp = Response::new(b"200 OK", b"abc");
    assert_eq!(resp.status_code, b"200 OK".to_vec());
    assert_eq!(resp.body, b"abc".to_vec());
    assert_eq!(
        header_lookup(&resp.headers, b"content-type"),
        Some(b"text/plain".to_vec())
    );
    assert_eq!(header_lookup(&resp.headers, b"content-length"), Some(b"3".to_vec()));
}

#[test]
fn add_header_overrides_in_any_case() {
    let mut resp = Response::new(b"200 OK", b"");
    resp.add_header(b"content-TYPE".to_vec(), b"application/octet-stream".to_vec());
    assert_eq!(
        header_lookup(&resp.headers, b"Content-Type"),
        Some(b"application/octet-stream".to_vec())
    );
    let lines = resp
        .headers
        .iter()
        .filter(|p| p.0.eq_ignore_ascii_case(b"content-type"))
        .count();
    assert_eq!(lines, 1);
}

#[test]
fn serialize_exact_bytes() {
    let resp = Response::new(b"200 OK", b"hi");
    let bytes = resp.serialize();
    let expected = b"HTTP/1.1 200 OK\r\nContent-Type: text/plain\r\nContent-Length: 2\r\n\r\nhi";
    assert_eq!(bytes, expected.to_vec());
}

#[test]
fn serialize_parse_round_trip() {
    let mut resp = Response::new(b"200 OK", b"hello");
    resp.add_header(b"X-Extra".to_vec(), b"yes".to_vec());
    let bytes = resp.serialize();
    assert!(bytes.starts_with(b"HTTP/1.1 200 OK\r\n"));
    let mut reader = LineReader::new(bytes.clone());
    let message = match Request::parse(&mut reader) {
        ParseOutcome::Parsed(req) => req,
        _ => panic!("serialized response should parse back as a message"),
    };
    assert_eq!(reader.pos, bytes.len());
    assert_eq!(message.body, b"hello".to_vec());
    assert_eq!(message.headers, resp.headers);
    assert_eq!(
        header_lookup(&message.headers, b"Content-Length"),
        Some(b"5".to_vec())
    );
    assert_eq!(
        header_lookup(&message.headers, b"x-extra"),
        Some(b"yes".to_vec())
    );
}

#[test]
fn decimal_helpers_round_trip() {
    assert_eq!(http_server::bytes::usize_to_decimal(0), b"0".to_vec());
    assert_eq!(http_server::bytes::usize_to_decimal(40971), b"40971".to_vec());
    assert_eq!(http_server::bytes::parse_decimal(b"40971"), Some(40971));
    assert_eq!(http_server::bytes::parse_decimal(b""), None);
    assert_eq!(http_server::bytes::parse_decimal(b"12a"), None);
}

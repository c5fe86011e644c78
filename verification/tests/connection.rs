use http_server::connection::{connection_step, ConnStep};
use http_server::handler::Action;
use http_server::line_reader::LineReader;
use http_server::server::{Args, Server};

fn test_server() -> Server {
    Server::new(Args { dir: b"./".to_vec() })
}

#[test]
fn step_dispatches_and_reports_close() {
    let server = test_server();
    let mut reader =
        LineReader::new(b"GET /echo/bye HTTP/1.1\r\nConnection: close\r\n\r\n".to_vec());
    match connection_step(&server, &mut reader) {
        ConnStep::Dispatch(Action::Done(resp), close) => {
            assert!(close, "Connection: close must end the connection");
            assert_eq!(resp.status_code, b"200 OK".to_vec());
            assert_eq!(resp.body, b"bye".to_vec());
        }
        _ => panic!("expected a dispatched response"),
    }
    assert_eq!(reader.pos, reader.data.len());
}

#[test]
fn step_keeps_connection_without_close_header() {
    let server = test_server();
    let mut reader = LineReader::new(b"GET / HTTP/1.1\r\n\r\n".to_vec());
    match connection_step(&server, &mut reader) {
        ConnStep::Dispatch(_, close) => assert!(!close),
        _ => panic!("expected a dispatched response"),
    }
}

#[test]
fn step_asks_for_more_bytes_on_partial_request() {
    let server = test_server();
    let mut reader = LineReader::new(b"GET / HTTP/1.1\r\nHost: h".to_vec());
    assert!(matches!(
        connection_step(&server, &mut reader),
        ConnStep::NeedMoreData
    ));
}

#[test]
fn step_closes_on_malformed_request() {
    let server = test_server();
    let mut reader = LineReader::new(b"GET\r\n\r\n".to_vec());
    assert!(matches!(connection_step(&server, &mut reader), ConnStep::Close));
}

#[test]
fn consecutive_steps_walk_the_buffer() {
    let server = test_server();
    let mut reader = LineReader::new(
        b"GET /echo/one HTTP/1.1\r\n\r\nGET /echo/two HTTP/1.1\r\nConnection: close\r\n\r\n"
            .to_vec(),
    );
    match connection_step(&server, &mut reader) {
        ConnStep::Dispatch(Action::Done(resp), close) => {
            assert_eq!(resp.body, b"one".to_vec());
            assert!(!close);
        }
        _ => panic!("expected the first response"),
    }
    match connection_step(&server, &mut reader) {
        ConnStep::Dispatch(Action::Done(resp), close) => {
            assert_eq!(resp.body, b"two".to_vec());
            assert!(close);
        }
        _ => panic!("expected the second response"),
    }
}

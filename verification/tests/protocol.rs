use wol_server::dispatch::{dispatch, handle_request, parse_failure_response, wake_response, Action};
use wol_server::request::{Method, Request, RequestError};
use wol_server::response::{HttpStatusResponse, Status};

fn parse(bytes: &[u8]) -> Result<Request, RequestError> {
    Request::parse(bytes)
}

fn respond_bytes(action: Action) -> Vec<u8> {
    match action {
        Action::Respond(resp) => resp.to_bytes(),
        Action::SendWake => panic!("expected a finished response"),
    }
}

#[test]
fn ping_yields_pong() {
    let req = parse(b"GET /ping HTTP/1.1\r\n\r\n").unwrap();
    assert_eq!(req.method, Method::Get);
    assert_eq!(req.path, b"/ping".to_vec());
    let bytes = respond_bytes(dispatch(&req));
    assert_eq!(bytes, b"HTTP/1.1 200 OK\r\n\r\npong".to_vec());
}

#[test]
fn ping_yields_pong_with_any_headers() {
    let req = parse(b"GET /ping HTTP/1.1\r\nHost: example.com\r\nAccept: */*\r\n\r\n").unwrap();
    let bytes = respond_bytes(dispatch(&req));
    assert_eq!(bytes, b"HTTP/1.1 200 OK\r\n\r\npong".to_vec());
}

#[test]
fn unmatched_get_path_is_not_found() {
    let req = parse(b"GET /missing HTTP/1.1\r\n\r\n").unwrap();
    let bytes = respond_bytes(dispatch(&req));
    assert_eq!(bytes, b"HTTP/1.1 404 Not found\r\n\r\n".to_vec());
}

#[test]
fn unmatched_post_path_is_not_found() {
    let req = parse(b"POST /ping HTTP/1.1\r\n\r\n").unwrap();
    let bytes = respond_bytes(dispatch(&req));
    assert_eq!(bytes, b"HTTP/1.1 404 Not found\r\n\r\n".to_vec());
}

#[test]
fn query_string_falls_to_not_found() {
    let req = parse(b"GET /ping?x=1 HTTP/1.1\r\n\r\n").unwrap();
    let bytes = respond_bytes(dispatch(&req));
    assert_eq!(bytes, b"HTTP/1.1 404 Not found\r\n\r\n".to_vec());
}

#[test]
fn trailing_slash_falls_to_not_found() {
    let req = parse(b"GET /ping/ HTTP/1.1\r\n\r\n").unwrap();
    let bytes = respond_bytes(dispatch(&req));
    assert_eq!(bytes, b"HTTP/1.1 404 Not found\r\n\r\n".to_vec());
}

#[test]
fn path_matching_is_case_sensitive() {
    let req = parse(b"GET /Ping HTTP/1.1\r\n\r\n").unwrap();
    let bytes = respond_bytes(dispatch(&req));
    assert_eq!(bytes, b"HTTP/1.1 404 Not found\r\n\r\n".to_vec());
}

#[test]
fn turn_on_requests_wake() {
    let req = parse(b"POST /turn_on HTTP/1.1\r\n\r\n").unwrap();
    assert!(matches!(dispatch(&req), Action::SendWake));
}

#[test]
fn wake_success_is_ok_with_empty_body() {
    // the transmission primitive is injected: here it succeeded
    let resp = wake_response(Ok(()));
    assert_eq!(resp.status, Status::Success);
    assert!(resp.body.is_empty());
    assert_eq!(resp.to_bytes(), b"HTTP/1.1 200 OK\r\n\r\n".to_vec());
}

#[test]
fn wake_failure_is_server_error_with_text() {
    // the transmission primitive is injected: here it was forced to fail
    let resp = wake_response(Err(b"no route to host".to_vec()));
    assert_eq!(resp.status, Status::ServerError);
    assert_eq!(resp.body, b"no route to host".to_vec());
    assert_eq!(
        resp.to_bytes(),
        b"HTTP/1.1 500 Internal Server Error\r\n\r\nno route to host".to_vec()
    );
}

#[test]
fn unknown_method_is_invalid() {
    let err = parse(b"DELETE /ping HTTP/1.1\r\n\r\n").unwrap_err();
    assert_eq!(err, RequestError::InvalidMethod);
}

#[test]
fn unknown_method_is_answered_with_teapot() {
    let bytes = respond_bytes(handle_request(b"DELETE /ping HTTP/1.1\r\n\r\n"));
    assert_eq!(bytes, b"HTTP/1.1 418 I'm a teapot\r\n\r\n".to_vec());
}

#[test]
fn method_matching_is_case_sensitive() {
    let err = parse(b"get /ping HTTP/1.1\r\n\r\n").unwrap_err();
    assert_eq!(err, RequestError::InvalidMethod);
}

#[test]
fn every_parse_failure_is_a_teapot() {
    let resp = parse_failure_response(&RequestError::MalformedHeader);
    assert_eq!(resp.status, Status::Teapot);
    assert!(resp.body.is_empty());
}

#[test]
fn missing_path_token_is_malformed() {
    let err = parse(b"GET\r\n\r\n").unwrap_err();
    assert_eq!(err, RequestError::MalformedRequestLine);
}

#[test]
fn bare_unknown_token_is_invalid_method() {
    // the method is checked before the missing path is noticed
    let err = parse(b"FOO\r\n\r\n").unwrap_err();
    assert_eq!(err, RequestError::InvalidMethod);
}

#[test]
fn blank_first_line_misses_the_request_line() {
    let err = parse(b"\r\nGET /ping HTTP/1.1\r\n\r\n").unwrap_err();
    assert_eq!(err, RequestError::MissingRequestLine);
}

#[test]
fn truncated_input_is_unterminated() {
    let err = parse(b"GET /ping HTTP/1.1\r\n").unwrap_err();
    assert_eq!(err, RequestError::UnterminatedHeaderBlock);
    let err = parse(b"").unwrap_err();
    assert_eq!(err, RequestError::UnterminatedHeaderBlock);
}

#[test]
fn header_without_separator_is_malformed() {
    let err = parse(b"GET /ping HTTP/1.1\r\nHost example.com\r\n\r\n").unwrap_err();
    assert_eq!(err, RequestError::MalformedHeader);
}

#[test]
fn invalid_method_wins_over_bad_headers() {
    let err = parse(b"BREW /pot HTTP/1.1\r\nbroken\r\n\r\n").unwrap_err();
    assert_eq!(err, RequestError::InvalidMethod);
}

#[test]
fn lf_only_framing_is_accepted() {
    let req = parse(b"GET /ping HTTP/1.1\nHost: example.com\n\n").unwrap();
    assert_eq!(req.method, Method::Get);
    assert_eq!(req.path, b"/ping".to_vec());
    assert_eq!(
        req.header_value(b"Host"),
        Some(&b"example.com".to_vec())
    );
}

#[test]
fn headers_parse_and_last_value_wins() {
    let req =
        parse(b"GET / HTTP/1.1\r\nHost: example.com\r\nX-Test: 1\r\nX-Test: 2\r\n\r\n").unwrap();
    assert_eq!(req.header_value(b"Host"), Some(&b"example.com".to_vec()));
    assert_eq!(req.header_value(b"X-Test"), Some(&b"2".to_vec()));
    assert_eq!(req.header_value(b"Absent"), None);
}

#[test]
fn header_value_splits_at_first_separator_only() {
    let req = parse(b"GET / HTTP/1.1\r\nNote: a: b\r\n\r\n").unwrap();
    assert_eq!(req.header_value(b"Note"), Some(&b"a: b".to_vec()));
}

#[test]
fn round_trip_is_lossless() {
    let wire = b"POST /somewhere HTTP/1.1\r\nHost: device.local\r\nX-Token: opaque1\r\n\r\n";
    let req = parse(wire).unwrap();
    assert_eq!(req.method, Method::Post);
    assert_eq!(req.path, b"/somewhere".to_vec());
    assert_eq!(req.headers.len(), 2);
    assert_eq!(req.headers[0].name, b"Host".to_vec());
    assert_eq!(req.headers[0].value, b"device.local".to_vec());
    assert_eq!(req.headers[1].name, b"X-Token".to_vec());
    assert_eq!(req.headers[1].value, b"opaque1".to_vec());

    let encoded = req.encode();
    assert_eq!(encoded, wire.to_vec());

    let again = parse(&encoded).unwrap();
    assert_eq!(again.method, req.method);
    assert_eq!(again.path, req.path);
    assert_eq!(again.headers.len(), req.headers.len());
    for (a, b) in again.headers.iter().zip(req.headers.iter()) {
        assert_eq!(a.name, b.name);
        assert_eq!(a.value, b.value);
    }
}

#[test]
fn two_connections_are_answered_independently() {
    // two interleaved per-connection cycles share nothing: each gets
    // the answer its own bytes deserve
    let first = handle_request(b"GET /ping HTTP/1.1\r\n\r\n");
    let second = handle_request(b"GET /other HTTP/1.1\r\n\r\n");
    assert_eq!(respond_bytes(first), b"HTTP/1.1 200 OK\r\n\r\npong".to_vec());
    assert_eq!(respond_bytes(second), b"HTTP/1.1 404 Not found\r\n\r\n".to_vec());
}

#[test]
fn status_lines_render_exactly() {
    let teapot = HttpStatusResponse { status: Status::Teapot, body: Vec::new() };
    assert_eq!(teapot.to_bytes(), b"HTTP/1.1 418 I'm a teapot\r\n\r\n".to_vec());
    let not_found = HttpStatusResponse { status: Status::NotFound, body: Vec::new() };
    assert_eq!(not_found.to_bytes(), b"HTTP/1.1 404 Not found\r\n\r\n".to_vec());
}

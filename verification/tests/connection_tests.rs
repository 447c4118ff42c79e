use minihttp::connection::{
    classify_receive, default_client_error_response, default_timeout_response, error_status,
    mark_connection_close,
};
use minihttp::{Connection, Headers, RequestError, Response, StatusCode};

#[test]
fn defaults_are_five_seconds_and_two_hundred_requests() {
    let c = Connection::new();
    assert_eq!(c.keep_alive_timeout, 5);
    assert_eq!(c.keep_alive_max, 200);
    let c = c.keep_alive_timeout(30).keep_alive_max(10);
    assert_eq!(c.keep_alive_timeout, 30);
    assert_eq!(c.keep_alive_max, 10);
}

#[test]
fn missing_connection_header_defaults_to_keep_alive() {
    // A request without a Connection header and a response without
    // one: the engine advertises keep-alive with its configured
    // limits.
    let c = Connection::new();
    let req_headers = Headers::new();
    let mut res = Response::build().body(b"hi".to_vec());
    c.apply_keep_alive_headers(&req_headers, &mut res);
    assert_eq!(res.headers.get("Connection").map(|s| s.as_str()), Some("keep-alive"));
    assert_eq!(
        res.headers.get("Keep-Alive").map(|s| s.as_str()),
        Some("timeout=5, max=200")
    );
    assert!(!c.should_close(1, &res));
}

#[test]
fn client_close_wish_is_honoured() {
    let c = Connection::new();
    let mut req_headers = Headers::new();
    req_headers.insert("Connection", "CLOSE");
    let mut res = Response::build().body(b"hi".to_vec());
    c.apply_keep_alive_headers(&req_headers, &mut res);
    assert_eq!(res.headers.get("Connection").map(|s| s.as_str()), Some("close"));
    assert_eq!(res.headers.get("Keep-Alive"), None);
    assert!(c.should_close(1, &res));
}

#[test]
fn a_response_that_chose_its_own_connection_header_is_left_alone() {
    let c = Connection::new();
    let req_headers = Headers::new();
    let mut res = Response::build().header("Connection", "upgrade").body(Vec::new());
    c.apply_keep_alive_headers(&req_headers, &mut res);
    assert_eq!(res.headers.get("Connection").map(|s| s.as_str()), Some("upgrade"));
    // No Keep-Alive header was added, so the engine closes.
    assert_eq!(res.headers.get("Keep-Alive"), None);
    assert!(c.should_close(1, &res));
}

#[test]
fn the_last_budgeted_response_still_advertises_keep_alive() {
    // With the default budget of two hundred, every response gets
    // keep-alive headers, including the two-hundredth; the loop then
    // closes without receiving again.
    let c = Connection::new();
    let req_headers = Headers::new();
    for handled in 1..=200usize {
        let mut res = Response::build().body(b"ok".to_vec());
        c.apply_keep_alive_headers(&req_headers, &mut res);
        assert_eq!(
            res.headers.get("Keep-Alive").map(|s| s.as_str()),
            Some("timeout=5, max=200")
        );
        assert_eq!(c.should_close(handled, &res), handled >= 200);
    }
}

#[test]
fn error_statuses_follow_the_mapping_table() {
    assert_eq!(
        error_status(&RequestError::InvalidHeader("x".into())),
        StatusCode::BadRequest
    );
    assert_eq!(
        error_status(&RequestError::InvalidContentLength("x".into())),
        StatusCode::BadRequest
    );
    assert_eq!(
        error_status(&RequestError::UnsupportedHttpVersion("x".into())),
        StatusCode::HTTPVersionNotSupported
    );
    assert_eq!(
        error_status(&RequestError::InvalidRequestLine("x".into())),
        StatusCode::InternalServerError
    );
    assert_eq!(
        error_status(&RequestError::Read("x".into())),
        StatusCode::InternalServerError
    );
}

#[test]
fn garbage_request_line_yields_a_closing_error_response() {
    // An unparsable request line maps through the table to a 500,
    // the error response is forced to close, and the loop stops
    // after sending it.
    let mut parser = minihttp::RequestParser::new();
    parser.feed_line(9, "garbage");
    let err = match parser.finish() {
        Err(e) => e,
        Ok(_) => panic!("garbage must not parse"),
    };
    let status = error_status(&err);
    assert_eq!(status, StatusCode::InternalServerError);
    let mut res = default_client_error_response(&err, status);
    assert_eq!(res.headers.get("Connection"), None);
    assert_eq!(res.headers.get("Keep-Alive"), None);
    assert_eq!(res.headers.get("Transfer-Encoding"), None);
    assert_eq!(res.headers.get("Content-Length").map(|s| s.as_str()), Some("48"));
    mark_connection_close(&mut res);
    assert_eq!(res.status.code(), 500);
    assert_eq!(res.headers.get("Connection").map(|s| s.as_str()), Some("close"));
    let c = Connection::new();
    assert!(c.should_close(1, &res));
    match res.body {
        Some(minihttp::Body::Bytes(b)) => {
            assert_eq!(b, b"invalid request: invalid request line: \"garbage\"".to_vec())
        },
        _ => panic!("expected an in-memory body"),
    }
}

#[test]
fn timeout_response_is_a_closing_408() {
    let res = default_timeout_response();
    assert_eq!(res.status.code(), 408);
    assert_eq!(res.headers.get("Connection").map(|s| s.as_str()), Some("close"));
    assert_eq!(res.headers.get("Keep-Alive"), None);
    assert_eq!(res.headers.get("Transfer-Encoding"), None);
    assert_eq!(res.headers.get("Content-Length").map(|s| s.as_str()), Some("15"));
    assert_eq!(
        res.headers.get("Content-Type").map(|s| s.as_str()),
        Some("text/plain; charset=utf-8")
    );
    match &res.body {
        Some(minihttp::Body::Bytes(b)) => assert_eq!(b, &b"Request Timeout".to_vec()),
        _ => panic!("expected an in-memory body"),
    }
    let c = Connection::new();
    assert!(c.should_close(1, &res));
}

#[test]
fn classify_receive_separates_closure_from_faults() {
    assert_eq!(classify_receive(&RequestError::ConnectionClosed), None);
    assert_eq!(
        classify_receive(&RequestError::InvalidHeader("x".into())),
        Some(StatusCode::BadRequest)
    );
    assert_eq!(
        classify_receive(&RequestError::InvalidRequestLine("x".into())),
        Some(StatusCode::InternalServerError)
    );
}

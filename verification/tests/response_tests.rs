use minihttp::extensions::Extensions;
use minihttp::{Body, Headers, Response, StatusCode};

#[test]
fn body_sets_length_and_default_content_type() {
    let res = Response::build().body(b"hi".to_vec());
    assert_eq!(res.status.code(), 200);
    assert_eq!(res.headers.get("Content-Length").map(|s| s.as_str()), Some("2"));
    assert_eq!(
        res.headers.get("Content-Type").map(|s| s.as_str()),
        Some("text/plain; charset=utf-8")
    );
    assert_eq!(res.headers.get("Transfer-Encoding"), None);
    match res.body {
        Some(Body::Bytes(b)) => assert_eq!(b, b"hi".to_vec()),
        _ => panic!("expected an in-memory body"),
    }
}

#[test]
fn body_respects_an_explicit_content_type_and_clears_chunking() {
    let res = Response::build()
        .header("Content-Type", "application/json")
        .header("Transfer-Encoding", "chunked")
        .body(b"{}".to_vec());
    assert_eq!(
        res.headers.get("Content-Type").map(|s| s.as_str()),
        Some("application/json")
    );
    assert_eq!(res.headers.get("Transfer-Encoding"), None);
    assert_eq!(res.headers.get("Content-Length").map(|s| s.as_str()), Some("2"));
}

#[test]
fn stream_sets_chunked_framing_and_drops_content_length() {
    let res = Response::build().header("Content-Length", "42").stream();
    assert_eq!(res.headers.get("Content-Length"), None);
    assert_eq!(res.headers.get("Transfer-Encoding").map(|s| s.as_str()), Some("chunked"));
    assert_eq!(
        res.headers.get("Content-Type").map(|s| s.as_str()),
        Some("application/octet-stream")
    );
    assert!(res.headers.is_chunked());
    assert!(matches!(res.body, Some(Body::Stream)));
}

#[test]
fn build_sets_a_date_header() {
    let res = Response::build().end();
    let date = res.headers.get("Date").expect("a Date header");
    assert_eq!(date.len(), 29);
    assert!(res.body.is_none());
}

#[test]
fn status_and_header_and_cookie_accumulate() {
    let res = Response::build()
        .status(StatusCode::NotFound)
        .header("X-Extra", "1")
        .cookie("session", "abc")
        .end();
    assert_eq!(res.status.code(), 404);
    assert_eq!(res.headers.get("X-Extra").map(|s| s.as_str()), Some("1"));
    assert_eq!(res.headers.get("Set-Cookie").map(|s| s.as_str()), Some("session=abc"));
}

#[test]
fn fmt_head_has_the_wire_shape() {
    let mut headers = Headers::new();
    headers.insert("Host", "example");
    let res = Response {
        status: StatusCode::OK,
        headers,
        extensions: Extensions::new(),
        body: None,
    };
    assert_eq!(res.fmt_head(), "HTTP/1.1 200 Ok \r\nHost: example\r\n\r\n");
}

#[test]
fn fmt_head_without_headers_keeps_the_blank_line() {
    let res = Response {
        status: StatusCode::NotFound,
        headers: Headers::new(),
        extensions: Extensions::new(),
        body: None,
    };
    assert_eq!(res.fmt_head(), "HTTP/1.1 404 NotFound \r\n\r\n\r\n");
}

#[test]
fn into_builder_keeps_the_response() {
    let res = Response::build().status(StatusCode::Created).end();
    let res2 = res.into_builder().header("X-More", "y").end();
    assert_eq!(res2.status.code(), 201);
    assert_eq!(res2.headers.get("X-More").map(|s| s.as_str()), Some("y"));
}

#[test]
fn response_error_message_names_the_fault() {
    let err = minihttp::ResponseError::Io("broken pipe".to_string());
    assert_eq!(err.message(), "I/O error: broken pipe");
}

#[test]
fn file_headers_guess_the_content_type_from_the_extension() {
    let res = Response::build().file_headers("site/index.html").stream();
    assert_eq!(res.headers.get("Content-Type").map(|s| s.as_str()), Some("text/html"));
    let res = Response::build().file_headers("archive.bin.unknownext").stream();
    assert_eq!(
        res.headers.get("Content-Type").map(|s| s.as_str()),
        Some("application/octet-stream")
    );
}

#[test]
fn file_headers_respect_an_explicit_content_type() {
    let res = Response::build()
        .header("Content-Type", "text/x-custom")
        .file_headers("index.html")
        .stream();
    assert_eq!(res.headers.get("Content-Type").map(|s| s.as_str()), Some("text/x-custom"));
}

use minihttp::request::normalize_path;
use minihttp::{RequestError, RequestParser};

#[test]
fn normalize_path_strips_query_and_slashes() {
    assert_eq!(normalize_path("/foo?bar=1"), "/foo");
    assert_eq!(normalize_path("/foo/"), "/foo");
    assert_eq!(normalize_path("//foo//bar//"), "/foo//bar");
    assert_eq!(normalize_path("/"), "/");
    assert_eq!(normalize_path(""), "/");
    assert_eq!(normalize_path("?only=query"), "/");
    assert_eq!(normalize_path("abc"), "/abc");
}

fn feed(parser: &mut RequestParser, line: &str) {
    // The transport reports the byte count it read, terminators
    // included.
    parser.feed_line(line.len() + 2, line);
}

#[test]
fn parses_a_simple_request() {
    let mut p = RequestParser::new();
    feed(&mut p, "GET / HTTP/1.1");
    feed(&mut p, "Host: x");
    feed(&mut p, "");
    assert!(p.done());
    let req = p.finish().expect("request should parse");
    assert_eq!(req.method, "GET");
    assert_eq!(req.path, "/");
    assert_eq!(req.headers.get("host").map(|s| s.as_str()), Some("x"));
    assert_eq!(req.content_len(), None);
}

#[test]
fn parses_path_query_and_content_length() {
    let mut p = RequestParser::new();
    feed(&mut p, "POST /submit/form/?q=1 HTTP/1.1");
    feed(&mut p, "content-LENGTH:  5");
    feed(&mut p, "");
    let req = p.finish().expect("request should parse");
    assert_eq!(req.method, "POST");
    assert_eq!(req.path, "/submit/form");
    assert_eq!(req.content_len(), Some(5));
    assert_eq!(req.headers.get("Content-Length").map(|s| s.as_str()), Some("5"));
}

#[test]
fn zero_length_read_signals_closed_connection() {
    let mut p = RequestParser::new();
    p.feed_line(0, "");
    assert!(p.done());
    assert!(matches!(p.finish(), Err(RequestError::ConnectionClosed)));
}

#[test]
fn garbage_request_line_is_invalid() {
    let mut p = RequestParser::new();
    feed(&mut p, "garbage");
    assert!(p.done());
    match p.finish() {
        Err(RequestError::InvalidRequestLine(l)) => assert_eq!(l, "garbage"),
        other => panic!("unexpected outcome: {:?}", other.is_ok()),
    }
}

#[test]
fn wrong_version_is_rejected() {
    let mut p = RequestParser::new();
    feed(&mut p, "GET / HTTP/1.0");
    match p.finish() {
        Err(RequestError::UnsupportedHttpVersion(v)) => assert_eq!(v, "HTTP/1.0"),
        _ => panic!("expected an unsupported-version error"),
    }
}

#[test]
fn header_without_colon_space_separator_is_invalid() {
    // The wire grammar demands the exact colon+space separator; a
    // bare colon is a parse error.
    let mut p = RequestParser::new();
    feed(&mut p, "GET / HTTP/1.1");
    feed(&mut p, "Host:nospace");
    assert!(p.done());
    match p.finish() {
        Err(RequestError::InvalidHeader(l)) => assert_eq!(l, "Host:nospace"),
        _ => panic!("expected an invalid-header error"),
    }
}

#[test]
fn header_without_colon_is_invalid() {
    let mut p = RequestParser::new();
    feed(&mut p, "GET / HTTP/1.1");
    feed(&mut p, "NoColonHere");
    assert!(p.done());
    match p.finish() {
        Err(RequestError::InvalidHeader(l)) => assert_eq!(l, "NoColonHere"),
        _ => panic!("expected an invalid-header error"),
    }
}

#[test]
fn bad_content_length_is_invalid() {
    let mut p = RequestParser::new();
    feed(&mut p, "GET / HTTP/1.1");
    feed(&mut p, "Content-Length: abc");
    match p.finish() {
        Err(RequestError::InvalidContentLength(v)) => assert_eq!(v, "abc"),
        _ => panic!("expected an invalid-content-length error"),
    }
}

#[test]
fn overflowing_content_length_is_invalid() {
    let mut p = RequestParser::new();
    feed(&mut p, "GET / HTTP/1.1");
    feed(&mut p, "Content-Length: 99999999999999999999999999");
    assert!(matches!(p.finish(), Err(RequestError::InvalidContentLength(_))));
}

#[test]
fn extra_request_line_tokens_are_ignored() {
    let mut p = RequestParser::new();
    feed(&mut p, "GET /a HTTP/1.1 trailing junk");
    feed(&mut p, "");
    let req = p.finish().expect("request should parse");
    assert_eq!(req.method, "GET");
    assert_eq!(req.path, "/a");
}

#[test]
fn error_messages_describe_the_fault() {
    let err = RequestError::InvalidRequestLine("garbage".to_string());
    assert_eq!(err.message(), "invalid request line: \"garbage\"");
    assert_eq!(
        RequestError::ConnectionClosed.message(),
        "Tcp client closed connection"
    );
    assert_eq!(
        RequestError::UnsupportedHttpVersion("HTTP/2".to_string()).message(),
        "unsupported http version: \"HTTP/2\""
    );
}

#[test]
fn scenario_get_root_without_content_length() {
    // `GET / HTTP/1.1` with only a Host header: the body budget is
    // zero, so the first read request is for nothing; a `hi` body on
    // the response carries `Content-Length: 2` and no
    // `Transfer-Encoding`.
    let mut p = RequestParser::new();
    feed(&mut p, "GET / HTTP/1.1");
    feed(&mut p, "Host: x");
    feed(&mut p, "");
    let req = p.finish().expect("request should parse");
    let body = minihttp::BodyReader::new(req.content_len().unwrap_or(0));
    assert_eq!(body.next_read_len(), 0);
    let res = minihttp::Response::build().body(b"hi".to_vec());
    assert_eq!(res.headers.get("Content-Length").map(|s| s.as_str()), Some("2"));
    assert_eq!(res.headers.get("Transfer-Encoding"), None);
}

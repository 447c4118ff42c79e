use minihttp::Headers;
use minihttp::headers::capitalize_key;

#[test]
fn capitalize_key_canonicalizes_segments() {
    assert_eq!(capitalize_key("content-type"), "Content-Type");
    assert_eq!(capitalize_key("CONTENT-LENGTH"), "Content-Length");
    assert_eq!(capitalize_key("x-my-custom-header"), "X-My-Custom-Header");
    assert_eq!(capitalize_key("host"), "Host");
    assert_eq!(capitalize_key(""), "");
}

#[test]
fn insert_and_get_are_case_insensitive() {
    let mut h = Headers::new();
    h.insert("content-type", "text/html");
    assert_eq!(h.get("CONTENT-TYPE").map(|s| s.as_str()), Some("text/html"));
    assert_eq!(h.get("Content-Type").map(|s| s.as_str()), Some("text/html"));
    assert_eq!(h.get("content-length"), None);
}

#[test]
fn insert_replaces_all_values() {
    let mut h = Headers::new();
    h.append("Accept", "a");
    h.append("Accept", "b");
    h.insert("accept", "c");
    assert_eq!(h.get("Accept").map(|s| s.as_str()), Some("c"));
    assert_eq!(h.to_string(), "Accept: c");
}

#[test]
fn append_keeps_existing_values() {
    let mut h = Headers::new();
    h.append("Set-Cookie", "a=1");
    h.append("set-cookie", "b=2");
    assert_eq!(h.get("Set-Cookie").map(|s| s.as_str()), Some("a=1"));
    assert_eq!(h.to_string(), "Set-Cookie: a=1\r\nSet-Cookie: b=2");
}

#[test]
fn remove_drops_the_entry() {
    let mut h = Headers::new();
    h.insert("Host", "example");
    h.insert("Accept", "x");
    h.remove("HOST");
    assert_eq!(h.get("Host"), None);
    assert!(h.contains_key("Accept"));
    assert!(!h.contains_key("Host"));
}

#[test]
fn to_string_joins_lines_with_crlf() {
    let mut h = Headers::new();
    h.insert("Host", "example.com");
    h.insert("Accept", "*/*");
    assert_eq!(h.to_string(), "Host: example.com\r\nAccept: */*");
    assert_eq!(Headers::new().to_string(), "");
}

#[test]
fn insert_header_line_splits_on_colon_space() {
    let mut h = Headers::new();
    assert_eq!(h.insert_header_line("Host: example.com"), Ok(()));
    assert_eq!(h.get("Host").map(|s| s.as_str()), Some("example.com"));
    assert_eq!(h.insert_header_line("no separator"), Err(()));
    assert_eq!(h.insert_header_line("colon:but-no-space"), Err(()));
    assert_eq!(h.insert_header_line("a: b: c"), Ok(()));
    assert_eq!(h.get("A").map(|s| s.as_str()), Some("b: c"));
}

#[test]
fn serialize_then_reparse_rebuilds_the_table() {
    let mut h = Headers::new();
    h.insert("Host", "example.com");
    h.insert("Content-Type", "text/plain");
    h.insert("Accept", "*/*");
    let wire = h.to_string();
    let mut rebuilt = Headers::new();
    for line in wire.split("\r\n") {
        assert_eq!(rebuilt.insert_header_line(line), Ok(()));
    }
    assert_eq!(rebuilt.get("Host").map(|s| s.as_str()), Some("example.com"));
    assert_eq!(rebuilt.get("content-type").map(|s| s.as_str()), Some("text/plain"));
    assert_eq!(rebuilt.get("ACCEPT").map(|s| s.as_str()), Some("*/*"));
    assert_eq!(rebuilt.to_string(), wire);
}

#[test]
fn add_set_cookie_formats_pairs() {
    let mut h = Headers::new();
    h.add_set_cookie("session", "abc");
    h.add_set_cookie("theme", "dark");
    assert_eq!(h.to_string(), "Set-Cookie: session=abc\r\nSet-Cookie: theme=dark");
}

#[test]
fn get_cookie_finds_first_match() {
    let mut h = Headers::new();
    h.insert("Cookie", "a=1; session=abc; a=2");
    assert_eq!(h.get_cookie("a"), Some("1".to_string()));
    assert_eq!(h.get_cookie("session"), Some("abc".to_string()));
    assert_eq!(h.get_cookie("missing"), None);
}

#[test]
fn get_cookie_trims_pairs_and_skips_bare_segments() {
    let mut h = Headers::new();
    h.insert("Cookie", "junk;  spaced = v ; k=x=y");
    assert_eq!(h.get_cookie("spaced "), Some(" v".to_string()));
    assert_eq!(h.get_cookie("spaced"), None);
    assert_eq!(h.get_cookie("k"), Some("x=y".to_string()));
    assert_eq!(h.get_cookie("junk"), None);
}

#[test]
fn get_cookie_without_cookie_header() {
    let h = Headers::new();
    assert_eq!(h.get_cookie("any"), None);
}

#[test]
fn is_chunked_checks_transfer_encoding() {
    let mut h = Headers::new();
    assert!(!h.is_chunked());
    h.insert("Transfer-Encoding", "chunked");
    assert!(h.is_chunked());
    h.insert("Transfer-Encoding", "gzip");
    assert!(!h.is_chunked());
}

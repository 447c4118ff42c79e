use minihttp::text::{parse_usize, trim_char_str, trim_ws_str, usize_to_string};

#[test]
fn decimal_rendering_matches_display() {
    assert_eq!(usize_to_string(0), "0");
    assert_eq!(usize_to_string(7), "7");
    assert_eq!(usize_to_string(200), "200");
    assert_eq!(usize_to_string(98765), "98765");
}

#[test]
fn parse_usize_accepts_exactly_digit_strings() {
    assert_eq!(parse_usize("0"), Some(0));
    assert_eq!(parse_usize("0042"), Some(42));
    assert_eq!(parse_usize("5"), Some(5));
    assert_eq!(parse_usize(""), None);
    assert_eq!(parse_usize("5a"), None);
    assert_eq!(parse_usize("-5"), None);
    assert_eq!(parse_usize(" 5"), None);
    assert_eq!(parse_usize("99999999999999999999999999"), None);
}

#[test]
fn trimming_strips_both_ends() {
    assert_eq!(trim_ws_str("  a b \t"), "a b");
    assert_eq!(trim_ws_str("\r\n"), "");
    assert_eq!(trim_char_str("//a//b//", '/'), "a//b");
    assert_eq!(trim_char_str("////", '/'), "");
}

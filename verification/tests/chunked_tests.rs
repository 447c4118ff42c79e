use minihttp::chunked::{chunk_terminator, decode_chunked, encode_chunk};

#[test]
fn encode_chunk_frames_length_and_bytes() {
    assert_eq!(encode_chunk(&b"Wiki".to_vec()), b"4\r\nWiki\r\n".to_vec());
    assert_eq!(
        encode_chunk(&b"abcdefghijklmnopqrstuvwxyz".to_vec()),
        b"1A\r\nabcdefghijklmnopqrstuvwxyz\r\n".to_vec()
    );
    assert_eq!(encode_chunk(&Vec::new()), b"0\r\n\r\n".to_vec());
}

#[test]
fn terminator_is_the_zero_marker() {
    assert_eq!(chunk_terminator(), b"0\r\n\r\n".to_vec());
}

/// A decoder written independently of the library, for checking the
/// round trip on concrete bytes.
fn decode(mut s: &[u8]) -> Option<Vec<u8>> {
    let mut out = Vec::new();
    loop {
        let mut h = 0;
        while h < s.len() && (s[h] as char).is_ascii_hexdigit() {
            h += 1;
        }
        if h == 0 || h + 2 > s.len() || s[h] != 13 || s[h + 1] != 10 {
            return None;
        }
        let n = usize::from_str_radix(std::str::from_utf8(&s[..h]).ok()?, 16).ok()?;
        if n == 0 {
            if s.len() == h + 4 && s[h + 2] == 13 && s[h + 3] == 10 {
                return Some(out);
            }
            return None;
        }
        if h + 2 + n + 2 > s.len() || s[h + 2 + n] != 13 || s[h + 2 + n + 1] != 10 {
            return None;
        }
        out.extend_from_slice(&s[h + 2..h + 2 + n]);
        s = &s[h + 4 + n..];
    }
}

#[test]
fn chunked_round_trip_on_concrete_chunks() {
    let chunks: Vec<Vec<u8>> = vec![
        b"hello ".to_vec(),
        b"chunked ".to_vec(),
        b"world".to_vec(),
        vec![0u8, 255u8, 13u8, 10u8],
    ];
    let mut wire = Vec::new();
    for c in &chunks {
        wire.extend_from_slice(&encode_chunk(c));
    }
    wire.extend_from_slice(&chunk_terminator());
    let decoded = decode(&wire).expect("well-formed framing");
    let expected: Vec<u8> = chunks.concat();
    assert_eq!(decoded, expected);
}

#[test]
fn decoder_rejects_a_truncated_stream() {
    let mut wire = encode_chunk(&b"data".to_vec());
    wire.pop();
    assert_eq!(decode(&wire), None);
}

#[test]
fn library_decoder_inverts_the_encoder() {
    let chunks: Vec<Vec<u8>> = vec![b"first".to_vec(), b"second".to_vec()];
    let mut wire = Vec::new();
    for c in &chunks {
        wire.extend_from_slice(&encode_chunk(c));
    }
    wire.extend_from_slice(&chunk_terminator());
    assert_eq!(decode_chunked(&wire), Some(b"firstsecond".to_vec()));
    assert_eq!(decode_chunked(&chunk_terminator()), Some(Vec::new()));
    assert_eq!(decode_chunked(&b"zz\r\n".to_vec()), None);
}

//! Chunked transfer framing.  Each chunk goes on the wire as its
//! byte count in upper-case hexadecimal, CRLF, the bytes
//! themselves, CRLF; a zero marker with a final CRLF ends the body.
//! A decoder is specified alongside and the framing is proved to
//! round-trip through it.

use vstd::prelude::*;

verus! {

/// The wire byte for one hexadecimal digit (`0`–`9`, `A`–`F`).
pub open spec fn hex_digit_byte(d: nat) -> u8 {
    if d == 0 {
        48
    } else if d == 1 {
        49
    } else if d == 2 {
        50
    } else if d == 3 {
        51
    } else if d == 4 {
        52
    } else if d == 5 {
        53
    } else if d == 6 {
        54
    } else if d == 7 {
        55
    } else if d == 8 {
        56
    } else if d == 9 {
        57
    } else if d == 10 {
        65
    } else if d == 11 {
        66
    } else if d == 12 {
        67
    } else if d == 13 {
        68
    } else if d == 14 {
        69
    } else {
        70
    }
}

/// A chunk size in upper-case hexadecimal wire bytes.
pub open spec fn chunk_size_bytes(n: nat) -> Seq<u8>
    decreases n,
{
    if n < 16 {
        seq![hex_digit_byte(n)]
    } else {
        chunk_size_bytes(n / 16).push(hex_digit_byte(n % 16))
    }
}

/// The wire form of one chunk.
pub open spec fn spec_encode_chunk(data: Seq<u8>) -> Seq<u8> {
    chunk_size_bytes(data.len()) + seq![13u8, 10u8] + data + seq![13u8, 10u8]
}

/// The five bytes `0 CR LF CR LF` that end a chunked body.
pub open spec fn spec_chunk_terminator() -> Seq<u8> {
    seq![48u8, 13u8, 10u8, 13u8, 10u8]
}

fn hex_byte(d: usize) -> (r: u8)
    requires
        d < 16,
    ensures
        r == hex_digit_byte(d as nat),
{
    if d == 0 {
        48
    } else if d == 1 {
        49
    } else if d == 2 {
        50
    } else if d == 3 {
        51
    } else if d == 4 {
        52
    } else if d == 5 {
        53
    } else if d == 6 {
        54
    } else if d == 7 {
        55
    } else if d == 8 {
        56
    } else if d == 9 {
        57
    } else if d == 10 {
        65
    } else if d == 11 {
        66
    } else if d == 12 {
        67
    } else if d == 13 {
        68
    } else if d == 14 {
        69
    } else {
        70
    }
}

fn chunk_size_vec(n: usize) -> (r: Vec<u8>)
    ensures
        r@ == chunk_size_bytes(n as nat),
    decreases n,
{
    if n < 16 {
        let mut out: Vec<u8> = Vec::new();
        out.push(hex_byte(n));
        assert(out@ =~= chunk_size_bytes(n as nat));
        out
    } else {
        let mut out = chunk_size_vec(n / 16);
        out.push(hex_byte(n % 16));
        assert(out@ =~= chunk_size_bytes(n as nat));
        out
    }
}

/// Frames one chunk for the wire: hexadecimal length, CRLF, the
/// bytes, CRLF.
pub fn encode_chunk(data: &Vec<u8>) -> (r: Vec<u8>)
    ensures
        r@ == spec_encode_chunk(data@),
{
    let ghost prefix = chunk_size_bytes(data@.len()) + seq![13u8, 10u8];
    let mut out = chunk_size_vec(data.len());
    out.push(13);
    out.push(10);
    assert(out@ =~= prefix + data@.take(0));
    let n = data.len();
    let mut i: usize = 0;
    while i < n
        invariant
            n == data@.len(),
            0 <= i <= n,
            out@ =~= prefix + data@.take(i as int),
            prefix == chunk_size_bytes(data@.len()) + seq![13u8, 10u8],
        decreases n - i,
    {
        out.push(data[i]);
        i += 1;
        assert(out@ =~= prefix + data@.take(i as int));
    }
    assert(data@.take(n as int) =~= data@);
    out.push(13);
    out.push(10);
    assert(out@ =~= spec_encode_chunk(data@));
    out
}

/// The bytes that end a chunked body.
pub fn chunk_terminator() -> (r: Vec<u8>)
    ensures
        r@ == spec_chunk_terminator(),
{
    let mut out: Vec<u8> = Vec::new();
    out.push(48);
    out.push(13);
    out.push(10);
    out.push(13);
    out.push(10);
    assert(out@ =~= spec_chunk_terminator());
    out
}

pub open spec fn is_hex_digit_byte(b: u8) -> bool {
    (48 <= b && b <= 57) || (65 <= b && b <= 70)
}

/// The value of one hexadecimal wire byte.
pub open spec fn hex_byte_val(b: u8) -> nat {
    if 48 <= b && b <= 57 {
        (b - 48) as nat
    } else if 65 <= b && b <= 70 {
        (b - 55) as nat
    } else {
        0
    }
}

/// The number a run of hexadecimal wire bytes denotes.
pub open spec fn hex_val_of(s: Seq<u8>) -> nat
    decreases s.len(),
{
    if s.len() == 0 {
        0
    } else {
        hex_val_of(s.drop_last()) * 16 + hex_byte_val(s.last())
    }
}

/// First index at or after `i` holding a non-hexadecimal byte, or
/// the length.
pub open spec fn hex_run_end(s: Seq<u8>, i: int) -> int
    decreases s.len() - i,
{
    if i < 0 || i >= s.len() {
        s.len() as int
    } else if is_hex_digit_byte(s[i]) {
        hex_run_end(s, i + 1)
    } else {
        i
    }
}

/// Decodes a chunked-framed byte stream back into the body bytes:
/// each size line is read, each chunk's bytes are taken, and the
/// zero marker must end the stream exactly.
pub open spec fn spec_decode_chunked(s: Seq<u8>) -> Option<Seq<u8>>
    decreases s.len(),
{
    let h = hex_run_end(s, 0);
    if h < 1 {
        None
    } else if h + 2 > s.len() {
        None
    } else if !(s[h] == 13 && s[h + 1] == 10) {
        None
    } else {
        let n = hex_val_of(s.take(h)) as int;
        if n == 0 {
            if s.len() == h + 4 && s[h + 2] == 13 && s[h + 3] == 10 {
                Some(Seq::empty())
            } else {
                None
            }
        } else if h + 2 + n + 2 > s.len() {
            None
        } else if !(s[h + 2 + n] == 13 && s[h + 2 + n + 1] == 10) {
            None
        } else {
            match spec_decode_chunked(s.skip(h + 4 + n)) {
                Some(rest) => Some(s.subrange(h + 2, h + 2 + n) + rest),
                None => None,
            }
        }
    }
}

/// A rendered chunk size is a non-empty run of hexadecimal bytes
/// denoting the size itself.
pub proof fn lemma_chunk_size_bytes_props(n: nat)
    ensures
        chunk_size_bytes(n).len() >= 1,
        forall|i: int|
            0 <= i < chunk_size_bytes(n).len() ==> is_hex_digit_byte(
                #[trigger] chunk_size_bytes(n)[i],
            ),
        hex_val_of(chunk_size_bytes(n)) == n,
    decreases n,
{
    if n < 16 {
        let one = seq![hex_digit_byte(n)];
        assert(chunk_size_bytes(n) == one);
        assert(one.len() == 1);
        assert(one.last() == hex_digit_byte(n));
        assert(one.drop_last() =~= Seq::<u8>::empty());
        assert(hex_val_of(Seq::<u8>::empty()) == 0);
        assert(hex_val_of(one) == hex_byte_val(hex_digit_byte(n)));
        assert(hex_byte_val(hex_digit_byte(n)) == n);
    } else {
        lemma_chunk_size_bytes_props(n / 16);
        let base = chunk_size_bytes(n / 16);
        let whole = chunk_size_bytes(n);
        assert(whole == base.push(hex_digit_byte(n % 16)));
        assert(whole.drop_last() =~= base);
        assert(whole.last() == hex_digit_byte(n % 16));
        assert forall|i: int| 0 <= i < whole.len() implies is_hex_digit_byte(
            #[trigger] whole[i],
        ) by {
            if i < base.len() {
                assert(whole[i] == base[i]);
            }
        }
    }
}

proof fn lemma_hex_run_end_stops(s: Seq<u8>, dl: int, j: int)
    requires
        0 <= j <= dl < s.len(),
        forall|i: int| 0 <= i < dl ==> is_hex_digit_byte(#[trigger] s[i]),
        !is_hex_digit_byte(s[dl]),
    ensures
        hex_run_end(s, j) == dl,
    decreases dl - j,
{
    if j < dl {
        lemma_hex_run_end_stops(s, dl, j + 1);
    }
}

pub proof fn lemma_hex_run_end_range(s: Seq<u8>, i: int)
    requires
        0 <= i <= s.len(),
    ensures
        i <= hex_run_end(s, i) <= s.len(),
        hex_run_end(s, i) < s.len() ==> !is_hex_digit_byte(s[hex_run_end(s, i)]),
        forall|q: int| i <= q < hex_run_end(s, i) ==> is_hex_digit_byte(#[trigger] s[q]),
    decreases s.len() - i,
{
    if i < s.len() && is_hex_digit_byte(s[i]) {
        lemma_hex_run_end_range(s, i + 1);
    }
}

/// Scanning a suffix finds the same run end, shifted.
proof fn lemma_hex_run_shift(s: Seq<u8>, p: int, i: int)
    requires
        0 <= p <= i <= s.len(),
    ensures
        hex_run_end(s.skip(p), i - p) == hex_run_end(s, i) - p,
    decreases s.len() - i,
{
    if i < s.len() {
        assert(s.skip(p)[i - p] == s[i]);
        if is_hex_digit_byte(s[i]) {
            lemma_hex_run_shift(s, p, i + 1);
        }
    }
}

proof fn lemma_hex_val_step(s: Seq<u8>, pos: int, k: int)
    requires
        0 <= pos <= k < s.len(),
    ensures
        hex_val_of(s.subrange(pos, k + 1)) == hex_val_of(s.subrange(pos, k)) * 16 + hex_byte_val(
            s[k],
        ),
{
    assert(s.subrange(pos, k + 1).drop_last() =~= s.subrange(pos, k));
    assert(s.subrange(pos, k + 1).last() == s[k]);
}

proof fn lemma_hex_val_grows(s: Seq<u8>, pos: int, k: int, j: int)
    requires
        0 <= pos <= k <= j <= s.len(),
    ensures
        hex_val_of(s.subrange(pos, k)) <= hex_val_of(s.subrange(pos, j)),
    decreases j - k,
{
    if k < j {
        lemma_hex_val_step(s, pos, k);
        lemma_hex_val_grows(s, pos, k + 1, j);
    }
}

fn is_hex(b: u8) -> (r: bool)
    ensures
        r == is_hex_digit_byte(b),
{
    (48 <= b && b <= 57) || (65 <= b && b <= 70)
}

/// Decodes a chunked-framed byte stream, exactly as the specified
/// decoder reads it.
pub fn decode_chunked(s: &Vec<u8>) -> (r: Option<Vec<u8>>)
    ensures
        match spec_decode_chunked(s@) {
            Some(d) => r matches Some(v) && v@ == d,
            None => r is None,
        },
{
    assert(s@.skip(0) =~= s@);
    decode_from(s, 0)
}

fn decode_from(s: &Vec<u8>, pos: usize) -> (r: Option<Vec<u8>>)
    requires
        pos <= s@.len(),
    ensures
        match spec_decode_chunked(s@.skip(pos as int)) {
            Some(d) => r matches Some(v) && v@ == d,
            None => r is None,
        },
    decreases s@.len() - pos,
{
    let ghost suffix = s@.skip(pos as int);
    let n = s.len();
    let mut j = pos;
    loop
        invariant
            pos <= j <= n,
            n == s@.len(),
            hex_run_end(s@, pos as int) == hex_run_end(s@, j as int),
        ensures
            pos <= j <= n,
            j == hex_run_end(s@, pos as int),
        decreases n - j,
    {
        if j == n {
            break;
        }
        if !is_hex(s[j]) {
            break;
        }
        j += 1;
    }
    proof {
        lemma_hex_run_end_range(s@, pos as int);
        lemma_hex_run_shift(s@, pos as int, pos as int);
        assert(hex_run_end(suffix, 0) == j - pos);
    }
    let ghost h = j as int - pos as int;
    if j - pos < 1 {
        return None;
    }
    if n - j < 2 {
        assert(h + 2 > suffix.len());
        return None;
    }
    assert(suffix[h] == s@[j as int]);
    assert(suffix[h + 1] == s@[j as int + 1]);
    if !(s[j] == 13 && s[j + 1] == 10) {
        return None;
    }
    let ghost digits = suffix.take(h);
    assert(digits =~= s@.subrange(pos as int, j as int));
    let mut val: usize = 0;
    let mut k = pos;
    assert(s@.subrange(pos as int, pos as int) =~= Seq::<u8>::empty());
    while k < j
        invariant
            pos <= k <= j <= n,
            n == s@.len(),
            pos < j,
            n - j >= 2,
            j == hex_run_end(s@, pos as int),
            suffix == s@.skip(pos as int),
            h == j as int - pos as int,
            hex_run_end(suffix, 0) == h,
            digits == s@.subrange(pos as int, j as int),
            digits == suffix.take(h),
            s@[j as int] == 13,
            s@[j as int + 1] == 10,
            val == hex_val_of(s@.subrange(pos as int, k as int)),
            forall|q: int| pos <= q < j ==> is_hex_digit_byte(#[trigger] s@[q]),
        decreases j - k,
    {
        let b = s[k];
        assert(is_hex_digit_byte(b));
        let d: usize = if b <= 57 {
            (b - 48) as usize
        } else {
            (b - 55) as usize
        };
        assert(d == hex_byte_val(s@[k as int]));
        proof {
            lemma_hex_val_step(s@, pos as int, k as int);
        }
        let shifted = match val.checked_mul(16) {
            Some(v) => v,
            None => {
                proof {
                    lemma_hex_val_grows(s@, pos as int, k as int + 1, j as int);
                    assert(hex_val_of(digits) > usize::MAX);
                    assert(suffix[h] == s@[j as int]);
                    assert(suffix[h + 1] == s@[j as int + 1]);
                    assert(suffix.len() <= usize::MAX);
                }
                return None;
            },
        };
        let nv = match shifted.checked_add(d) {
            Some(v) => v,
            None => {
                proof {
                    lemma_hex_val_grows(s@, pos as int, k as int + 1, j as int);
                    assert(hex_val_of(digits) > usize::MAX);
                    assert(suffix[h] == s@[j as int]);
                    assert(suffix[h + 1] == s@[j as int + 1]);
                    assert(suffix.len() <= usize::MAX);
                }
                return None;
            },
        };
        val = nv;
        k += 1;
    }
    assert(val == hex_val_of(digits));
    if val == 0 {
        if n - j == 4 && s[j + 2] == 13 && s[j + 3] == 10 {
            assert(suffix.len() == h + 4);
            assert(suffix[h + 2] == s@[j as int + 2]);
            assert(suffix[h + 3] == s@[j as int + 3]);
            let out: Vec<u8> = Vec::new();
            assert(out@ =~= Seq::<u8>::empty());
            return Some(out);
        }
        proof {
            if suffix.len() == h + 4 {
                assert(suffix[h + 2] == s@[j as int + 2]);
                assert(suffix[h + 3] == s@[j as int + 3]);
            }
        }
        return None;
    }
    if val > n - j || (n - j) - val < 4 {
        assert(h + 2 + val + 2 > suffix.len());
        return None;
    }
    assert(j + 2 + val <= n - 2);
    assert(suffix[h + 2 + val] == s@[j as int + 2 + val]);
    assert(suffix[h + 2 + val + 1] == s@[j as int + 3 + val]);
    if !(s[j + 2 + val] == 13 && s[j + 3 + val] == 10) {
        return None;
    }
    let mut out: Vec<u8> = Vec::new();
    let mut q = j + 2;
    assert(s@.subrange(j as int + 2, j as int + 2) =~= Seq::<u8>::empty());
    assert(out@ =~= s@.subrange(j as int + 2, j as int + 2));
    while q < j + 2 + val
        invariant
            j + 2 <= q <= j + 2 + val,
            j + 2 + val <= n,
            n == s@.len(),
            out@ =~= s@.subrange(j as int + 2, q as int),
        decreases j + 2 + val - q,
    {
        out.push(s[q]);
        q += 1;
        assert(out@ =~= s@.subrange(j as int + 2, q as int));
    }
    assert(out@ =~= suffix.subrange(h + 2, h + 2 + val));
    assert(suffix.skip(h + 4 + val) =~= s@.skip(pos as int + h + 4 + val));
    match decode_from(s, j + 4 + val) {
        Some(mut rest) => {
            let ghost restv = rest@;
            out.append(&mut rest);
            assert(out@ == suffix.subrange(h + 2, h + 2 + val) + restv);
            Some(out)
        },
        None => None,
    }
}

/// One body's worth of framed chunks, with the terminator.
pub open spec fn spec_encode_all(chunks: Seq<Seq<u8>>) -> Seq<u8> {
    chunks.map_values(|c: Seq<u8>| spec_encode_chunk(c)).flatten() + spec_chunk_terminator()
}

/// Chunked round trip: framing any sequence of non-empty chunks
/// and decoding the resulting stream reproduces exactly the
/// concatenation of the original bytes.
pub proof fn lemma_chunked_round_trip(chunks: Seq<Seq<u8>>)
    requires
        forall|i: int| 0 <= i < chunks.len() ==> (#[trigger] chunks[i]).len() > 0,
    ensures
        spec_decode_chunked(spec_encode_all(chunks)) == Some(chunks.flatten()),
    decreases chunks.len(),
{
    let t = spec_chunk_terminator();
    if chunks.len() == 0 {
        let s = spec_encode_all(chunks);
        assert(chunks.map_values(|c: Seq<u8>| spec_encode_chunk(c)) =~= Seq::<Seq<u8>>::empty());
        assert(s =~= t);
        assert(is_hex_digit_byte(s[0]));
        assert(!is_hex_digit_byte(s[1]));
        assert(hex_run_end(s, 1) == 1);
        assert(hex_run_end(s, 0) == 1);
        assert(s.take(1) =~= seq![48u8]);
        assert(seq![48u8].last() == 48u8);
        assert(seq![48u8].drop_last() =~= Seq::<u8>::empty());
        assert(hex_val_of(Seq::<u8>::empty()) == 0);
        assert(hex_val_of(seq![48u8]) == hex_byte_val(48u8));
        assert(hex_byte_val(48u8) == 0);
        assert(hex_val_of(s.take(1)) == 0);
        assert(spec_decode_chunked(s) == Some(Seq::<u8>::empty()));
        assert(chunks.flatten() =~= Seq::<u8>::empty());
    } else {
        let c0 = chunks[0];
        let enc0 = spec_encode_chunk(c0);
        let restchunks = chunks.drop_first();
        let resall = spec_encode_all(restchunks);
        let s = spec_encode_all(chunks);
        let mapped = chunks.map_values(|c: Seq<u8>| spec_encode_chunk(c));
        assert(mapped[0] == enc0);
        assert(mapped.drop_first() =~= restchunks.map_values(|c: Seq<u8>| spec_encode_chunk(c)));
        assert(mapped.flatten() == enc0 + mapped.drop_first().flatten());
        assert(s =~= enc0 + resall);
        let dl = chunk_size_bytes(c0.len()).len() as int;
        lemma_chunk_size_bytes_props(c0.len());
        let n = c0.len() as int;
        assert(enc0.len() == dl + 2 + n + 2);
        assert(resall.len() >= 5) by {
            assert(resall.len() == restchunks.map_values(
                |c: Seq<u8>| spec_encode_chunk(c),
            ).flatten().len() + 5);
            lemma_flatten_len_nonneg(restchunks.map_values(|c: Seq<u8>| spec_encode_chunk(c)));
        }
        assert forall|i: int| 0 <= i < dl implies is_hex_digit_byte(#[trigger] s[i]) by {
            assert(s[i] == enc0[i]);
            assert(enc0[i] == chunk_size_bytes(c0.len())[i]);
        }
        assert(s[dl] == enc0[dl]);
        assert(enc0[dl] == 13);
        assert(!is_hex_digit_byte(s[dl]));
        lemma_hex_run_end_stops(s, dl, 0);
        assert(hex_run_end(s, 0) == dl);
        assert(s[dl + 1] == enc0[dl + 1]);
        assert(enc0[dl + 1] == 10);
        assert(s.take(dl) =~= chunk_size_bytes(c0.len()));
        assert(hex_val_of(s.take(dl)) == c0.len());
        assert(n > 0);
        assert(dl + 2 + n + 2 <= s.len());
        assert(s[dl + 2 + n] == enc0[dl + 2 + n]);
        assert(enc0[dl + 2 + n] == 13);
        assert(s[dl + 2 + n + 1] == enc0[dl + 2 + n + 1]);
        assert(enc0[dl + 2 + n + 1] == 10);
        assert(s.subrange(dl + 2, dl + 2 + n) =~= c0) by {
            assert forall|i: int| 0 <= i < n implies s.subrange(dl + 2, dl + 2 + n)[i] == c0[i] by {
                assert(s[dl + 2 + i] == enc0[dl + 2 + i]);
                assert(enc0[dl + 2 + i] == c0[i]);
            }
        }
        assert(s.skip(dl + 4 + n) =~= resall);
        lemma_chunked_round_trip(restchunks);
        assert(spec_decode_chunked(s) == Some(c0 + restchunks.flatten()));
        assert(chunks.flatten() == c0 + restchunks.flatten());
    }
}

proof fn lemma_flatten_len_nonneg(s: Seq<Seq<u8>>)
    ensures
        s.flatten().len() >= 0,
{
}

} // verus!

//! Character and string helpers shared by the parser, the header
//! table and the serializers: ASCII case mapping, whitespace
//! scanning, and decimal rendering and parsing of integers.

use vstd::prelude::*;

verus! {

/// The whitespace characters recognised when splitting and trimming
/// protocol text.
pub open spec fn is_ws_char(c: char) -> bool {
    c == ' ' || c == '\t' || c == '\r' || c == '\n'
}

/// ASCII lower-case image of a character; everything outside `A..Z`
/// is left as it is.
pub open spec fn lower_char(c: char) -> char {
    match c {
        'A' => 'a',
        'B' => 'b',
        'C' => 'c',
        'D' => 'd',
        'E' => 'e',
        'F' => 'f',
        'G' => 'g',
        'H' => 'h',
        'I' => 'i',
        'J' => 'j',
        'K' => 'k',
        'L' => 'l',
        'M' => 'm',
        'N' => 'n',
        'O' => 'o',
        'P' => 'p',
        'Q' => 'q',
        'R' => 'r',
        'S' => 's',
        'T' => 't',
        'U' => 'u',
        'V' => 'v',
        'W' => 'w',
        'X' => 'x',
        'Y' => 'y',
        'Z' => 'z',
        _ => c,
    }
}

/// ASCII upper-case image of a character; everything outside `a..z`
/// is left as it is.
pub open spec fn upper_char(c: char) -> char {
    match c {
        'a' => 'A',
        'b' => 'B',
        'c' => 'C',
        'd' => 'D',
        'e' => 'E',
        'f' => 'F',
        'g' => 'G',
        'h' => 'H',
        'i' => 'I',
        'j' => 'J',
        'k' => 'K',
        'l' => 'L',
        'm' => 'M',
        'n' => 'N',
        'o' => 'O',
        'p' => 'P',
        'q' => 'Q',
        'r' => 'R',
        's' => 'S',
        't' => 'T',
        'u' => 'U',
        'v' => 'V',
        'w' => 'W',
        'x' => 'X',
        'y' => 'Y',
        'z' => 'Z',
        _ => c,
    }
}

pub open spec fn lower_seq(s: Seq<char>) -> Seq<char> {
    s.map_values(|c: char| lower_char(c))
}

/// The character a canonical header name holds at position `i`:
/// upper-case at the start and after each hyphen, lower-case
/// elsewhere.
pub open spec fn canon_key_at(s: Seq<char>, i: int) -> char {
    if i == 0 || s[i - 1] == '-' {
        upper_char(s[i])
    } else {
        lower_char(s[i])
    }
}

/// Case mapping is idempotent and maps no other character to or
/// from a hyphen.
pub proof fn lemma_case_char(c: char)
    ensures
        upper_char(upper_char(c)) == upper_char(c),
        lower_char(lower_char(c)) == lower_char(c),
        (upper_char(c) == '-') == (c == '-'),
        (lower_char(c) == '-') == (c == '-'),
{
}

pub fn to_lower_char(c: char) -> (r: char)
    ensures
        r == lower_char(c),
{
    match c {
        'A' => 'a',
        'B' => 'b',
        'C' => 'c',
        'D' => 'd',
        'E' => 'e',
        'F' => 'f',
        'G' => 'g',
        'H' => 'h',
        'I' => 'i',
        'J' => 'j',
        'K' => 'k',
        'L' => 'l',
        'M' => 'm',
        'N' => 'n',
        'O' => 'o',
        'P' => 'p',
        'Q' => 'q',
        'R' => 'r',
        'S' => 's',
        'T' => 't',
        'U' => 'u',
        'V' => 'v',
        'W' => 'w',
        'X' => 'x',
        'Y' => 'y',
        'Z' => 'z',
        _ => c,
    }
}

pub fn to_upper_char(c: char) -> (r: char)
    ensures
        r == upper_char(c),
{
    match c {
        'a' => 'A',
        'b' => 'B',
        'c' => 'C',
        'd' => 'D',
        'e' => 'E',
        'f' => 'F',
        'g' => 'G',
        'h' => 'H',
        'i' => 'I',
        'j' => 'J',
        'k' => 'K',
        'l' => 'L',
        'm' => 'M',
        'n' => 'N',
        'o' => 'O',
        'p' => 'P',
        'q' => 'Q',
        'r' => 'R',
        's' => 'S',
        't' => 'T',
        'u' => 'U',
        'v' => 'V',
        'w' => 'W',
        'x' => 'X',
        'y' => 'Y',
        'z' => 'Z',
        _ => c,
    }
}

/// ASCII-lower-cases a whole string, as `eq_ignore_ascii_case`
/// compares.
pub fn lower_str(s: &str) -> (r: String)
    ensures
        r@ == lower_seq(s@),
{
    let n = s.unicode_len();
    let mut out = String::new();
    let mut i: usize = 0;
    assert(out@ =~= lower_seq(s@).take(0));
    while i < n
        invariant
            n == s@.len(),
            0 <= i <= n,
            out@ =~= lower_seq(s@).take(i as int),
        decreases n - i,
    {
        push_char(&mut out, to_lower_char(s.get_char(i)));
        i += 1;
        assert(out@ =~= lower_seq(s@).take(i as int));
    }
    assert(lower_seq(s@).take(n as int) =~= lower_seq(s@));
    out
}

pub fn is_ws(c: char) -> (r: bool)
    ensures
        r == is_ws_char(c),
{
    c == ' ' || c == '\t' || c == '\r' || c == '\n'
}

/// Relies on `String::push`: appends exactly the given character.
#[verifier::external_body]
pub fn push_char(s: &mut String, c: char)
    ensures
        final(s)@ == old(s)@.push(c),
{
    s.push(c);
}

pub open spec fn is_digit_char(c: char) -> bool {
    c == '0' || c == '1' || c == '2' || c == '3' || c == '4' || c == '5' || c == '6' || c == '7'
        || c == '8' || c == '9'
}

/// Numeric value of a decimal digit character.
pub open spec fn digit_val(c: char) -> nat {
    match c {
        '0' => 0,
        '1' => 1,
        '2' => 2,
        '3' => 3,
        '4' => 4,
        '5' => 5,
        '6' => 6,
        '7' => 7,
        '8' => 8,
        '9' => 9,
        _ => 0,
    }
}

pub open spec fn all_digits(s: Seq<char>) -> bool {
    forall|i: int| 0 <= i < s.len() ==> is_digit_char(#[trigger] s[i])
}

/// The number denoted by a sequence of decimal digits (most
/// significant first).
pub open spec fn dec_val(s: Seq<char>) -> nat
    decreases s.len(),
{
    if s.len() == 0 {
        0
    } else {
        dec_val(s.drop_last()) * 10 + digit_val(s.last())
    }
}

/// Decimal digit character for a value below ten.
pub open spec fn dec_digit(d: nat) -> char {
    if d == 0 {
        '0'
    } else if d == 1 {
        '1'
    } else if d == 2 {
        '2'
    } else if d == 3 {
        '3'
    } else if d == 4 {
        '4'
    } else if d == 5 {
        '5'
    } else if d == 6 {
        '6'
    } else if d == 7 {
        '7'
    } else if d == 8 {
        '8'
    } else {
        '9'
    }
}

/// Decimal rendering of a number, without sign or padding.
pub open spec fn dec_str(n: nat) -> Seq<char>
    decreases n,
{
    if n < 10 {
        seq![dec_digit(n)]
    } else {
        dec_str(n / 10).push(dec_digit(n % 10))
    }
}

fn dec_digit_char(d: usize) -> (r: char)
    requires
        d < 10,
    ensures
        r == dec_digit(d as nat),
{
    if d == 0 {
        '0'
    } else if d == 1 {
        '1'
    } else if d == 2 {
        '2'
    } else if d == 3 {
        '3'
    } else if d == 4 {
        '4'
    } else if d == 5 {
        '5'
    } else if d == 6 {
        '6'
    } else if d == 7 {
        '7'
    } else if d == 8 {
        '8'
    } else {
        '9'
    }
}

/// Renders a number in decimal, as `Display` for unsigned integers
/// does.
pub fn usize_to_string(n: usize) -> (r: String)
    ensures
        r@ == dec_str(n as nat),
    decreases n,
{
    if n < 10 {
        let mut s = String::new();
        push_char(&mut s, dec_digit_char(n));
        assert(s@ =~= dec_str(n as nat));
        s
    } else {
        let mut s = usize_to_string(n / 10);
        push_char(&mut s, dec_digit_char(n % 10));
        assert(s@ =~= dec_str(n as nat));
        s
    }
}

fn digit_value(c: char) -> (r: usize)
    requires
        is_digit_char(c),
    ensures
        r == digit_val(c),
{
    match c {
        '0' => 0,
        '1' => 1,
        '2' => 2,
        '3' => 3,
        '4' => 4,
        '5' => 5,
        '6' => 6,
        '7' => 7,
        '8' => 8,
        _ => 9,
    }
}

fn is_digit(c: char) -> (r: bool)
    ensures
        r == is_digit_char(c),
{
    c == '0' || c == '1' || c == '2' || c == '3' || c == '4' || c == '5' || c == '6' || c == '7'
        || c == '8' || c == '9'
}

proof fn lemma_dec_val_step(s: Seq<char>, i: int)
    requires
        0 <= i < s.len(),
    ensures
        dec_val(s.take(i + 1)) == dec_val(s.take(i)) * 10 + digit_val(s[i]),
{
    assert(s.take(i + 1).drop_last() =~= s.take(i));
    assert(s.take(i + 1).last() == s[i]);
}

proof fn lemma_dec_val_grows(s: Seq<char>, i: int)
    requires
        0 <= i <= s.len(),
    ensures
        dec_val(s) >= dec_val(s.take(i)),
    decreases s.len() - i,
{
    if i == s.len() {
        assert(s.take(i) =~= s);
    } else {
        lemma_dec_val_step(s, i);
        lemma_dec_val_grows(s, i + 1);
    }
}

/// Parses a non-empty string of decimal digits, as `str::parse` does
/// for unsigned integers per the grammar this crate accepts: it
/// returns the denoted value exactly when the string is made of
/// digits alone and the value fits in `usize`.
pub fn parse_usize(s: &str) -> (r: Option<usize>)
    ensures
        r is Some <==> (s@.len() > 0 && all_digits(s@) && dec_val(s@) <= usize::MAX),
        r is Some ==> r->0 == dec_val(s@),
{
    let n = s.unicode_len();
    if n == 0 {
        return None;
    }
    let mut acc: usize = 0;
    let mut i: usize = 0;
    while i < n
        invariant
            n == s@.len(),
            0 <= i <= n,
            all_digits(s@.take(i as int)),
            acc == dec_val(s@.take(i as int)),
        decreases n - i,
    {
        let c = s.get_char(i);
        if !is_digit(c) {
            assert(!all_digits(s@));
            return None;
        }
        let d = digit_value(c);
        proof {
            lemma_dec_val_step(s@, i as int);
        }
        let shifted = match acc.checked_mul(10) {
            Some(v) => v,
            None => {
                proof {
                    lemma_dec_val_grows(s@, i as int + 1);
                }
                return None;
            },
        };
        let next = match shifted.checked_add(d) {
            Some(v) => v,
            None => {
                proof {
                    lemma_dec_val_grows(s@, i as int + 1);
                }
                return None;
            },
        };
        acc = next;
        i += 1;
        assert(all_digits(s@.take(i as int)));
    }
    assert(s@.take(n as int) =~= s@);
    Some(acc)
}

/// First index at or after `i` holding `c`, or the length when `c`
/// does not occur there.
pub open spec fn find_from(s: Seq<char>, i: int, c: char) -> int
    decreases s.len() - i,
{
    if i < 0 || i >= s.len() {
        s.len() as int
    } else if s[i] == c {
        i
    } else {
        find_from(s, i + 1, c)
    }
}

pub proof fn lemma_find_from_range(s: Seq<char>, i: int, c: char)
    requires
        0 <= i <= s.len(),
    ensures
        i <= find_from(s, i, c) <= s.len(),
        find_from(s, i, c) < s.len() ==> s[find_from(s, i, c)] == c,
        forall|j: int| i <= j < find_from(s, i, c) ==> s[j] != c,
    decreases s.len() - i,
{
    if i < s.len() && s[i] != c {
        lemma_find_from_range(s, i + 1, c);
    }
}

pub fn find_char_from(s: &str, i: usize, c: char) -> (r: usize)
    requires
        i <= s@.len(),
    ensures
        r == find_from(s@, i as int, c),
{
    let n = s.unicode_len();
    let mut j = i;
    while j < n
        invariant
            n == s@.len(),
            i <= j <= n,
            find_from(s@, i as int, c) == find_from(s@, j as int, c),
        decreases n - j,
    {
        if s.get_char(j) == c {
            return j;
        }
        j += 1;
    }
    j
}

/// Searching a suffix finds the same occurrence, shifted.
pub proof fn lemma_find_from_shift(s: Seq<char>, p: int, i: int, c: char)
    requires
        0 <= p <= i <= s.len(),
    ensures
        find_from(s.skip(p), i - p, c) == find_from(s, i, c) - p,
    decreases s.len() - i,
{
    if i < s.len() {
        assert(s.skip(p)[i - p] == s[i]);
        if s[i] != c {
            lemma_find_from_shift(s, p, i + 1, c);
        }
    }
}

/// First index at or after `i` holding a whitespace character, or
/// the length.
pub open spec fn token_end(s: Seq<char>, i: int) -> int
    decreases s.len() - i,
{
    if i < 0 || i >= s.len() {
        s.len() as int
    } else if is_ws_char(s[i]) {
        i
    } else {
        token_end(s, i + 1)
    }
}

pub proof fn lemma_token_end_range(s: Seq<char>, i: int)
    requires
        0 <= i <= s.len(),
    ensures
        i <= token_end(s, i) <= s.len(),
        token_end(s, i) < s.len() ==> is_ws_char(s[token_end(s, i)]),
        forall|j: int| i <= j < token_end(s, i) ==> !is_ws_char(s[j]),
    decreases s.len() - i,
{
    if i < s.len() && !is_ws_char(s[i]) {
        lemma_token_end_range(s, i + 1);
    }
}

pub fn token_end_from(s: &str, i: usize) -> (r: usize)
    requires
        i <= s@.len(),
    ensures
        r == token_end(s@, i as int),
{
    let n = s.unicode_len();
    let mut j = i;
    while j < n
        invariant
            n == s@.len(),
            i <= j <= n,
            token_end(s@, i as int) == token_end(s@, j as int),
        decreases n - j,
    {
        if is_ws(s.get_char(j)) {
            return j;
        }
        j += 1;
    }
    j
}

/// First index at or after `i` holding a non-whitespace character,
/// or the length.
pub open spec fn ws_skip(s: Seq<char>, i: int) -> int
    decreases s.len() - i,
{
    if i < 0 || i >= s.len() {
        s.len() as int
    } else if is_ws_char(s[i]) {
        ws_skip(s, i + 1)
    } else {
        i
    }
}

pub proof fn lemma_ws_skip_range(s: Seq<char>, i: int)
    requires
        0 <= i <= s.len(),
    ensures
        i <= ws_skip(s, i) <= s.len(),
        ws_skip(s, i) < s.len() ==> !is_ws_char(s[ws_skip(s, i)]),
        forall|j: int| i <= j < ws_skip(s, i) ==> is_ws_char(s[j]),
    decreases s.len() - i,
{
    if i < s.len() && is_ws_char(s[i]) {
        lemma_ws_skip_range(s, i + 1);
    }
}

pub fn skip_ws_from(s: &str, i: usize) -> (r: usize)
    requires
        i <= s@.len(),
    ensures
        r == ws_skip(s@, i as int),
{
    let n = s.unicode_len();
    let mut j = i;
    while j < n
        invariant
            n == s@.len(),
            i <= j <= n,
            ws_skip(s@, i as int) == ws_skip(s@, j as int),
        decreases n - j,
    {
        if !is_ws(s.get_char(j)) {
            return j;
        }
        j += 1;
    }
    j
}

pub open spec fn drop_trailing(s: Seq<char>, p: spec_fn(char) -> bool) -> Seq<char>
    decreases s.len(),
{
    if s.len() > 0 && p(s.last()) {
        drop_trailing(s.drop_last(), p)
    } else {
        s
    }
}

pub open spec fn drop_leading(s: Seq<char>, p: spec_fn(char) -> bool) -> Seq<char>
    decreases s.len(),
{
    if s.len() > 0 && p(s[0]) {
        drop_leading(s.drop_first(), p)
    } else {
        s
    }
}

/// Both ends of `s` stripped of characters satisfying `p`.
pub open spec fn trim_with(s: Seq<char>, p: spec_fn(char) -> bool) -> Seq<char> {
    drop_leading(drop_trailing(s, p), p)
}

pub proof fn lemma_drop_trailing_props(s: Seq<char>, p: spec_fn(char) -> bool)
    ensures
        drop_trailing(s, p).len() <= s.len(),
        drop_trailing(s, p) == s.take(drop_trailing(s, p).len() as int),
        drop_trailing(s, p).len() > 0 ==> !p(drop_trailing(s, p).last()),
    decreases s.len(),
{
    if s.len() > 0 && p(s.last()) {
        lemma_drop_trailing_props(s.drop_last(), p);
        assert(s.drop_last() =~= s.take(s.len() - 1));
        assert(s.drop_last().take(drop_trailing(s, p).len() as int) =~= s.take(
            drop_trailing(s, p).len() as int,
        ));
    } else {
        assert(s =~= s.take(s.len() as int));
    }
}

pub proof fn lemma_drop_leading_props(s: Seq<char>, p: spec_fn(char) -> bool)
    ensures
        drop_leading(s, p).len() <= s.len(),
        drop_leading(s, p) == s.skip(s.len() - drop_leading(s, p).len()),
        drop_leading(s, p).len() > 0 ==> !p(drop_leading(s, p)[0]),
        drop_leading(s, p).len() > 0 ==> drop_leading(s, p).last() == s.last(),
    decreases s.len(),
{
    if s.len() > 0 && p(s[0]) {
        lemma_drop_leading_props(s.drop_first(), p);
        assert(s.drop_first() =~= s.skip(1));
        assert(s.skip(1).skip(s.len() - 1 - drop_leading(s, p).len()) =~= s.skip(
            s.len() - drop_leading(s, p).len(),
        ));
    } else {
        assert(s =~= s.skip(0));
    }
}

/// A trimmed string neither starts nor ends with a stripped
/// character, and trimming strips nothing else.
pub proof fn lemma_trim_with_props(s: Seq<char>, p: spec_fn(char) -> bool)
    ensures
        trim_with(s, p).len() <= s.len(),
        trim_with(s, p).len() > 0 ==> !p(trim_with(s, p)[0]),
        trim_with(s, p).len() > 0 ==> !p(trim_with(s, p).last()),
{
    lemma_drop_trailing_props(s, p);
    lemma_drop_leading_props(drop_trailing(s, p), p);
}

/// The whitespace predicate as a value, for use with the trimming
/// functions.
pub open spec fn ws_pred() -> spec_fn(char) -> bool {
    |c: char| is_ws_char(c)
}

/// The predicate holding exactly on `c`, for use with the trimming
/// functions.
pub open spec fn char_pred(c: char) -> spec_fn(char) -> bool {
    |k: char| k == c
}

/// Selects the predicate the shared trimming loop works with.
pub open spec fn sel_pred(use_ws: bool, c: char) -> spec_fn(char) -> bool {
    if use_ws {
        ws_pred()
    } else {
        char_pred(c)
    }
}

fn trim_str_sel(s: &str, use_ws: bool, c: char) -> (r: String)
    ensures
        r@ == trim_with(s@, sel_pred(use_ws, c)),
{
    let ghost p = sel_pred(use_ws, c);
    let n = s.unicode_len();
    let mut hi = n;
    assert(s@.take(n as int) =~= s@);
    loop
        invariant
            p == sel_pred(use_ws, c),
            n == s@.len(),
            0 <= hi <= n,
            drop_trailing(s@, p) == drop_trailing(s@.take(hi as int), p),
        ensures
            0 <= hi <= n,
            drop_trailing(s@, p) == s@.take(hi as int),
        decreases hi,
    {
        if hi == 0 {
            assert(s@.take(0) =~= Seq::<char>::empty());
            break;
        }
        let ch = s.get_char(hi - 1);
        let hit = if use_ws {
            is_ws(ch)
        } else {
            ch == c
        };
        proof {
            if use_ws {
                assert(p == ws_pred());
                assert(ws_pred()(ch) == is_ws_char(ch));
            } else {
                assert(p == char_pred(c));
                assert(char_pred(c)(ch) == (ch == c));
            }
        }
        assert(hit == p(s@[hi - 1]));
        assert(s@.take(hi as int).last() == s@[hi - 1]);
        if !hit {
            break;
        }
        assert(s@.take(hi as int).drop_last() =~= s@.take(hi - 1));
        hi -= 1;
    }
    let mut lo: usize = 0;
    loop
        invariant
            p == sel_pred(use_ws, c),
            n == s@.len(),
            0 <= lo <= hi <= n,
            drop_trailing(s@, p) == s@.take(hi as int),
            drop_leading(s@.take(hi as int), p) == drop_leading(
                s@.subrange(lo as int, hi as int),
                p,
            ),
        ensures
            0 <= lo <= hi <= n,
            drop_trailing(s@, p) == s@.take(hi as int),
            trim_with(s@, p) == s@.subrange(lo as int, hi as int),
        decreases hi - lo,
    {
        if lo == hi {
            assert(s@.subrange(lo as int, hi as int) =~= Seq::<char>::empty());
            break;
        }
        let ch = s.get_char(lo);
        let hit = if use_ws {
            is_ws(ch)
        } else {
            ch == c
        };
        proof {
            if use_ws {
                assert(p == ws_pred());
                assert(ws_pred()(ch) == is_ws_char(ch));
            } else {
                assert(p == char_pred(c));
                assert(char_pred(c)(ch) == (ch == c));
            }
        }
        assert(hit == p(s@[lo as int]));
        assert(s@.subrange(lo as int, hi as int)[0] == s@[lo as int]);
        if !hit {
            break;
        }
        assert(s@.subrange(lo as int, hi as int).drop_first() =~= s@.subrange(
            lo as int + 1,
            hi as int,
        ));
        lo += 1;
    }
    let sub = s.substring_char(lo, hi);
    assert(sub@ =~= s@.subrange(lo as int, hi as int));
    sub.to_owned()
}

/// Strips leading and trailing whitespace, as `str::trim` does on
/// the text this crate handles.
pub fn trim_ws_str(s: &str) -> (r: String)
    ensures
        r@ == trim_with(s@, ws_pred()),
{
    trim_str_sel(s, true, ' ')
}

/// Strips leading and trailing copies of one character, as
/// `str::trim_matches` does.
pub fn trim_char_str(s: &str, c: char) -> (r: String)
    ensures
        r@ == trim_with(s@, char_pred(c)),
{
    trim_str_sel(s, false, c)
}

/// Character-wise string equality.
pub fn str_eq(a: &str, b: &str) -> (r: bool)
    ensures
        r == (a@ == b@),
{
    let an = a.unicode_len();
    let bn = b.unicode_len();
    if an != bn {
        assert(a@ != b@);
        return false;
    }
    let mut i: usize = 0;
    while i < an
        invariant
            an == a@.len(),
            an == b@.len(),
            0 <= i <= an,
            forall|j: int| 0 <= j < i ==> a@[j] == b@[j],
        decreases an - i,
    {
        if a.get_char(i) != b.get_char(i) {
            assert(a@ != b@);
            return false;
        }
        i += 1;
    }
    assert(a@ =~= b@);
    true
}

} // verus!

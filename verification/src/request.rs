//! Request parsing: the request line, the header block, and the
//! line-fed parser state machine the connection loop drives.  The
//! machine consumes one wire line at a time (each given with the
//! byte count the transport read for it, terminators included) and
//! stops at the first empty header line or the first fault.

use vstd::prelude::*;

use crate::extensions::Extensions;
use crate::headers::{canon_key, spec_append, Headers};
use crate::text::{
    all_digits, char_pred, dec_val, find_from, lower_seq, token_end, trim_with, ws_pred, ws_skip,
};

verus! {

/// A fully parsed request head.  The body is not here: it is read
/// separately, through a `BodyReader` handed along with the request.
pub struct Request {
    pub method: String,
    pub path: String,
    pub headers: Headers,
    pub extensions: Extensions,
}

impl Request {
    /// The declared `Content-Length`, as the parser recorded it in
    /// the side channel.
    pub fn content_len(&self) -> (r: Option<usize>)
        ensures
            r == self.extensions@,
    {
        self.extensions.get()
    }
}

/// Why receiving a request failed.
#[derive(Debug)]
pub enum RequestError {
    /// The transport failed; the payload is the reported reason.
    Read(String),
    /// The peer closed the connection before sending anything.
    ConnectionClosed,
    InvalidRequestLine(String),
    UnsupportedHttpVersion(String),
    InvalidHeader(String),
    InvalidContentLength(String),
}

/// Spec-level image of a `RequestError`.
pub enum ErrorView {
    Read(Seq<char>),
    ConnectionClosed,
    InvalidRequestLine(Seq<char>),
    UnsupportedHttpVersion(Seq<char>),
    InvalidHeader(Seq<char>),
    InvalidContentLength(Seq<char>),
}

impl View for RequestError {
    type V = ErrorView;

    open spec fn view(&self) -> ErrorView {
        match self {
            RequestError::Read(s) => ErrorView::Read(s@),
            RequestError::ConnectionClosed => ErrorView::ConnectionClosed,
            RequestError::InvalidRequestLine(s) => ErrorView::InvalidRequestLine(s@),
            RequestError::UnsupportedHttpVersion(s) => ErrorView::UnsupportedHttpVersion(s@),
            RequestError::InvalidHeader(s) => ErrorView::InvalidHeader(s@),
            RequestError::InvalidContentLength(s) => ErrorView::InvalidContentLength(s@),
        }
    }
}

impl RequestError {
    /// The human-readable description of the failure.
    pub open spec fn spec_message(self) -> Seq<char> {
        match self@ {
            ErrorView::Read(s) => "could not read from TcpStream: "@ + s,
            ErrorView::ConnectionClosed => "Tcp client closed connection"@,
            ErrorView::InvalidRequestLine(s) => "invalid request line: \""@ + s + "\""@,
            ErrorView::UnsupportedHttpVersion(s) => "unsupported http version: \""@ + s + "\""@,
            ErrorView::InvalidHeader(s) => "invalid header: \""@ + s + "\""@,
            ErrorView::InvalidContentLength(s) => "invalid content length header: \""@ + s
                + "\""@,
        }
    }

    pub fn message(&self) -> (r: String)
        ensures
            r@ == self.spec_message(),
    {
        match self {
            RequestError::Read(s) => {
                let mut out = "could not read from TcpStream: ".to_owned();
                out.append(s.as_str());
                out
            },
            RequestError::ConnectionClosed => "Tcp client closed connection".to_owned(),
            RequestError::InvalidRequestLine(s) => {
                let mut out = "invalid request line: \"".to_owned();
                out.append(s.as_str());
                out.append("\"");
                out
            },
            RequestError::UnsupportedHttpVersion(s) => {
                let mut out = "unsupported http version: \"".to_owned();
                out.append(s.as_str());
                out.append("\"");
                out
            },
            RequestError::InvalidHeader(s) => {
                let mut out = "invalid header: \"".to_owned();
                out.append(s.as_str());
                out.append("\"");
                out
            },
            RequestError::InvalidContentLength(s) => {
                let mut out = "invalid content length header: \"".to_owned();
                out.append(s.as_str());
                out.append("\"");
                out
            },
        }
    }
}

/// The first three whitespace-separated tokens of a request line,
/// when it has at least three.
pub open spec fn spec_request_line_tokens(s: Seq<char>) -> Option<(Seq<char>, Seq<char>, Seq<
    char,
>)> {
    let a0 = ws_skip(s, 0);
    let a1 = token_end(s, a0);
    let b0 = ws_skip(s, a1);
    let b1 = token_end(s, b0);
    let c0 = ws_skip(s, b1);
    let c1 = token_end(s, c0);
    if a0 < a1 && b0 < b1 && c0 < c1 {
        Some((s.subrange(a0, a1), s.subrange(b0, b1), s.subrange(c0, c1)))
    } else {
        None
    }
}

/// A request target normalized to a path: the query (after the
/// first `?`) discarded, surrounding slashes trimmed, one leading
/// slash restored.
pub open spec fn spec_normalize_path(target: Seq<char>) -> Seq<char> {
    seq!['/'] + trim_with(target.take(find_from(target, 0, '?')), char_pred('/'))
}

/// Normalizes a request target.  The result always starts with `/`,
/// never ends with one unless it is exactly the root path, and does
/// not depend on the query component.
pub fn normalize_path(target: &str) -> (r: String)
    ensures
        r@ == spec_normalize_path(target@),
        r@.len() >= 1 && r@[0] == '/',
        r@.len() > 1 ==> r@.last() != '/',
{
    let q = crate::text::find_char_from(target, 0, '?');
    proof {
        crate::text::lemma_find_from_range(target@, 0, '?');
    }
    let base = target.substring_char(0, q);
    assert(base@ =~= target@.take(q as int));
    let stem = crate::text::trim_char_str(base, '/');
    let mut out = String::new();
    crate::text::push_char(&mut out, '/');
    out.append(stem.as_str());
    assert(out@ =~= spec_normalize_path(target@));
    proof {
        crate::text::lemma_trim_with_props(base@, char_pred('/'));
        let t = trim_with(base@, char_pred('/'));
        if t.len() > 0 {
            assert(char_pred('/')(t.last()) == (t.last() == '/'));
            assert(out@.last() == t.last());
        }
    }
    out
}

/// How a request header line splits at its first `": "`: key and
/// value with surrounding whitespace stripped, or nothing when the
/// exact colon+space separator is absent — such a line is a parse
/// error.
pub open spec fn spec_header_split(line: Seq<char>) -> Option<(Seq<char>, Seq<char>)> {
    let i = crate::headers::find_sep(line, 0);
    if i < line.len() {
        Some((trim_with(line.take(i), ws_pred()), trim_with(line.skip(i + 2), ws_pred())))
    } else {
        None
    }
}

/// Whether a header key names `Content-Length`, under any casing.
pub open spec fn is_content_length_key(k: Seq<char>) -> bool {
    lower_seq(k) == "content-length"@
}

/// Whether a `Content-Length` value is a plain decimal number that
/// fits the machine.
pub open spec fn valid_content_length(v: Seq<char>) -> bool {
    v.len() > 0 && all_digits(v) && dec_val(v) <= usize::MAX
}

/// Spec-level image of the parser state.
pub enum ParserView {
    Start,
    InHeaders {
        method: Seq<char>,
        path: Seq<char>,
        headers: Seq<(Seq<char>, Seq<Seq<char>>)>,
        content_length: Option<usize>,
    },
    Complete {
        method: Seq<char>,
        path: Seq<char>,
        headers: Seq<(Seq<char>, Seq<Seq<char>>)>,
        content_length: Option<usize>,
    },
    Failed { error: ErrorView },
}

/// One parser transition: what feeding a wire line (with the byte
/// count its read returned) does to the state.  Terminal states
/// absorb further lines.
pub open spec fn spec_step(v: ParserView, len: int, line: Seq<char>) -> ParserView {
    match v {
        ParserView::Start => {
            if len == 0 {
                ParserView::Failed { error: ErrorView::ConnectionClosed }
            } else {
                match spec_request_line_tokens(line) {
                    None => ParserView::Failed { error: ErrorView::InvalidRequestLine(line) },
                    Some(tok) => {
                        if tok.2 == "HTTP/1.1"@ {
                            ParserView::InHeaders {
                                method: tok.0,
                                path: spec_normalize_path(tok.1),
                                headers: Seq::empty(),
                                content_length: None,
                            }
                        } else {
                            ParserView::Failed {
                                error: ErrorView::UnsupportedHttpVersion(tok.2),
                            }
                        }
                    },
                }
            }
        },
        ParserView::InHeaders { method, path, headers, content_length } => {
            if len <= 2 {
                ParserView::Complete { method, path, headers, content_length }
            } else {
                match spec_header_split(line) {
                    None => ParserView::Failed { error: ErrorView::InvalidHeader(line) },
                    Some(kv) => {
                        if is_content_length_key(kv.0) {
                            if valid_content_length(kv.1) {
                                ParserView::InHeaders {
                                    method,
                                    path,
                                    headers: spec_append(headers, canon_key(kv.0), kv.1),
                                    content_length: Some(dec_val(kv.1) as usize),
                                }
                            } else {
                                ParserView::Failed {
                                    error: ErrorView::InvalidContentLength(kv.1),
                                }
                            }
                        } else {
                            ParserView::InHeaders {
                                method,
                                path,
                                headers: spec_append(headers, canon_key(kv.0), kv.1),
                                content_length,
                            }
                        }
                    },
                }
            }
        },
        ParserView::Complete { .. } => v,
        ParserView::Failed { .. } => v,
    }
}

enum ParserState {
    Start,
    InHeaders(Request),
    Complete(Request),
    Failed(RequestError),
}

/// A line-fed request parser.  The connection loop reads one line
/// at a time and feeds it here until `done`.
pub struct RequestParser {
    state: ParserState,
}

impl View for RequestParser {
    type V = ParserView;

    closed spec fn view(&self) -> ParserView {
        match self.state {
            ParserState::Start => ParserView::Start,
            ParserState::InHeaders(req) => ParserView::InHeaders {
                method: req.method@,
                path: req.path@,
                headers: req.headers@,
                content_length: req.extensions@,
            },
            ParserState::Complete(req) => ParserView::Complete {
                method: req.method@,
                path: req.path@,
                headers: req.headers@,
                content_length: req.extensions@,
            },
            ParserState::Failed(err) => ParserView::Failed { error: err@ },
        }
    }
}

impl RequestParser {
    /// The header table under construction is well formed.
    pub closed spec fn wf(&self) -> bool {
        match self.state {
            ParserState::InHeaders(req) => req.headers.wf(),
            ParserState::Complete(req) => req.headers.wf(),
            _ => true,
        }
    }

    pub fn new() -> (r: RequestParser)
        ensures
            r@ == ParserView::Start,
            r.wf(),
    {
        RequestParser { state: ParserState::Start }
    }

    /// Whether the parser needs no further lines.
    pub fn done(&self) -> (r: bool)
        ensures
            r == (self@ is Complete || self@ is Failed),
    {
        match &self.state {
            ParserState::Complete(_) => true,
            ParserState::Failed(_) => true,
            _ => false,
        }
    }

    /// Feeds one wire line, already stripped of its terminators,
    /// together with the byte count its read returned (zero means
    /// the peer closed the connection).
    pub fn feed_line(&mut self, len: usize, line: &str)
        requires
            old(self).wf(),
        ensures
            final(self).wf(),
            final(self)@ == spec_step(old(self)@, len as int, line@),
    {
        let mut st = ParserState::Start;
        core::mem::swap(&mut st, &mut self.state);
        match st {
            ParserState::Start => {
                if len == 0 {
                    self.state = ParserState::Failed(RequestError::ConnectionClosed);
                    return;
                }
                let n = line.unicode_len();
                proof {
                    crate::text::lemma_ws_skip_range(line@, 0);
                }
                let a0 = crate::text::skip_ws_from(line, 0);
                proof {
                    crate::text::lemma_token_end_range(line@, a0 as int);
                }
                let a1 = crate::text::token_end_from(line, a0);
                proof {
                    crate::text::lemma_ws_skip_range(line@, a1 as int);
                }
                let b0 = crate::text::skip_ws_from(line, a1);
                proof {
                    crate::text::lemma_token_end_range(line@, b0 as int);
                }
                let b1 = crate::text::token_end_from(line, b0);
                proof {
                    crate::text::lemma_ws_skip_range(line@, b1 as int);
                }
                let c0 = crate::text::skip_ws_from(line, b1);
                proof {
                    crate::text::lemma_token_end_range(line@, c0 as int);
                }
                let c1 = crate::text::token_end_from(line, c0);
                if a0 >= a1 || b0 >= b1 || c0 >= c1 {
                    self.state = ParserState::Failed(
                        RequestError::InvalidRequestLine(line.to_owned()),
                    );
                    return;
                }
                let version = line.substring_char(c0, c1);
                assert(version@ =~= line@.subrange(c0 as int, c1 as int));
                if !crate::text::str_eq(version, "HTTP/1.1") {
                    self.state = ParserState::Failed(
                        RequestError::UnsupportedHttpVersion(version.to_owned()),
                    );
                    return;
                }
                let target = line.substring_char(b0, b1);
                assert(target@ =~= line@.subrange(b0 as int, b1 as int));
                let method = line.substring_char(a0, a1).to_owned();
                assert(method@ =~= line@.subrange(a0 as int, a1 as int));
                let path = normalize_path(target);
                let req = Request {
                    method,
                    path,
                    headers: Headers::new(),
                    extensions: Extensions::new(),
                };
                self.state = ParserState::InHeaders(req);
            },
            ParserState::InHeaders(mut req) => {
                if len <= 2 {
                    self.state = ParserState::Complete(req);
                    return;
                }
                let n = line.unicode_len();
                let mut sep: usize = 0;
                loop
                    invariant
                        n == line@.len(),
                        0 <= sep <= n,
                        crate::headers::find_sep(line@, 0) == crate::headers::find_sep(
                            line@,
                            sep as int,
                        ),
                    ensures
                        crate::headers::find_sep(line@, 0) == if sep < n {
                            sep as int
                        } else {
                            n as int
                        },
                        sep <= n,
                    decreases n - sep,
                {
                    if n - sep <= 1 {
                        sep = n;
                        break;
                    }
                    if line.get_char(sep) == ':' && line.get_char(sep + 1) == ' ' {
                        break;
                    }
                    sep += 1;
                }
                if sep >= n {
                    self.state = ParserState::Failed(
                        RequestError::InvalidHeader(line.to_owned()),
                    );
                    return;
                }
                proof {
                    crate::headers::lemma_find_sep_props(line@, 0);
                }
                let rawk = line.substring_char(0, sep);
                assert(rawk@ =~= line@.take(sep as int));
                let rawv = line.substring_char(sep + 2, n);
                assert(rawv@ =~= line@.skip(sep as int + 2));
                let key = crate::text::trim_ws_str(rawk);
                let value = crate::text::trim_ws_str(rawv);
                let lower = crate::text::lower_str(key.as_str());
                if crate::text::str_eq(lower.as_str(), "content-length") {
                    match crate::text::parse_usize(value.as_str()) {
                        Some(cl) => {
                            req.headers.append(key.as_str(), value.as_str());
                            req.extensions.insert(cl);
                            self.state = ParserState::InHeaders(req);
                        },
                        None => {
                            self.state = ParserState::Failed(
                                RequestError::InvalidContentLength(value),
                            );
                        },
                    }
                } else {
                    req.headers.append(key.as_str(), value.as_str());
                    self.state = ParserState::InHeaders(req);
                }
            },
            ParserState::Complete(req) => {
                self.state = ParserState::Complete(req);
            },
            ParserState::Failed(err) => {
                self.state = ParserState::Failed(err);
            },
        }
    }

    /// Hands out the parsed request or the failure.
    pub fn finish(self) -> (r: Result<Request, RequestError>)
        requires
            self@ is Complete || self@ is Failed,
            self.wf(),
        ensures
            match self@ {
                ParserView::Complete { method, path, headers, content_length } => r
                    matches Ok(req) && req.method@ == method && req.path@ == path
                    && req.headers@ == headers && req.extensions@ == content_length
                    && req.headers.wf(),
                ParserView::Failed { error } => r matches Err(e) && e@ == error,
                _ => false,
            },
    {
        match self.state {
            ParserState::Complete(req) => Ok(req),
            ParserState::Failed(err) => Err(err),
            ParserState::Start => Err(RequestError::ConnectionClosed),
            ParserState::InHeaders(_) => Err(RequestError::ConnectionClosed),
        }
    }
}

/// The state after feeding a whole sequence of lines.
pub open spec fn spec_run(v: ParserView, lines: Seq<(int, Seq<char>)>) -> ParserView
    decreases lines.len(),
{
    if lines.len() == 0 {
        v
    } else {
        spec_run(spec_step(v, lines[0].0, lines[0].1), lines.drop_first())
    }
}

pub open spec fn spec_terminal(v: ParserView) -> bool {
    v is Complete || v is Failed
}

/// How many of the offered lines the parser feeds on before it is
/// terminal.
pub open spec fn spec_consumed(v: ParserView, lines: Seq<(int, Seq<char>)>) -> int
    decreases lines.len(),
{
    if spec_terminal(v) || lines.len() == 0 {
        0
    } else {
        1 + spec_consumed(spec_step(v, lines[0].0, lines[0].1), lines.drop_first())
    }
}

proof fn lemma_headers_consume(lines: Seq<(int, Seq<char>)>, j: int, k: int, st: ParserView)
    requires
        st is InHeaders,
        0 <= j <= k < lines.len(),
        forall|i: int| j <= i < k ==> (#[trigger] lines[i]).0 > 2,
        forall|i: int| j <= i < k ==> spec_header_split((#[trigger] lines[i]).1) is Some,
        forall|i: int|
            j <= i < k ==> (is_content_length_key(
                spec_header_split((#[trigger] lines[i]).1).unwrap().0,
            ) ==> valid_content_length(spec_header_split(lines[i].1).unwrap().1)),
        lines[k].0 <= 2,
    ensures
        spec_consumed(st, lines.skip(j)) == k - j + 1,
        spec_run(st, lines.skip(j).take(k - j + 1)) is Complete,
    decreases k - j,
{
    let suffix = lines.skip(j);
    assert(suffix[0] == lines[j]);
    let st2 = spec_step(st, lines[j].0, lines[j].1);
    if j == k {
        assert(st2 is Complete);
        assert(spec_consumed(st, suffix) == 1 + spec_consumed(st2, suffix.drop_first()));
        assert(spec_consumed(st2, suffix.drop_first()) == 0);
        let one = suffix.take(1);
        assert(one[0] == lines[j]);
        assert(one.drop_first() =~= Seq::<(int, Seq<char>)>::empty());
        assert(one.len() == 1);
        assert(spec_run(st, one) == spec_run(spec_step(st, one[0].0, one[0].1), one.drop_first()));
        assert(spec_step(st, one[0].0, one[0].1) == st2);
        assert(spec_run(st2, one.drop_first()) == st2);
        assert(spec_run(st, one) == st2);
    } else {
        assert(lines[j].0 > 2);
        assert(spec_header_split(lines[j].1) is Some);
        assert(st2 is InHeaders);
        lemma_headers_consume(lines, j + 1, k, st2);
        assert(suffix.drop_first() =~= lines.skip(j + 1));
        assert(spec_consumed(st, suffix) == 1 + spec_consumed(st2, lines.skip(j + 1)));
        let w = suffix.take(k - j + 1);
        assert(w[0] == lines[j]);
        assert(w.drop_first() =~= lines.skip(j + 1).take(k - j));
        assert(spec_run(st, w) == spec_run(st2, lines.skip(j + 1).take(k - (j + 1) + 1)));
    }
}

/// A request whose header block ends with an empty line is consumed
/// exactly through that line: the parser completes on it and asks
/// for nothing further, so the transport stands at the first body
/// byte.
pub proof fn lemma_parser_stops_at_empty_line(lines: Seq<(int, Seq<char>)>, k: int)
    requires
        1 <= k < lines.len(),
        lines[0].0 > 0,
        spec_request_line_tokens(lines[0].1) is Some,
        spec_request_line_tokens(lines[0].1).unwrap().2 == "HTTP/1.1"@,
        forall|i: int| 1 <= i < k ==> (#[trigger] lines[i]).0 > 2,
        forall|i: int| 1 <= i < k ==> spec_header_split((#[trigger] lines[i]).1) is Some,
        forall|i: int|
            1 <= i < k ==> (is_content_length_key(
                spec_header_split((#[trigger] lines[i]).1).unwrap().0,
            ) ==> valid_content_length(spec_header_split(lines[i].1).unwrap().1)),
        lines[k].0 <= 2,
    ensures
        spec_consumed(ParserView::Start, lines) == k + 1,
        spec_run(ParserView::Start, lines.take(k + 1)) is Complete,
{
    let st1 = spec_step(ParserView::Start, lines[0].0, lines[0].1);
    assert(st1 is InHeaders);
    lemma_headers_consume(lines, 1, k, st1);
    assert(lines.drop_first() =~= lines.skip(1));
    assert(spec_consumed(ParserView::Start, lines) == 1 + spec_consumed(st1, lines.skip(1)));
    let w = lines.take(k + 1);
    assert(w[0] == lines[0]);
    assert(w.drop_first() =~= lines.skip(1).take(k));
    assert(spec_run(ParserView::Start, w) == spec_run(st1, lines.skip(1).take(k - 1 + 1)));
}

} // verus!

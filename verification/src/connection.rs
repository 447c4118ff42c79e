//! The keep-alive engine's decisions.  The transport loop reads,
//! waits and writes; every choice it makes — which status a parse
//! fault maps to, how the `Connection` and `Keep-Alive` headers are
//! normalized, what the default error and timeout responses say,
//! and when the connection closes — is taken here.

use vstd::prelude::*;

use crate::headers::{assoc_get, canon_key, spec_insert, spec_remove, Headers};
use crate::request::{ErrorView, RequestError};
use crate::response::{Body, Response};
use crate::status::StatusCode;
use crate::text::{dec_str, lower_seq};

verus! {

/// Per-connection configuration: how long one request may take to
/// arrive and how many requests one connection may carry.
pub struct Connection {
    pub keep_alive_timeout: usize,
    pub keep_alive_max: usize,
}

/// The status a receive fault maps to: bad syntax is the client's
/// fault, an unsupported version has its own status, and anything
/// else is the server's.
pub open spec fn spec_error_status(e: ErrorView) -> StatusCode {
    match e {
        ErrorView::InvalidHeader(_) => StatusCode::BadRequest,
        ErrorView::InvalidContentLength(_) => StatusCode::BadRequest,
        ErrorView::UnsupportedHttpVersion(_) => StatusCode::HTTPVersionNotSupported,
        _ => StatusCode::InternalServerError,
    }
}

/// The advertised `Keep-Alive` header value.
pub open spec fn spec_keep_alive_value(t: int, m: int) -> Seq<char> {
    "timeout="@ + dec_str(t as nat) + ", max="@ + dec_str(m as nat)
}

/// The response headers after keep-alive normalization: a response
/// that chose its own `Connection` header is left alone; otherwise
/// the request's wish (default `keep-alive`) decides whether the
/// connection is marked closed or advertised as kept alive.
pub open spec fn spec_normalized_headers(
    req: Seq<(Seq<char>, Seq<Seq<char>>)>,
    res: Seq<(Seq<char>, Seq<Seq<char>>)>,
    t: int,
    m: int,
) -> Seq<(Seq<char>, Seq<Seq<char>>)> {
    if assoc_get(res, canon_key("Connection"@)) is Some {
        res
    } else {
        let conn = match assoc_get(req, canon_key("Connection"@)) {
            Some(vs) => vs[0],
            None => "keep-alive"@,
        };
        if lower_seq(conn) == "close"@ {
            spec_remove(
                spec_insert(res, canon_key("Connection"@), seq!["close"@]),
                canon_key("Keep-Alive"@),
            )
        } else {
            spec_insert(
                spec_insert(res, canon_key("Connection"@), seq!["keep-alive"@]),
                canon_key("Keep-Alive"@),
                seq![spec_keep_alive_value(t, m)],
            )
        }
    }
}

/// Whether the loop closes after a response: the request budget is
/// spent, or the response carries no `Keep-Alive` header.
pub open spec fn spec_should_close(
    handled: int,
    max: int,
    res: Seq<(Seq<char>, Seq<Seq<char>>)>,
) -> bool {
    handled >= max || assoc_get(res, canon_key("Keep-Alive"@)) is None
}

impl Connection {
    /// Defaults: five-second idle timeout, two hundred requests per
    /// connection.
    pub fn new() -> (r: Connection)
        ensures
            r.keep_alive_timeout == 5,
            r.keep_alive_max == 200,
    {
        Connection { keep_alive_timeout: 5, keep_alive_max: 200 }
    }

    /// Sets the keep-alive timeout in seconds.
    pub fn keep_alive_timeout(self, timeout: usize) -> (r: Connection)
        ensures
            r.keep_alive_timeout == timeout,
            r.keep_alive_max == self.keep_alive_max,
    {
        Connection { keep_alive_timeout: timeout, ..self }
    }

    /// Sets the maximum number of requests served on one
    /// connection.
    pub fn keep_alive_max(self, max: usize) -> (r: Connection)
        ensures
            r.keep_alive_max == max,
            r.keep_alive_timeout == self.keep_alive_timeout,
    {
        Connection { keep_alive_max: max, ..self }
    }

    /// Normalizes the `Connection` / `Keep-Alive` headers of a
    /// response about to be sent.
    pub fn apply_keep_alive_headers(&self, req_headers: &Headers, res: &mut Response)
        requires
            req_headers.wf(),
            old(res).wf(),
        ensures
            final(res).wf(),
            final(res).headers@ == spec_normalized_headers(
                req_headers@,
                old(res).headers@,
                self.keep_alive_timeout as int,
                self.keep_alive_max as int,
            ),
            final(res).status == old(res).status,
            final(res).body == old(res).body,
            final(res).extensions@ == old(res).extensions@,
    {
        if !res.headers.contains_key("Connection") {
            let conn: String = match req_headers.get("Connection") {
                Some(v) => v.clone(),
                None => "keep-alive".to_owned(),
            };
            let lower = crate::text::lower_str(conn.as_str());
            if crate::text::str_eq(lower.as_str(), "close") {
                res.headers.insert("Connection", "close");
                res.headers.remove("Keep-Alive");
            } else {
                res.headers.insert("Connection", "keep-alive");
                let mut ka = "timeout=".to_owned();
                ka.append(crate::text::usize_to_string(self.keep_alive_timeout).as_str());
                ka.append(", max=");
                ka.append(crate::text::usize_to_string(self.keep_alive_max).as_str());
                assert(ka@ =~= spec_keep_alive_value(
                    self.keep_alive_timeout as int,
                    self.keep_alive_max as int,
                ));
                res.headers.insert("Keep-Alive", ka.as_str());
            }
        }
    }

    /// The close decision after a response went out.
    pub fn should_close(&self, handled_req_count: usize, res: &Response) -> (r: bool)
        requires
            res.wf(),
        ensures
            r == spec_should_close(
                handled_req_count as int,
                self.keep_alive_max as int,
                res.headers@,
            ),
    {
        if handled_req_count >= self.keep_alive_max {
            true
        } else {
            !res.headers.contains_key("Keep-Alive")
        }
    }
}

/// When the client asked to close and the handler set no
/// `Connection` header of its own, normalization leaves no
/// `Keep-Alive` header behind, so the engine closes the connection
/// whatever the request count.
pub proof fn lemma_close_wish_closes(
    req: Seq<(Seq<char>, Seq<Seq<char>>)>,
    res: Seq<(Seq<char>, Seq<Seq<char>>)>,
    t: int,
    m: int,
    handled: int,
)
    requires
        forall|i: int| 0 <= i < res.len() ==> (#[trigger] res[i].0) == canon_key(res[i].0),
        forall|i: int, j: int| 0 <= i < j < res.len() ==> res[i].0 != res[j].0,
        forall|i: int| 0 <= i < res.len() ==> (#[trigger] res[i].1).len() > 0,
        assoc_get(res, canon_key("Connection"@)) is None,
        lower_seq(
            match assoc_get(req, canon_key("Connection"@)) {
                Some(vs) => vs[0],
                None => "keep-alive"@,
            },
        ) == "close"@,
    ensures
        assoc_get(
            spec_normalized_headers(req, res, t, m),
            canon_key("Keep-Alive"@),
        ) is None,
        spec_should_close(handled, m, spec_normalized_headers(req, res, t, m)),
{
    let inserted = spec_insert(res, canon_key("Connection"@), seq!["close"@]);
    crate::headers::lemma_canon_idempotent("Connection"@);
    crate::headers::lemma_insert_wf(res, canon_key("Connection"@), seq!["close"@]);
    crate::headers::lemma_get_remove(inserted, canon_key("Keep-Alive"@));
}

/// When neither side asked to close, normalization advertises
/// `Keep-Alive`, so the engine keeps the connection while the
/// request budget lasts.
pub proof fn lemma_keep_alive_wish_continues(
    req: Seq<(Seq<char>, Seq<Seq<char>>)>,
    res: Seq<(Seq<char>, Seq<Seq<char>>)>,
    t: int,
    m: int,
    handled: int,
)
    requires
        assoc_get(res, canon_key("Connection"@)) is None,
        lower_seq(
            match assoc_get(req, canon_key("Connection"@)) {
                Some(vs) => vs[0],
                None => "keep-alive"@,
            },
        ) != "close"@,
        handled < m,
    ensures
        assoc_get(spec_normalized_headers(req, res, t, m), canon_key("Keep-Alive"@)) == Some(
            seq![spec_keep_alive_value(t, m)],
        ),
        !spec_should_close(handled, m, spec_normalized_headers(req, res, t, m)),
{
    let inserted = spec_insert(res, canon_key("Connection"@), seq!["keep-alive"@]);
    crate::headers::lemma_get_insert(
        inserted,
        canon_key("Keep-Alive"@),
        seq![spec_keep_alive_value(t, m)],
    );
}

/// The status a receive fault maps to.
pub fn error_status(err: &RequestError) -> (r: StatusCode)
    ensures
        r == spec_error_status(err@),
{
    match err {
        RequestError::InvalidHeader(_) => StatusCode::BadRequest,
        RequestError::InvalidContentLength(_) => StatusCode::BadRequest,
        RequestError::UnsupportedHttpVersion(_) => StatusCode::HTTPVersionNotSupported,
        _ => StatusCode::InternalServerError,
    }
}

/// What the loop does with a failed receive: a peer that closed
/// the connection ends the loop quietly; any other fault becomes an
/// error response with the mapped status, which the engine then
/// forces to close.
pub fn classify_receive(err: &RequestError) -> (r: Option<StatusCode>)
    ensures
        r is None <==> err@ is ConnectionClosed,
        r is Some ==> r.unwrap() == spec_error_status(err@),
{
    match err {
        RequestError::ConnectionClosed => None,
        _ => Some(error_status(err)),
    }
}

/// Forces `Connection: close` onto a response, as the engine does
/// after a receive fault.  Any `Keep-Alive` header is untouched, so
/// a response that had none still closes the loop.
pub fn mark_connection_close(res: &mut Response)
    requires
        old(res).wf(),
    ensures
        final(res).wf(),
        final(res).headers@ == spec_insert(
            old(res).headers@,
            canon_key("Connection"@),
            seq!["close"@],
        ),
        assoc_get(final(res).headers@, canon_key("Keep-Alive"@)) == assoc_get(
            old(res).headers@,
            canon_key("Keep-Alive"@),
        ),
        final(res).status == old(res).status,
        final(res).body == old(res).body,
        final(res).extensions@ == old(res).extensions@,
{
    res.headers.insert("Connection", "close");
    proof {
        lemma_distinct_header_names();
        crate::headers::lemma_get_insert(
            old(res).headers@,
            canon_key("Connection"@),
            seq!["close"@],
        );
    }
}

/// The default response to an unparsable request: the mapped
/// status with a plain-text description of the fault, framed by
/// `Content-Length`.  It sets no `Connection` header — the engine
/// forces `close` afterwards — and carries no `Keep-Alive`, so the
/// loop ends after it is sent.
pub fn default_client_error_response(err: &RequestError, status: StatusCode) -> (r: Response)
    ensures
        r.wf(),
        r.status == status,
        r.body matches Some(Body::Bytes(b)) && b@ == vstd::utf8::encode_utf8(
            "invalid request: "@ + err.spec_message(),
        ),
        assoc_get(r.headers@, canon_key("Connection"@)) is None,
        assoc_get(r.headers@, canon_key("Keep-Alive"@)) is None,
        assoc_get(r.headers@, canon_key("Transfer-Encoding"@)) is None,
        assoc_get(r.headers@, canon_key("Content-Type"@)) == Some(
            seq!["text/plain; charset=utf-8"@],
        ),
        assoc_get(r.headers@, canon_key("Content-Length"@)) == Some(
            seq![
                dec_str(
                    vstd::utf8::encode_utf8("invalid request: "@ + err.spec_message()).len(),
                ),
            ],
        ),
{
    let mut text = "invalid request: ".to_owned();
    text.append(err.message().as_str());
    let bytes = text.as_str().as_bytes_vec();
    let ghost bv = bytes@;
    let b0 = Response::build();
    let ghost h0 = b0.inner.headers@;
    let b1 = b0.status(status);
    let r = b1.body(bytes);
    proof {
        let conn = canon_key("Connection"@);
        let ka = canon_key("Keep-Alive"@);
        let ct = canon_key("Content-Type"@);
        let cl = canon_key("Content-Length"@);
        let te = canon_key("Transfer-Encoding"@);
        lemma_distinct_header_names();
        assert(h0[0].0 == canon_key("Date"@));
        crate::headers::lemma_find_idx_is(h0, ct, 1);
        crate::headers::lemma_find_idx_is(h0, conn, 1);
        crate::headers::lemma_find_idx_is(h0, ka, 1);
        assert(assoc_get(h0, ct) is None);
        assert(assoc_get(h0, conn) is None);
        assert(assoc_get(h0, ka) is None);
        let h1 = spec_insert(h0, ct, seq!["text/plain; charset=utf-8"@]);
        crate::headers::lemma_get_insert(h0, ct, seq!["text/plain; charset=utf-8"@]);
        let h2 = spec_insert(h1, cl, seq![dec_str(bv.len() as nat)]);
        crate::headers::lemma_get_insert(h1, cl, seq![dec_str(bv.len() as nat)]);
        proof_canon_idem("Content-Type");
        proof_canon_idem("Content-Length");
        crate::headers::lemma_insert_wf(h0, ct, seq!["text/plain; charset=utf-8"@]);
        crate::headers::lemma_insert_wf(h1, cl, seq![dec_str(bv.len() as nat)]);
        crate::headers::lemma_get_remove(h2, te);
        assert(r.headers@ == spec_remove(h2, te));
        assert(assoc_get(h1, ct) == Some(seq!["text/plain; charset=utf-8"@]));
        assert(assoc_get(h2, ct) == Some(seq!["text/plain; charset=utf-8"@]));
        assert(assoc_get(h2, cl) == Some(seq![dec_str(bv.len() as nat)]));
        assert(assoc_get(spec_remove(h2, te), ct) == Some(seq!["text/plain; charset=utf-8"@]));
        assert(assoc_get(spec_remove(h2, te), cl) == Some(seq![dec_str(bv.len() as nat)]));
        assert(assoc_get(spec_remove(h2, te), conn) is None);
        assert(assoc_get(spec_remove(h2, te), ka) is None);
        assert(bv == vstd::utf8::encode_utf8("invalid request: "@ + err.spec_message()));
    }
    r
}

/// The default response to an idle timeout: status 408, marked
/// `Connection: close`, with a plain-text body framed by
/// `Content-Length`; no `Keep-Alive` header, so the loop closes
/// after sending it.
pub fn default_timeout_response() -> (r: Response)
    ensures
        r.wf(),
        r.status == StatusCode::RequestTimeout,
        assoc_get(r.headers@, canon_key("Connection"@)) == Some(seq!["close"@]),
        assoc_get(r.headers@, canon_key("Keep-Alive"@)) is None,
        assoc_get(r.headers@, canon_key("Transfer-Encoding"@)) is None,
        assoc_get(r.headers@, canon_key("Content-Type"@)) == Some(
            seq!["text/plain; charset=utf-8"@],
        ),
        assoc_get(r.headers@, canon_key("Content-Length"@)) == Some(seq![dec_str(15)]),
        r.body matches Some(Body::Bytes(b)) && b@ == vstd::utf8::encode_utf8("Request Timeout"@),
{
    let bytes = "Request Timeout".as_bytes_vec();
    let ghost bv = bytes@;
    let b0 = Response::build();
    let ghost h0 = b0.inner.headers@;
    let b1 = b0.status(StatusCode::RequestTimeout);
    let b2 = b1.header("Connection", "close");
    let ghost h2 = b2.inner.headers@;
    let r = b2.body(bytes);
    proof {
        let conn = canon_key("Connection"@);
        let ka = canon_key("Keep-Alive"@);
        let ct = canon_key("Content-Type"@);
        let cl = canon_key("Content-Length"@);
        let te = canon_key("Transfer-Encoding"@);
        lemma_distinct_header_names();
        assert(h0[0].0 == canon_key("Date"@));
        crate::headers::lemma_get_insert(h0, conn, seq!["close"@]);
        crate::headers::lemma_find_idx_is(h0, ct, 1);
        crate::headers::lemma_find_idx_is(h0, ka, 1);
        assert(assoc_get(h0, ct) is None);
        assert(assoc_get(h0, ka) is None);
        assert(assoc_get(h2, ct) is None);
        assert(assoc_get(h2, ka) is None);
        assert(assoc_get(h2, conn) == Some(seq!["close"@]));
        let h3 = spec_insert(h2, ct, seq!["text/plain; charset=utf-8"@]);
        crate::headers::lemma_get_insert(h2, ct, seq!["text/plain; charset=utf-8"@]);
        let h4 = spec_insert(h3, cl, seq![dec_str(bv.len() as nat)]);
        crate::headers::lemma_get_insert(h3, cl, seq![dec_str(bv.len() as nat)]);
        proof_canon_idem("Content-Type");
        proof_canon_idem("Content-Length");
        crate::headers::lemma_insert_wf(h2, ct, seq!["text/plain; charset=utf-8"@]);
        crate::headers::lemma_insert_wf(h3, cl, seq![dec_str(bv.len() as nat)]);
        crate::headers::lemma_get_remove(h4, te);
        assert(r.headers@ == spec_remove(h4, te));
        assert(assoc_get(h3, ct) == Some(seq!["text/plain; charset=utf-8"@]));
        assert(assoc_get(h4, ct) == Some(seq!["text/plain; charset=utf-8"@]));
        assert(assoc_get(h4, cl) == Some(seq![dec_str(bv.len() as nat)]));
        assert(assoc_get(h4, ka) is None);
        assert(assoc_get(spec_remove(h4, te), ct) == Some(seq!["text/plain; charset=utf-8"@]));
        assert(assoc_get(spec_remove(h4, te), cl) == Some(seq![dec_str(bv.len() as nat)]));
        assert(assoc_get(spec_remove(h4, te), ka) is None);
        reveal_strlit("Request Timeout");
        assert("Request Timeout"@.len() == 15);
        assert(vstd::utf8::is_ascii_chars("Request Timeout"@));
        vstd::utf8::is_ascii_chars_encode_utf8("Request Timeout"@);
        assert(bv.len() == 15);
    }
    r
}

/// Canonicalizing an already canonical literal changes nothing;
/// factored out so call sites stay short.
proof fn proof_canon_idem(s: &str)
    ensures
        canon_key(canon_key(s@)) == canon_key(s@),
{
    crate::headers::lemma_canon_idempotent(s@);
}

/// The standard header names the engine touches are pairwise
/// distinct, under canonicalization.
proof fn lemma_distinct_header_names()
    ensures
        canon_key("Connection"@) != canon_key("Content-Type"@),
        canon_key("Connection"@) != canon_key("Content-Length"@),
        canon_key("Connection"@) != canon_key("Transfer-Encoding"@),
        canon_key("Connection"@) != canon_key("Date"@),
        canon_key("Content-Type"@) != canon_key("Content-Length"@),
        canon_key("Content-Type"@) != canon_key("Transfer-Encoding"@),
        canon_key("Content-Length"@) != canon_key("Transfer-Encoding"@),
        canon_key("Date"@) != canon_key("Content-Type"@),
        canon_key("Keep-Alive"@) != canon_key("Connection"@),
        canon_key("Keep-Alive"@) != canon_key("Content-Type"@),
        canon_key("Keep-Alive"@) != canon_key("Content-Length"@),
        canon_key("Keep-Alive"@) != canon_key("Transfer-Encoding"@),
        canon_key("Keep-Alive"@) != canon_key("Date"@),
{
    reveal_strlit("Date");
    reveal_strlit("Connection");
    reveal_strlit("Content-Type");
    reveal_strlit("Content-Length");
    reveal_strlit("Transfer-Encoding");
    reveal_strlit("Keep-Alive");
    assert("Connection"@.len() == 10);
    assert("Content-Type"@.len() == 12);
    assert("Content-Length"@.len() == 14);
    assert("Transfer-Encoding"@.len() == 17);
    assert(canon_key("Connection"@).len() == 10);
    assert(canon_key("Content-Type"@).len() == 12);
    assert(canon_key("Content-Length"@).len() == 14);
    assert(canon_key("Transfer-Encoding"@).len() == 17);
    assert("Date"@.len() == 4);
    assert(canon_key("Date"@).len() == 4);
    assert("Keep-Alive"@.len() == 10);
    assert(canon_key("Keep-Alive"@).len() == 10);
    // Same length as Connection, so compare the first character.
    assert(canon_key("Keep-Alive"@)[0] == crate::text::upper_char("Keep-Alive"@[0]));
    assert(canon_key("Connection"@)[0] == crate::text::upper_char("Connection"@[0]));
    assert(canon_key("Keep-Alive"@)[0] == 'K');
    assert(canon_key("Connection"@)[0] == 'C');
}

} // verus!

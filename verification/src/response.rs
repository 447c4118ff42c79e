//! Responses: the status/header/body record, the builder that
//! enforces the framing rules (`Content-Length` and
//! `Transfer-Encoding` are mutually exclusive and set together with
//! the body kind), and the wire form of the response head.

use vstd::prelude::*;

use crate::extensions::Extensions;
use crate::headers::{all_lines, canon_key, join_crlf, spec_insert, spec_remove, Headers};
use crate::status::StatusCode;
use crate::text::dec_str;

verus! {

/// A response payload: bytes held in memory, or a lazy chunk
/// stream.  The stream's producer lives with the transport; this
/// crate frames whatever chunks it yields.
pub enum Body {
    Bytes(Vec<u8>),
    Stream,
}

/// A response: status, headers, side channel, and at most one body.
pub struct Response {
    pub status: StatusCode,
    pub headers: Headers,
    pub extensions: Extensions,
    pub body: Option<Body>,
}

/// Why sending a response failed.
pub enum ResponseError {
    /// The transport failed; the payload is the reported reason.
    Io(String),
}

impl ResponseError {
    pub open spec fn spec_message(self) -> Seq<char> {
        match self {
            ResponseError::Io(s) => "I/O error: "@ + s@,
        }
    }

    pub fn message(&self) -> (r: String)
        ensures
            r@ == self.spec_message(),
    {
        match self {
            ResponseError::Io(s) => {
                let mut out = "I/O error: ".to_owned();
                out.append(s.as_str());
                out
            },
        }
    }
}

/// The wire form of a response head: the status line — with its
/// trailing space before CRLF — then the serialized headers, then
/// the blank line.
pub open spec fn spec_head(status: StatusCode, headers: Seq<(Seq<char>, Seq<Seq<char>>)>) -> Seq<
    char,
> {
    "HTTP/1.1 "@ + dec_str(status.spec_code() as nat) + seq![' '] + status.spec_message()
        + " \r\n"@ + join_crlf(all_lines(headers)) + "\r\n\r\n"@
}

/// Relies on `httpdate::fmt_http_date` (with the time read from
/// `std::time::SystemTime::now`): the result is an IMF-fixdate,
/// always exactly 29 characters.
#[verifier::external_body]
fn http_date_now() -> (r: String)
    ensures
        r@.len() == 29,
{
    httpdate::fmt_http_date(std::time::SystemTime::now())
}

/// The content type `mime_guess` derives from a path's extension,
/// with `application/octet-stream` for paths it knows nothing
/// about.  The guess depends on the path text alone.
pub uninterp spec fn mime_of(path: Seq<char>) -> Seq<char>;

/// Relies on `mime_guess::from_path` and
/// `MimeGuess::first_or_octet_stream`: the guess is a pure function
/// of the path, and a `Mime` renders as `type/subtype`, never
/// empty.
#[verifier::external_body]
fn guess_content_type(path: &str) -> (r: String)
    ensures
        r@ == mime_of(path@),
        r@.len() > 0,
{
    mime_guess::from_path(path).first_or_octet_stream().to_string()
}

impl Response {
    /// Every response this crate builds keeps its header table well
    /// formed.
    pub open spec fn wf(&self) -> bool {
        self.headers.wf()
    }

    /// A fresh builder, with status 200 and a `Date` header naming
    /// the current time.  The date's value depends on the clock and
    /// cannot be pinned, but its shape can: an IMF-fixdate is always
    /// exactly 29 characters.
    pub fn build() -> (r: ResponseBuilder)
        ensures
            r.inner.wf(),
            r.inner.status == StatusCode::OK,
            r.inner.headers@.len() == 1,
            r.inner.headers@[0].0 == canon_key("Date"@),
            r.inner.headers@[0].1.len() == 1,
            r.inner.headers@[0].1[0].len() == 29,
            r.inner.extensions@ is None,
            r.inner.body is None,
    {
        let mut headers = Headers::new();
        let date = http_date_now();
        headers.insert("Date", date.as_str());
        ResponseBuilder {
            inner: Response {
                status: StatusCode::OK,
                headers,
                extensions: Extensions::new(),
                body: None,
            },
        }
    }

    pub fn into_builder(self) -> (r: ResponseBuilder)
        ensures
            r.inner == self,
    {
        ResponseBuilder { inner: self }
    }

    /// The serialized head this response sends before its body.
    pub fn fmt_head(&self) -> (r: String)
        ensures
            r@ == spec_head(self.status, self.headers@),
    {
        let mut out = "HTTP/1.1 ".to_owned();
        let code = self.status.code();
        out.append(crate::text::usize_to_string(code).as_str());
        crate::text::push_char(&mut out, ' ');
        out.append(self.status.message());
        out.append(" \r\n");
        out.append(self.headers.to_string().as_str());
        out.append("\r\n\r\n");
        assert(out@ =~= spec_head(self.status, self.headers@));
        out
    }
}

/// Accumulates a response; the terminal calls (`body`, `stream`,
/// `end`) hand the finished record out.
pub struct ResponseBuilder {
    pub inner: Response,
}

impl ResponseBuilder {
    /// Sets an in-memory byte body: `Content-Type` defaults to
    /// plain text when unset, `Content-Length` is the byte count,
    /// and any `Transfer-Encoding` is dropped.
    pub fn body(self, body: Vec<u8>) -> (r: Response)
        requires
            self.inner.wf(),
        ensures
            r.wf(),
            ({
                let h1 = if self.inner.headers.spec_get(canon_key("Content-Type"@)) is Some {
                    self.inner.headers@
                } else {
                    spec_insert(
                        self.inner.headers@,
                        canon_key("Content-Type"@),
                        seq!["text/plain; charset=utf-8"@],
                    )
                };
                let h2 = spec_insert(h1, canon_key("Content-Length"@), seq![dec_str(body@.len())]);
                let h3 = spec_remove(h2, canon_key("Transfer-Encoding"@));
                &&& r.headers@ == h3
                &&& r.status == self.inner.status
                &&& r.extensions@ == self.inner.extensions@
                &&& r.body matches Some(Body::Bytes(b)) && b@ == body@
            }),
    {
        let mut inner = self.inner;
        if !inner.headers.contains_key("Content-Type") {
            inner.headers.insert("Content-Type", "text/plain; charset=utf-8");
        }
        let len_str = crate::text::usize_to_string(body.len());
        inner.headers.insert("Content-Length", len_str.as_str());
        inner.headers.remove("Transfer-Encoding");
        inner.body = Some(Body::Bytes(body));
        inner
    }

    /// Marks the body as a lazy chunk stream: `Content-Type`
    /// defaults to an octet stream when unset, `Content-Length` is
    /// dropped, and `Transfer-Encoding: chunked` is set.  The
    /// transport attaches the producer and frames each chunk with
    /// `encode_chunk`.
    pub fn stream(self) -> (r: Response)
        requires
            self.inner.wf(),
        ensures
            r.wf(),
            ({
                let h1 = if self.inner.headers.spec_get(canon_key("Content-Type"@)) is Some {
                    self.inner.headers@
                } else {
                    spec_insert(
                        self.inner.headers@,
                        canon_key("Content-Type"@),
                        seq!["application/octet-stream"@],
                    )
                };
                let h2 = spec_remove(h1, canon_key("Content-Length"@));
                let h3 = spec_insert(h2, canon_key("Transfer-Encoding"@), seq!["chunked"@]);
                &&& r.headers@ == h3
                &&& r.status == self.inner.status
                &&& r.extensions@ == self.inner.extensions@
                &&& r.body matches Some(Body::Stream)
            }),
    {
        let mut inner = self.inner;
        if !inner.headers.contains_key("Content-Type") {
            inner.headers.insert("Content-Type", "application/octet-stream");
        }
        inner.headers.remove("Content-Length");
        inner.headers.insert("Transfer-Encoding", "chunked");
        inner.body = Some(Body::Stream);
        inner
    }

    /// Sets `Content-Type` from the path's extension when none is
    /// set yet; serving the file is then `stream` over its bytes.
    pub fn file_headers(self, path: &str) -> (r: ResponseBuilder)
        requires
            self.inner.wf(),
        ensures
            r.inner.wf(),
            ({
                let h1 = if self.inner.headers.spec_get(canon_key("Content-Type"@)) is Some {
                    self.inner.headers@
                } else {
                    spec_insert(self.inner.headers@, canon_key("Content-Type"@), seq![mime_of(path@)])
                };
                &&& r.inner.headers@ == h1
                &&& r.inner.status == self.inner.status
                &&& r.inner.extensions@ == self.inner.extensions@
                &&& r.inner.body == self.inner.body
            }),
    {
        let mut inner = self.inner;
        if !inner.headers.contains_key("Content-Type") {
            let ct = guess_content_type(path);
            inner.headers.insert("Content-Type", ct.as_str());
        }
        ResponseBuilder { inner }
    }

    /// Hands the response out with no body set.
    pub fn end(self) -> (r: Response)
        ensures
            r == self.inner,
    {
        self.inner
    }

    pub fn status(self, status: StatusCode) -> (r: ResponseBuilder)
        ensures
            r.inner.status == status,
            r.inner.headers == self.inner.headers,
            r.inner.extensions@ == self.inner.extensions@,
            r.inner.body == self.inner.body,
    {
        let mut inner = self.inner;
        inner.status = status;
        ResponseBuilder { inner }
    }

    pub fn header(self, header: &str, value: &str) -> (r: ResponseBuilder)
        requires
            self.inner.wf(),
        ensures
            r.inner.wf(),
            r.inner.headers@ == spec_insert(self.inner.headers@, canon_key(header@), seq![value@]),
            r.inner.status == self.inner.status,
            r.inner.extensions@ == self.inner.extensions@,
            r.inner.body == self.inner.body,
    {
        let mut inner = self.inner;
        inner.headers.insert(header, value);
        ResponseBuilder { inner }
    }

    pub fn cookie(self, key: &str, value: &str) -> (r: ResponseBuilder)
        requires
            self.inner.wf(),
        ensures
            r.inner.wf(),
            r.inner.headers@ == crate::headers::spec_append(
                self.inner.headers@,
                canon_key("Set-Cookie"@),
                key@ + seq!['='] + value@,
            ),
            r.inner.status == self.inner.status,
            r.inner.extensions@ == self.inner.extensions@,
            r.inner.body == self.inner.body,
    {
        let mut inner = self.inner;
        inner.headers.add_set_cookie(key, value);
        ResponseBuilder { inner }
    }
}

} // verus!

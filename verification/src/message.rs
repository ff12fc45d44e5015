//! Requests, responses, bodies, and the bytes they are written as.

use vstd::prelude::*;
use crate::decimal::{dec_digits, lemma_dec_digits_props, lemma_dec_unique, usize_to_decimal};
use crate::framing::BodyLength;
use crate::header::{Headers, content_length_name, date_name};

verus! {

/// A request method. Only these are supported; anything else is a parse
/// error.
#[derive(Clone, Copy, Debug, PartialEq, Eq, Structural)]
pub enum Method {
    Get,
    Post,
}

/// The bytes of `"GET"`.
pub open spec fn get_bytes() -> Seq<u8> {
    seq![71u8, 69u8, 84u8]
}

/// The bytes of `"POST"`.
pub open spec fn post_bytes() -> Seq<u8> {
    seq![80u8, 79u8, 83u8, 84u8]
}

/// The bytes a method is written as.
pub open spec fn method_bytes(m: Method) -> Seq<u8> {
    match m {
        Method::Get => get_bytes(),
        Method::Post => post_bytes(),
    }
}

/// The bytes of `"HTTP/1.1"`.
pub open spec fn http11() -> Seq<u8> {
    seq![72u8, 84u8, 84u8, 80u8, 47u8, 49u8, 46u8, 49u8]
}

/// The bytes of `"\r\n"`.
pub open spec fn crlf() -> Seq<u8> {
    seq![13u8, 10u8]
}

/// The bytes of `" "`.
pub open spec fn sp() -> Seq<u8> {
    seq![32u8]
}

/// The bytes of `"\r\ncontent-length: "`.
pub open spec fn cl_field_prefix() -> Seq<u8> {
    crlf() + content_length_name() + seq![58u8, 32u8]
}

/// The bytes of `"\r\ndate: "`.
pub open spec fn date_field_prefix() -> Seq<u8> {
    crlf() + date_name() + seq![58u8, 32u8]
}

/// The bytes of `"GET"`, as a vector.
pub fn get_token() -> (r: Vec<u8>)
    ensures
        r@ == get_bytes(),
{
    let mut r: Vec<u8> = Vec::new();
    r.push(71);
    r.push(69);
    r.push(84);
    proof {
        assert(r@ =~= get_bytes());
    }
    r
}

/// The bytes of `"POST"`, as a vector.
pub fn post_token() -> (r: Vec<u8>)
    ensures
        r@ == post_bytes(),
{
    let mut r: Vec<u8> = Vec::new();
    r.push(80);
    r.push(79);
    r.push(83);
    r.push(84);
    proof {
        assert(r@ =~= post_bytes());
    }
    r
}

/// The bytes of `"HTTP/1.1"`, as a vector.
pub fn http11_token() -> (r: Vec<u8>)
    ensures
        r@ == http11(),
{
    let mut r: Vec<u8> = Vec::new();
    push_http11(&mut r);
    proof {
        assert(r@ =~= http11());
    }
    r
}

/// A message body: either a range of the owning connection's buffer
/// (zero-copy, resolved through the connection), or owned bytes.
pub struct Body {
    pub kind: BodyKind,
}

/// The two backings a body can have.
pub enum BodyKind {
    /// Bytes that sit in the owning connection's buffer, starting right
    /// after the head.
    Conn { start: usize, length: BodyLength },
    /// Owned bytes, for generated messages.
    Bytes(Vec<u8>),
}

impl Body {
    /// The framed length of this body.
    pub open spec fn spec_len(&self) -> BodyLength {
        match self.kind {
            BodyKind::Conn { start: _, length } => length,
            BodyKind::Bytes(ref b) => BodyLength::Known(b@.len() as usize),
        }
    }

    /// A body over owned bytes.
    pub fn from_vec(bytes: Vec<u8>) -> (r: Body)
        ensures
            r.kind matches BodyKind::Bytes(b) && b@ == bytes@,
    {
        Body { kind: BodyKind::Bytes(bytes) }
    }

    /// The framed length of this body.
    pub fn len(&self) -> (r: BodyLength)
        ensures
            r == self.spec_len(),
    {
        match &self.kind {
            BodyKind::Conn { start: _, length } => *length,
            BodyKind::Bytes(b) => BodyLength::Known(b.len()),
        }
    }
}

/// A parsed request. `path` and the headers are copied out of the buffer;
/// a connection-backed body stays in the buffer and is read through the
/// connection.
pub struct Request {
    pub method: Method,
    pub path: Vec<u8>,
    pub headers: Headers,
    pub body: Body,
}

impl Request {
    /// The request method.
    pub fn method(&self) -> (r: Method)
        ensures
            r == self.method,
    {
        self.method
    }

    /// The request path bytes.
    pub fn path(&self) -> (r: &Vec<u8>)
        ensures
            r@ == self.path@,
    {
        &self.path
    }

    /// The stored headers.
    pub fn headers(&self) -> (r: &Headers)
        ensures
            r == &self.headers,
    {
        &self.headers
    }

    /// The body.
    pub fn body(&self) -> (r: &Body)
        ensures
            r == &self.body,
    {
        &self.body
    }
}

/// The status codes the engine can write. An unmapped code is refused at
/// construction, not defaulted.
pub open spec fn is_known_code(code: u16) -> bool {
    code == 200 || code == 404 || code == 431
}

/// The bytes of `"OK"`.
pub open spec fn ok_reason() -> Seq<u8> {
    seq![79u8, 75u8]
}

/// The bytes of `"Not Found"`.
pub open spec fn not_found_reason() -> Seq<u8> {
    seq![78u8, 111u8, 116u8, 32u8, 70u8, 111u8, 117u8, 110u8, 100u8]
}

/// The bytes of `"Request Header Fields Too Large"`.
pub open spec fn too_large_reason() -> Seq<u8> {
    seq![82u8, 101u8, 113u8, 117u8, 101u8, 115u8, 116u8, 32u8, 72u8, 101u8, 97u8, 100u8, 101u8,
        114u8, 32u8, 70u8, 105u8, 101u8, 108u8, 100u8, 115u8, 32u8, 84u8, 111u8, 111u8, 32u8,
        76u8, 97u8, 114u8, 103u8, 101u8]
}

/// The reason phrase of a known status code.
pub open spec fn spec_reason(code: u16) -> Seq<u8> {
    if code == 200 {
        ok_reason()
    } else if code == 404 {
        not_found_reason()
    } else {
        too_large_reason()
    }
}

/// A response: a known status code, headers, and a body. The engine
/// writes the content-length and date headers itself; a handler must not
/// set either.
pub struct Response {
    pub code: u16,
    pub headers: Headers,
    pub body: Body,
}

impl Response {
    /// Builds a response. The code must be on the fixed code-to-reason
    /// table: an unmapped code is a construction-time error.
    pub fn new(code: u16, headers: Headers, body: Body) -> (r: Response)
        requires
            is_known_code(code),
        ensures
            r.code == code,
            r.headers == headers,
            r.body == body,
    {
        Response { code, headers, body }
    }

    /// A response with no headers over a copy of the given bytes.
    pub fn from_static(code: u16, body: &[u8]) -> (r: Response)
        requires
            is_known_code(code),
        ensures
            r.code == code,
            r.headers@ == Seq::<(crate::header::HeaderName, Seq<u8>)>::empty(),
            r.headers.wf(),
            r.body.kind matches BodyKind::Bytes(b) && b@ == body@,
    {
        let owned = crate::bytes::copy_range(body, 0, body.len());
        proof {
            assert(owned@ =~= body@);
        }
        Response { code, headers: Headers::empty(), body: Body::from_vec(owned) }
    }

    /// The status code.
    pub fn code(&self) -> (r: u16)
        ensures
            r == self.code,
    {
        self.code
    }

    /// The reason phrase of the status code, from the fixed table.
    pub fn reason(&self) -> (r: &'static str)
        requires
            is_known_code(self.code),
        ensures
            self.code == 200 ==> r@ == "OK"@,
            self.code == 404 ==> r@ == "Not Found"@,
            self.code == 431 ==> r@ == "Request Header Fields Too Large"@,
    {
        if self.code == 200 {
            "OK"
        } else if self.code == 404 {
            "Not Found"
        } else {
            "Request Header Fields Too Large"
        }
    }

    /// The stored headers.
    pub fn headers(&self) -> (r: &Headers)
        ensures
            r == &self.headers,
    {
        &self.headers
    }

    /// Whether the handler set a header the engine owns: the engine
    /// writes content-length and date itself, so a response that already
    /// carries one is a contract violation.
    pub fn has_forbidden_headers(&self) -> (r: bool)
        requires
            self.headers.wf(),
        ensures
            r == (crate::header::spec_get(self.headers@, crate::header::HeaderName::ContentLength)
                is Some || crate::header::spec_get(self.headers@, crate::header::HeaderName::Date)
                is Some),
    {
        let cl = self.headers.get(crate::header::HeaderName::ContentLength);
        let date = self.headers.get(crate::header::HeaderName::Date);
        cl.is_some() || date.is_some()
    }
}

/// The reply a server gives when a request head has too many headers: a
/// 431 with an empty body, written with `content-length: 0`, after which
/// the connection is closed.
pub fn too_many_headers_response() -> (r: Response)
    ensures
        r.code == 431,
        r.headers@ == Seq::<(crate::header::HeaderName, Seq<u8>)>::empty(),
        r.headers.wf(),
        r.body.kind matches BodyKind::Bytes(b) && b@ == Seq::<u8>::empty(),
{
    let body: Vec<u8> = Vec::new();
    proof {
        assert(body@ =~= Seq::<u8>::empty());
    }
    Response { code: 431, headers: Headers::empty(), body: Body::from_vec(body) }
}

/// The exact bytes a response with body `body` and date header value
/// `date` is written as: status line, content-length, date, blank line,
/// body.
pub open spec fn spec_serialize_response(code: u16, body: Seq<u8>, date: Seq<u8>) -> Seq<u8> {
    http11() + sp() + dec_digits(code as int) + sp() + spec_reason(code) + cl_field_prefix()
        + dec_digits(body.len() as int) + date_field_prefix() + date + crlf() + crlf() + body
}

/// Appends the bytes of `"HTTP/1.1"`.
fn push_http11(out: &mut Vec<u8>)
    ensures
        final(out)@ == old(out)@ + http11(),
{
    out.push(72);
    out.push(84);
    out.push(84);
    out.push(80);
    out.push(47);
    out.push(49);
    out.push(46);
    out.push(49);
    proof {
        assert(out@ =~= old(out)@ + http11());
    }
}

/// Appends the reason phrase of a known code.
fn push_reason(out: &mut Vec<u8>, code: u16)
    requires
        is_known_code(code),
    ensures
        final(out)@ == old(out)@ + spec_reason(code),
{
    if code == 200 {
        out.push(79);
        out.push(75);
        proof {
            assert(out@ =~= old(out)@ + spec_reason(code));
        }
    } else if code == 404 {
        out.push(78);
        out.push(111);
        out.push(116);
        out.push(32);
        out.push(70);
        out.push(111);
        out.push(117);
        out.push(110);
        out.push(100);
        proof {
            assert(out@ =~= old(out)@ + spec_reason(code));
        }
    } else {
        out.push(82);
        out.push(101);
        out.push(113);
        out.push(117);
        out.push(101);
        out.push(115);
        out.push(116);
        out.push(32);
        out.push(72);
        out.push(101);
        out.push(97);
        out.push(100);
        out.push(101);
        out.push(114);
        out.push(32);
        out.push(70);
        out.push(105);
        out.push(101);
        out.push(108);
        out.push(100);
        out.push(115);
        out.push(32);
        out.push(84);
        out.push(111);
        out.push(111);
        out.push(32);
        out.push(76);
        out.push(97);
        out.push(114);
        out.push(103);
        out.push(101);
        proof {
            assert(out@ =~= old(out)@ + spec_reason(code));
        }
    }
}

/// Appends the decimal digits of `n`.
fn push_decimal(out: &mut Vec<u8>, n: usize)
    ensures
        final(out)@ == old(out)@ + dec_digits(n as int),
{
    let digits = usize_to_decimal(n);
    proof {
        lemma_dec_digits_props(n as int);
        lemma_dec_unique(digits@, dec_digits(n as int));
    }
    crate::bytes::append_bytes(out, digits.as_slice());
}

/// Appends the bytes of `"\r\ncontent-length: "`.
fn push_cl_field_prefix(out: &mut Vec<u8>)
    ensures
        final(out)@ == old(out)@ + cl_field_prefix(),
{
    out.push(13);
    out.push(10);
    let name = crate::header::content_length_bytes();
    crate::bytes::append_bytes(out, name.as_slice());
    out.push(58);
    out.push(32);
    proof {
        assert(out@ =~= old(out)@ + cl_field_prefix());
    }
}

/// Appends the bytes of `"\r\ndate: "`.
fn push_date_field_prefix(out: &mut Vec<u8>)
    ensures
        final(out)@ == old(out)@ + date_field_prefix(),
{
    out.push(13);
    out.push(10);
    let name = crate::header::date_bytes();
    crate::bytes::append_bytes(out, name.as_slice());
    out.push(58);
    out.push(32);
    proof {
        assert(out@ =~= old(out)@ + date_field_prefix());
    }
}

/// Writes a response out as bytes: the status line from the fixed
/// code-to-reason table, a content-length header for the body, the given
/// date header value, a blank line, and the body.
///
/// The engine computes the content-length and date headers itself;
/// whatever headers the response object carries are checked by the
/// connection driver and never echoed to the wire.
pub fn serialize_response(resp: &Response, date: &[u8]) -> (r: Vec<u8>)
    requires
        is_known_code(resp.code),
        resp.body.kind matches BodyKind::Bytes(_),
    ensures
        (resp.body.kind matches BodyKind::Bytes(b) ==> r@ == spec_serialize_response(
            resp.code,
            b@,
            date@,
        )),
{
    let mut out: Vec<u8> = Vec::new();
    push_http11(&mut out);
    out.push(32);
    let ghost s1 = out@;
    proof {
        assert(s1 =~= http11() + sp());
    }
    push_decimal(&mut out, resp.code as usize);
    out.push(32);
    let ghost s2 = out@;
    proof {
        assert(s2 =~= http11() + sp() + dec_digits(resp.code as int) + sp());
    }
    push_reason(&mut out, resp.code);
    push_cl_field_prefix(&mut out);
    match &resp.body.kind {
        BodyKind::Bytes(b) => {
            push_decimal(&mut out, b.len());
            push_date_field_prefix(&mut out);
            crate::bytes::append_bytes(&mut out, date);
            out.push(13);
            out.push(10);
            out.push(13);
            out.push(10);
            let ghost s3 = out@;
            proof {
                assert(s3 =~= http11() + sp() + dec_digits(resp.code as int) + sp() + spec_reason(
                    resp.code,
                ) + cl_field_prefix() + dec_digits(b@.len() as int) + date_field_prefix() + date@
                    + crlf() + crlf());
            }
            crate::bytes::append_bytes(&mut out, b.as_slice());
            proof {
                assert(out@ =~= spec_serialize_response(resp.code, b@, date@));
            }
        },
        BodyKind::Conn { .. } => {
            // Excluded by the precondition: only owned bodies are written.
        },
    }
    out
}

/// The exact bytes a request head for `m` and `path` is written as, with
/// no headers and no body.
pub open spec fn spec_request_head(m: Method, path: Seq<u8>) -> Seq<u8> {
    method_bytes(m) + sp() + path + sp() + http11() + crlf() + crlf()
}

/// Writes the request head for `m` and `path`: the request line followed
/// by an empty header block.
pub fn build_request_head(m: Method, path: &[u8]) -> (r: Vec<u8>)
    ensures
        r@ == spec_request_head(m, path@),
{
    let mut out: Vec<u8> = Vec::new();
    match m {
        Method::Get => {
            out.push(71);
            out.push(69);
            out.push(84);
            proof {
                assert(out@ =~= method_bytes(m));
            }
        },
        Method::Post => {
            out.push(80);
            out.push(79);
            out.push(83);
            out.push(84);
            proof {
                assert(out@ =~= method_bytes(m));
            }
        },
    }
    out.push(32);
    crate::bytes::append_bytes(&mut out, path);
    out.push(32);
    push_http11(&mut out);
    out.push(13);
    out.push(10);
    out.push(13);
    out.push(10);
    proof {
        assert(out@ =~= spec_request_head(m, path@));
    }
    out
}

} // verus!

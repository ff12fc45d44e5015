//! One connection's read state machine, for both sides.
//!
//! The connection owns a buffer of bytes received and not yet consumed.
//! The caller reads from its transport and feeds the bytes in; the
//! connection parses heads, resolves framing, hands out messages, and
//! keeps leftover bytes for the next message (keep-alive).  Every
//! decision is a pure function of the bytes received so far, stated by
//! `spec_server_step` and `spec_client_step`.

use vstd::prelude::*;
use crate::framing::{BodyLength, FramingError, spec_resolve};
use crate::header::{HeaderName, Headers, spec_table};
use crate::message::{Body, BodyKind, Method, Request, Response};
use crate::parse::{SpecReqHead, SpecRespHead, spec_parse_req_head, spec_parse_resp_head};

verus! {

/// Why a connection stopped serving requests.
#[derive(Clone, Copy, Debug, PartialEq, Eq, Structural)]
pub enum ConnectionErrorKind {
    /// The peer vanished in the middle of a message.
    UnexpectedEof,
    /// The request head could not be parsed.
    RequestError,
    /// The peer closed the connection between messages: a clean close,
    /// not a fault.
    Closed,
    /// The head exceeded the buffer's configured maximum size.
    HeadTooLong,
    /// The request's body framing was invalid.
    Framing(FramingError),
}

/// An error on a server-side connection.
#[derive(Clone, Copy, Debug)]
pub struct ConnectionError {
    kind: ConnectionErrorKind,
}

impl ConnectionError {
    /// Which kind of error this is.
    pub closed spec fn spec_kind(&self) -> ConnectionErrorKind {
        self.kind
    }

    /// Which kind of error this is.
    pub fn kind(&self) -> (r: ConnectionErrorKind)
        ensures
            r == self.spec_kind(),
    {
        self.kind
    }

    /// Whether this is the clean-close case.
    pub fn is_closed(&self) -> (r: bool)
        ensures
            r == (self.spec_kind() is Closed),
    {
        matches!(self.kind, ConnectionErrorKind::Closed)
    }

    /// The peer vanished in the middle of a message.
    pub fn unexpected_eof() -> (r: ConnectionError)
        ensures
            r.spec_kind() is UnexpectedEof,
    {
        ConnectionError { kind: ConnectionErrorKind::UnexpectedEof }
    }

    /// The request head could not be parsed.
    pub fn request_error() -> (r: ConnectionError)
        ensures
            r.spec_kind() is RequestError,
    {
        ConnectionError { kind: ConnectionErrorKind::RequestError }
    }

    /// The peer closed the connection between messages.
    pub fn closed() -> (r: ConnectionError)
        ensures
            r.spec_kind() is Closed,
    {
        ConnectionError { kind: ConnectionErrorKind::Closed }
    }

    /// The head exceeded the configured maximum buffer size.
    pub fn head_too_long() -> (r: ConnectionError)
        ensures
            r.spec_kind() is HeadTooLong,
    {
        ConnectionError { kind: ConnectionErrorKind::HeadTooLong }
    }

    /// The request's body framing was invalid.
    pub fn framing(e: FramingError) -> (r: ConnectionError)
        ensures
            r.spec_kind() == ConnectionErrorKind::Framing(e),
    {
        ConnectionError { kind: ConnectionErrorKind::Framing(e) }
    }
}

/// Why a response could not be read.
#[derive(Clone, Copy, Debug, PartialEq, Eq, Structural)]
pub enum ResponseErrorKind {
    /// The response head could not be parsed, or had too many headers.
    ParseHead,
    /// The content-length value was not a valid number.
    ParseInt,
    /// Conflicting framing headers.
    InvalidMessageFraming,
    /// A transfer-encoding header: transfer encodings are unsupported.
    UnsupportedTransferEncoding,
    /// The head exceeded the buffer's configured maximum size.
    HeadTooLong,
}

/// An error on a client-side connection.
#[derive(Clone, Copy, Debug)]
pub struct ResponseError {
    kind: ResponseErrorKind,
}

impl ResponseError {
    /// Which kind of error this is.
    pub closed spec fn spec_kind(&self) -> ResponseErrorKind {
        self.kind
    }

    /// Which kind of error this is.
    pub fn kind(&self) -> (r: ResponseErrorKind)
        ensures
            r == self.spec_kind(),
    {
        self.kind
    }
}

/// The current message of a connection: how long its head was, and how
/// its body is framed.
pub struct MsgView {
    pub head_len: int,
    pub body: BodyLength,
}

/// The state of a connection: the unconsumed received bytes, the current
/// message if one is parsed, the configured limits, and whether the peer
/// has closed.
pub struct ConnView {
    pub bytes: Seq<u8>,
    pub msg: Option<MsgView>,
    pub max_headers: nat,
    pub max_head: nat,
    pub eof_seen: bool,
}

/// What feeding bytes to a server-side connection produced.
pub enum ServerStep {
    /// No complete head yet: read more bytes and feed them in.
    NeedMore,
    /// A complete request. Its body, if connection-backed, is read
    /// through the connection.
    Request(Request),
    /// The head had too many headers: answer 431, then close.
    ReplyTooManyHeaders,
    /// A fatal error for this connection.
    Fail(ConnectionError),
}

/// The spec-level shape of a server step.
pub enum SpecServerStep {
    NeedMore,
    Request {
        method: Method,
        path: Seq<u8>,
        table: Seq<(HeaderName, Seq<u8>)>,
        body_start: int,
        body: BodyLength,
    },
    ReplyTooManyHeaders,
    Fail(ConnectionErrorKind),
}

impl View for ServerStep {
    type V = SpecServerStep;

    open spec fn view(&self) -> SpecServerStep {
        match self {
            ServerStep::NeedMore => SpecServerStep::NeedMore,
            ServerStep::Request(req) => SpecServerStep::Request {
                method: req.method,
                path: req.path@,
                table: req.headers@,
                body_start: match req.body.kind {
                    BodyKind::Conn { start, length: _ } => start as int,
                    BodyKind::Bytes(_) => -1,
                },
                body: match req.body.kind {
                    BodyKind::Conn { start: _, length } => length,
                    BodyKind::Bytes(_) => BodyLength::Empty,
                },
            },
            ServerStep::ReplyTooManyHeaders => SpecServerStep::ReplyTooManyHeaders,
            ServerStep::Fail(e) => SpecServerStep::Fail(e.spec_kind()),
        }
    }
}

/// What feeding bytes to a client-side connection produced.
pub enum ClientStep {
    /// No complete head yet: read more bytes and feed them in.
    NeedMore,
    /// A complete response. Its body is read through the connection.
    Response(Response),
    /// A fatal error for this connection.
    Fail(ResponseError),
}

/// The spec-level shape of a client step.
pub enum SpecClientStep {
    NeedMore,
    Response { code: u16, table: Seq<(HeaderName, Seq<u8>)>, body_start: int, body: BodyLength },
    Fail(ResponseErrorKind),
}

impl View for ClientStep {
    type V = SpecClientStep;

    open spec fn view(&self) -> SpecClientStep {
        match self {
            ClientStep::NeedMore => SpecClientStep::NeedMore,
            ClientStep::Response(resp) => SpecClientStep::Response {
                code: resp.code,
                table: resp.headers@,
                body_start: match resp.body.kind {
                    BodyKind::Conn { start, length: _ } => start as int,
                    BodyKind::Bytes(_) => -1,
                },
                body: match resp.body.kind {
                    BodyKind::Conn { start: _, length } => length,
                    BodyKind::Bytes(_) => BodyLength::Empty,
                },
            },
            ClientStep::Fail(e) => SpecClientStep::Fail(e.spec_kind()),
        }
    }
}

/// The bytes a finished message occupied: its head plus its known body.
pub open spec fn spec_consumed(m: MsgView) -> int {
    m.head_len + (match m.body {
        BodyLength::Known(n) => n as int,
        BodyLength::Empty => 0,
        BodyLength::Unknown => 0,
    })
}

/// The step a server-side connection in state `v` takes when `data`
/// arrives, and its state afterwards.
///
/// While a message is in flight the new bytes are body or pipelined
/// bytes and are only buffered.  Otherwise the whole buffer is parsed as
/// a request head: a partial head waits for more bytes unless the buffer
/// has outgrown `max_head`; too many headers asks for a 431 reply; a
/// malformed head fails the connection; a complete head has its framing
/// resolved, and either fails or yields the request with a
/// connection-backed body starting right after the head.
pub open spec fn spec_server_step(v: ConnView, data: Seq<u8>) -> (ConnView, SpecServerStep) {
    let s = v.bytes + data;
    let grown = ConnView { bytes: s, ..v };
    if v.msg is Some {
        (grown, SpecServerStep::NeedMore)
    } else {
        match spec_parse_req_head(s, v.max_headers) {
            SpecReqHead::Partial => if s.len() > v.max_head {
                (grown, SpecServerStep::Fail(ConnectionErrorKind::HeadTooLong))
            } else {
                (grown, SpecServerStep::NeedMore)
            },
            SpecReqHead::Malformed => (grown, SpecServerStep::Fail(
                ConnectionErrorKind::RequestError,
            )),
            SpecReqHead::TooManyHeaders => (grown, SpecServerStep::ReplyTooManyHeaders),
            SpecReqHead::Complete { method, path, headers, end } => match spec_resolve(
                headers,
                true,
            ) {
                Err(e) => (grown, SpecServerStep::Fail(ConnectionErrorKind::Framing(e))),
                Ok(bl) => (
                    ConnView { bytes: s, msg: Some(MsgView { head_len: end, body: bl }), ..v },
                    SpecServerStep::Request {
                        method,
                        path,
                        table: spec_table(headers),
                        body_start: end,
                        body: bl,
                    },
                ),
            },
        }
    }
}

/// The step a client-side connection in state `v` takes when `data`
/// arrives, and its state afterwards. Like the server side, but parsing
/// a status line, and framing resolved for a response: no
/// content-length means the body runs until the server closes.
pub open spec fn spec_client_step(v: ConnView, data: Seq<u8>) -> (ConnView, SpecClientStep) {
    let s = v.bytes + data;
    let grown = ConnView { bytes: s, ..v };
    if v.msg is Some {
        (grown, SpecClientStep::NeedMore)
    } else {
        match spec_parse_resp_head(s, v.max_headers) {
            SpecRespHead::Partial => if s.len() > v.max_head {
                (grown, SpecClientStep::Fail(ResponseErrorKind::HeadTooLong))
            } else {
                (grown, SpecClientStep::NeedMore)
            },
            SpecRespHead::Malformed => (grown, SpecClientStep::Fail(ResponseErrorKind::ParseHead)),
            SpecRespHead::TooManyHeaders => (grown, SpecClientStep::Fail(
                ResponseErrorKind::ParseHead,
            )),
            SpecRespHead::Complete { code, reason: _, headers, end } => match spec_resolve(
                headers,
                false,
            ) {
                Err(FramingError::InvalidContentLength) => (grown, SpecClientStep::Fail(
                    ResponseErrorKind::ParseInt,
                )),
                Err(FramingError::InvalidMessageFraming) => (grown, SpecClientStep::Fail(
                    ResponseErrorKind::InvalidMessageFraming,
                )),
                Err(FramingError::UnsupportedTransferEncoding) => (grown, SpecClientStep::Fail(
                    ResponseErrorKind::UnsupportedTransferEncoding,
                )),
                Ok(bl) => (
                    ConnView { bytes: s, msg: Some(MsgView { head_len: end, body: bl }), ..v },
                    SpecClientStep::Response {
                        code,
                        table: spec_table(headers),
                        body_start: end,
                        body: bl,
                    },
                ),
            },
        }
    }
}

/// One connection's buffer and message state. The same machinery serves
/// both sides: a server connection reads requests, a client connection
/// reads responses.
pub struct Connection {
    buf: Vec<u8>,
    have_msg: bool,
    head_len: usize,
    body: BodyLength,
    max_headers: usize,
    max_head: usize,
    eof_seen: bool,
}

impl View for Connection {
    type V = ConnView;

    closed spec fn view(&self) -> ConnView {
        ConnView {
            bytes: self.buf@,
            msg: if self.have_msg {
                Some(MsgView { head_len: self.head_len as int, body: self.body })
            } else {
                None
            },
            max_headers: self.max_headers as nat,
            max_head: self.max_head as nat,
            eof_seen: self.eof_seen,
        }
    }
}

impl Connection {
    /// The head of the current message lies inside the buffer.
    pub closed spec fn wf(&self) -> bool {
        self.have_msg ==> self.head_len <= self.buf@.len()
    }

    /// A fresh connection with the given limits: at most `max_headers`
    /// headers in a head, and at most `max_head` buffered bytes while a
    /// head is incomplete.
    pub fn new(max_headers: usize, max_head: usize) -> (r: Connection)
        ensures
            r.wf(),
            r@ == (ConnView {
                bytes: Seq::<u8>::empty(),
                msg: None::<MsgView>,
                max_headers: max_headers as nat,
                max_head: max_head as nat,
                eof_seen: false,
            }),
    {
        let r = Connection {
            buf: Vec::new(),
            have_msg: false,
            head_len: 0,
            body: BodyLength::Empty,
            max_headers,
            max_head,
            eof_seen: false,
        };
        proof {
            assert(r@.bytes =~= Seq::<u8>::empty());
        }
        r
    }

    /// Feeds freshly read bytes to a server-side connection and takes
    /// the next step, exactly as `spec_server_step` states it.
    pub fn next_request(&mut self, data: &[u8]) -> (r: ServerStep)
        requires
            old(self).wf(),
        ensures
            final(self).wf(),
            (final(self)@, r@) == spec_server_step(old(self)@, data@),
            r matches ServerStep::Request(req) ==> req.headers.wf(),
    {
        crate::bytes::append_bytes(&mut self.buf, data);
        if self.have_msg {
            return ServerStep::NeedMore;
        }
        match crate::parse::parse_req_head(self.buf.as_slice(), self.max_headers) {
            crate::parse::ReqParse::Partial => {
                if self.buf.len() > self.max_head {
                    ServerStep::Fail(ConnectionError::head_too_long())
                } else {
                    ServerStep::NeedMore
                }
            },
            crate::parse::ReqParse::Malformed => ServerStep::Fail(ConnectionError::request_error()),
            crate::parse::ReqParse::TooManyHeaders => ServerStep::ReplyTooManyHeaders,
            crate::parse::ReqParse::Complete(h) => {
                match crate::framing::resolve_framing(&h.headers, true) {
                    Err(e) => ServerStep::Fail(ConnectionError::framing(e)),
                    Ok(bl) => {
                        self.have_msg = true;
                        self.head_len = h.end;
                        self.body = bl;
                        let table = Headers::from_raw(&h.headers);
                        let req = Request {
                            method: h.method,
                            path: h.path,
                            headers: table,
                            body: Body { kind: BodyKind::Conn { start: h.end, length: bl } },
                        };
                        ServerStep::Request(req)
                    },
                }
            },
        }
    }

    /// Feeds freshly read bytes to a client-side connection and takes
    /// the next step, exactly as `spec_client_step` states it.
    pub fn next_response(&mut self, data: &[u8]) -> (r: ClientStep)
        requires
            old(self).wf(),
        ensures
            final(self).wf(),
            (final(self)@, r@) == spec_client_step(old(self)@, data@),
            r matches ClientStep::Response(resp) ==> resp.headers.wf(),
    {
        crate::bytes::append_bytes(&mut self.buf, data);
        if self.have_msg {
            return ClientStep::NeedMore;
        }
        match crate::parse::parse_resp_head(self.buf.as_slice(), self.max_headers) {
            crate::parse::RespParse::Partial => {
                if self.buf.len() > self.max_head {
                    ClientStep::Fail(ResponseError { kind: ResponseErrorKind::HeadTooLong })
                } else {
                    ClientStep::NeedMore
                }
            },
            crate::parse::RespParse::Malformed => ClientStep::Fail(
                ResponseError { kind: ResponseErrorKind::ParseHead },
            ),
            crate::parse::RespParse::TooManyHeaders => ClientStep::Fail(
                ResponseError { kind: ResponseErrorKind::ParseHead },
            ),
            crate::parse::RespParse::Complete(h) => {
                match crate::framing::resolve_framing(&h.headers, false) {
                    Err(FramingError::InvalidContentLength) => ClientStep::Fail(
                        ResponseError { kind: ResponseErrorKind::ParseInt },
                    ),
                    Err(FramingError::InvalidMessageFraming) => ClientStep::Fail(
                        ResponseError { kind: ResponseErrorKind::InvalidMessageFraming },
                    ),
                    Err(FramingError::UnsupportedTransferEncoding) => ClientStep::Fail(
                        ResponseError { kind: ResponseErrorKind::UnsupportedTransferEncoding },
                    ),
                    Ok(bl) => {
                        self.have_msg = true;
                        self.head_len = h.end;
                        self.body = bl;
                        let table = Headers::from_raw(&h.headers);
                        let resp = Response {
                            code: h.code,
                            headers: table,
                            body: Body { kind: BodyKind::Conn { start: h.end, length: bl } },
                        };
                        ClientStep::Response(resp)
                    },
                }
            },
        }
    }

    /// Notes that the peer closed the connection.
    pub fn on_eof(&mut self)
        ensures
            final(self)@ == (ConnView { eof_seen: true, ..old(self)@ }),
            final(self).wf() == old(self).wf(),
    {
        self.eof_seen = true;
    }

    /// How an end of stream is classified: a clean close when nothing
    /// was buffered and no message was in flight, an unexpected end
    /// otherwise.
    pub fn eof_status(&self) -> (r: ConnectionError)
        ensures
            r.spec_kind() == if self@.msg is None && self@.bytes.len() == 0 {
                ConnectionErrorKind::Closed
            } else {
                ConnectionErrorKind::UnexpectedEof
            },
    {
        if !self.have_msg && self.buf.len() == 0 {
            ConnectionError::closed()
        } else {
            ConnectionError::unexpected_eof()
        }
    }

    /// Whether the current message's body has fully arrived.
    pub fn body_complete(&self) -> (r: bool)
        requires
            self.wf(),
            self@.msg is Some,
        ensures
            r == match self@.msg {
                Some(m) => match m.body {
                    BodyLength::Known(n) => m.head_len + n <= self@.bytes.len(),
                    BodyLength::Empty => true,
                    BodyLength::Unknown => self@.eof_seen,
                },
                None => false,
            },
    {
        let blen = self.buf.len();
        match self.body {
            BodyLength::Known(n) => {
                n <= usize::MAX - self.head_len && self.head_len + n <= blen
            },
            BodyLength::Empty => true,
            BodyLength::Unknown => self.eof_seen,
        }
    }

    /// The bytes of the current message's body, once they have all
    /// arrived: the buffer range right after the head for a known
    /// length, nothing for an empty body, and everything up to the close
    /// for an unknown length.
    pub fn body_bytes(&self) -> (r: Option<Vec<u8>>)
        requires
            self.wf(),
            self@.msg is Some,
        ensures
            match self@.msg {
                Some(m) => match m.body {
                    BodyLength::Known(n) => if m.head_len + n <= self@.bytes.len() {
                        r matches Some(v) && v@ == self@.bytes.subrange(
                            m.head_len,
                            m.head_len + n,
                        )
                    } else {
                        r is None
                    },
                    BodyLength::Empty => r matches Some(v) && v@ == Seq::<u8>::empty(),
                    BodyLength::Unknown => if self@.eof_seen {
                        r matches Some(v) && v@ == self@.bytes.skip(m.head_len)
                    } else {
                        r is None
                    },
                },
                None => true,
            },
    {
        let blen = self.buf.len();
        match self.body {
            BodyLength::Known(n) => {
                if n <= usize::MAX - self.head_len && self.head_len + n <= blen {
                    Some(
                        crate::bytes::copy_range(self.buf.as_slice(), self.head_len, self.head_len + n),
                    )
                } else {
                    None
                }
            },
            BodyLength::Empty => {
                let v: Vec<u8> = Vec::new();
                proof {
                    assert(v@ =~= Seq::<u8>::empty());
                }
                Some(v)
            },
            BodyLength::Unknown => {
                if self.eof_seen {
                    let v = crate::bytes::copy_range(
                        self.buf.as_slice(),
                        self.head_len,
                        self.buf.len(),
                    );
                    proof {
                        assert(v@ =~= self@.bytes.skip(self@.msg->0.head_len));
                    }
                    Some(v)
                } else {
                    None
                }
            },
        }
    }

    /// Finishes the current message: drops its head and its body from
    /// the buffer, keeping any pipelined bytes of the next message, and
    /// returns to awaiting a head. The body must have fully arrived and
    /// have a known extent.
    pub fn finish_message(&mut self)
        requires
            old(self).wf(),
            old(self)@.msg matches Some(m) && !(m.body is Unknown) && spec_consumed(m) <= old(
                self,
            )@.bytes.len(),
        ensures
            final(self).wf(),
            final(self)@ == spec_finish(old(self)@),
    {
        let blen = self.buf.len();
        let consumed: usize = match self.body {
            BodyLength::Known(n) => self.head_len + n,
            BodyLength::Empty => self.head_len,
            BodyLength::Unknown => self.head_len,
        };
        let rest = crate::bytes::copy_range(self.buf.as_slice(), consumed, blen);
        self.buf = rest;
        self.have_msg = false;
        self.head_len = 0;
        self.body = BodyLength::Empty;
        proof {
            assert(self@.bytes =~= old(self)@.bytes.skip(spec_consumed(old(self)@.msg->0)));
        }
    }
}

/// The state a connection returns to when its current message is
/// finished: the message's bytes leave the buffer, pipelined bytes of
/// the next message stay, and the connection awaits a head again.
pub open spec fn spec_finish(v: ConnView) -> ConnView
    recommends
        v.msg is Some,
{
    ConnView { bytes: v.bytes.skip(spec_consumed(v.msg->0)), msg: None, ..v }
}

/// Keep-alive without cross-contamination, sequential delivery: when a
/// request occupies exactly the bytes fed to a connection with an empty
/// buffer, finishing it leaves the connection with an empty buffer
/// again, and the next bytes are decided exactly as they would be on
/// the connection as it stood before the first request.
pub proof fn lemma_keep_alive_fresh(v: ConnView, r1: Seq<u8>, r2: Seq<u8>)
    requires
        v.msg is None,
        v.bytes.len() == 0,
        spec_server_step(v, r1).1 is Request,
        spec_consumed(spec_server_step(v, r1).0.msg->0) == r1.len(),
    ensures
        spec_finish(spec_server_step(v, r1).0) == v,
        spec_server_step(spec_finish(spec_server_step(v, r1).0), r2) == spec_server_step(v, r2),
{
    let after = spec_server_step(v, r1).0;
    assert(after.bytes =~= r1);
    assert(spec_finish(after).bytes =~= v.bytes);
}

/// Keep-alive without cross-contamination, pipelined delivery: when two
/// messages arrive in one read and the first request occupies exactly
/// the first part, finishing it leaves exactly the second part in the
/// buffer, which then parses as if it had been fed alone.
pub proof fn lemma_keep_alive_pipelined(v: ConnView, r1: Seq<u8>, r2: Seq<u8>)
    requires
        v.msg is None,
        v.bytes.len() == 0,
        spec_server_step(v, r1 + r2).1 is Request,
        spec_consumed(spec_server_step(v, r1 + r2).0.msg->0) == r1.len(),
    ensures
        spec_finish(spec_server_step(v, r1 + r2).0).bytes == r2,
        spec_server_step(spec_finish(spec_server_step(v, r1 + r2).0), Seq::<u8>::empty())
            == spec_server_step(v, r2),
{
    let after = spec_server_step(v, r1 + r2).0;
    assert(after.bytes =~= r1 + r2);
    assert(spec_finish(after).bytes =~= r2);
    assert(spec_finish(after).bytes + Seq::<u8>::empty() =~= v.bytes + r2);
}

/// Feeding a head in two pieces is the same as feeding it whole: when
/// the first piece leaves the connection waiting for more bytes, the
/// step taken on the second piece equals the step taken on the
/// concatenation, state and result alike.
pub proof fn lemma_server_split_feed(v: ConnView, a: Seq<u8>, b: Seq<u8>)
    requires
        spec_server_step(v, a).1 is NeedMore,
    ensures
        spec_server_step(spec_server_step(v, a).0, b) == spec_server_step(v, a + b),
{
    assert((v.bytes + a) + b =~= v.bytes + (a + b));
}

/// The client-side twin of `lemma_server_split_feed`.
pub proof fn lemma_client_split_feed(v: ConnView, a: Seq<u8>, b: Seq<u8>)
    requires
        spec_client_step(v, a).1 is NeedMore,
    ensures
        spec_client_step(spec_client_step(v, a).0, b) == spec_client_step(v, a + b),
{
    assert((v.bytes + a) + b =~= v.bytes + (a + b));
}

} // verus!

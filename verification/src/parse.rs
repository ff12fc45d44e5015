//! The incremental HTTP/1.1 head parser.
//!
//! A head is a request line or status line followed by header lines,
//! terminated by an empty line; every line ends with CRLF.  The parser is
//! a pure function of the bytes seen so far: `Partial` means the bytes
//! are not yet a complete head, and feeding more bytes re-runs the parse
//! on the longer buffer.

use vstd::prelude::*;
use crate::header::RawHeader;
use crate::message::{Method, get_bytes, http11, post_bytes};

verus! {

/// What scanning for the end of a line found.
pub enum LineStatus {
    /// The buffer ends before the line does.
    Partial,
    /// A bare CR or LF: malformed.
    Bad,
    /// The line's content ends at the returned index, where CRLF begins.
    Done,
}

/// Scans for the end of the line starting at `from`: the first CR or LF
/// at or after `from` decides. A CR followed by LF ends the line; a CR at
/// the end of the buffer is `Partial`; any other CR or a bare LF is
/// `Bad`; no CR or LF at all is `Partial`.
pub open spec fn scan_line(s: Seq<u8>, from: int) -> (LineStatus, int)
    decreases s.len() - from,
{
    if from < 0 || from >= s.len() {
        (LineStatus::Partial, 0)
    } else if s[from] == 13 {
        if from + 1 >= s.len() {
            (LineStatus::Partial, 0)
        } else if s[from + 1] == 10 {
            (LineStatus::Done, from)
        } else {
            (LineStatus::Bad, 0)
        }
    } else if s[from] == 10 {
        (LineStatus::Bad, 0)
    } else {
        scan_line(s, from + 1)
    }
}

/// The executable line scan.
pub enum LineScan {
    Partial,
    Bad,
    Done { end: usize },
}

/// Scans for the end of the line starting at `from`, as `scan_line`
/// states it.
pub fn scan_line_exec(s: &[u8], from: usize) -> (r: LineScan)
    requires
        from <= s@.len(),
    ensures
        match r {
            LineScan::Partial => scan_line(s@, from as int).0 is Partial,
            LineScan::Bad => scan_line(s@, from as int).0 is Bad,
            LineScan::Done { end } => scan_line(s@, from as int) == (LineStatus::Done, end as int)
                && from <= end && end + 2 <= s@.len(),
        },
{
    let mut j: usize = from;
    while j < s.len()
        invariant
            from <= j <= s@.len(),
            scan_line(s@, from as int) == scan_line(s@, j as int),
        decreases s@.len() - j,
    {
        if s[j] == 13 {
            if j + 1 < s.len() {
                if s[j + 1] == 10 {
                    return LineScan::Done { end: j };
                } else {
                    return LineScan::Bad;
                }
            } else {
                return LineScan::Partial;
            }
        } else if s[j] == 10 {
            return LineScan::Bad;
        }
        j = j + 1;
    }
    LineScan::Partial
}

/// The first index at or after `from` where byte `b` occurs, if any.
pub open spec fn find_byte(c: Seq<u8>, from: int, b: u8) -> (bool, int)
    decreases c.len() - from,
{
    if from < 0 || from >= c.len() {
        (false, 0)
    } else if c[from] == b {
        (true, from)
    } else {
        find_byte(c, from + 1, b)
    }
}

/// Finds the first occurrence of `b` at or after `from`, as `find_byte`
/// states it.
pub fn find_byte_exec(c: &[u8], from: usize, b: u8) -> (r: Option<usize>)
    requires
        from <= c@.len(),
    ensures
        match r {
            Some(i) => find_byte(c@, from as int, b) == (true, i as int) && from <= i
                && i < c@.len(),
            None => !find_byte(c@, from as int, b).0,
        },
{
    let mut j: usize = from;
    while j < c.len()
        invariant
            from <= j <= c@.len(),
            find_byte(c@, from as int, b) == find_byte(c@, j as int, b),
        decreases c@.len() - j,
    {
        if c[j] == b {
            return Some(j);
        }
        j = j + 1;
    }
    None
}

/// The first index at or after `from` that is not a space or horizontal
/// tab, or the end of the buffer.
pub open spec fn skip_ows(c: Seq<u8>, from: int) -> int
    decreases c.len() - from,
{
    if from < 0 || from >= c.len() {
        c.len() as int
    } else if c[from] == 32 || c[from] == 9 {
        skip_ows(c, from + 1)
    } else {
        from
    }
}

/// Skips optional whitespace, as `skip_ows` states it.
pub fn skip_ows_exec(c: &[u8], from: usize) -> (r: usize)
    requires
        from <= c@.len(),
    ensures
        r as int == skip_ows(c@, from as int),
        from <= r <= c@.len(),
{
    let mut j: usize = from;
    while j < c.len()
        invariant
            from <= j <= c@.len(),
            skip_ows(c@, from as int) == skip_ows(c@, j as int),
        decreases c@.len() - j,
    {
        if !(c[j] == 32 || c[j] == 9) {
            return j;
        }
        j = j + 1;
    }
    j
}

/// Scanning from `from` finds the line end at `p` when the bytes up to
/// `p` are plain line bytes and CRLF stands at `p`.
pub proof fn lemma_scan_line_at(s: Seq<u8>, from: int, p: int)
    requires
        0 <= from <= p,
        p + 2 <= s.len(),
        forall|i: int| from <= i < p ==> s[i] != 13 && s[i] != 10,
        s[p] == 13,
        s[p + 1] == 10,
    ensures
        scan_line(s, from) == (LineStatus::Done, p),
    decreases p - from,
{
    if from < p {
        lemma_scan_line_at(s, from + 1, p);
    }
}

/// Searching from `from` finds `b` at `p` when no earlier byte is `b`.
pub proof fn lemma_find_byte_at(c: Seq<u8>, from: int, p: int, b: u8)
    requires
        0 <= from <= p < c.len(),
        forall|i: int| from <= i < p ==> c[i] != b,
        c[p] == b,
    ensures
        find_byte(c, from, b) == (true, p),
    decreases p - from,
{
    if from < p {
        lemma_find_byte_at(c, from + 1, p, b);
    }
}

/// What a request line `METHOD SP path SP HTTP/1.1` parses to: the
/// method must be a supported one, the path non-empty, and the version
/// exactly `HTTP/1.1`.
pub open spec fn spec_parse_request_line(c: Seq<u8>) -> Option<(Method, Seq<u8>)> {
    let f1 = find_byte(c, 0, 32);
    if !f1.0 {
        None
    } else {
        let i = f1.1;
        let f2 = find_byte(c, i + 1, 32);
        if !f2.0 {
            None
        } else {
            let j = f2.1;
            let m = c.take(i);
            let path = c.subrange(i + 1, j);
            let version = c.skip(j + 1);
            if path.len() > 0 && version == http11() {
                if m == get_bytes() {
                    Some((Method::Get, path))
                } else if m == post_bytes() {
                    Some((Method::Post, path))
                } else {
                    None
                }
            } else {
                None
            }
        }
    }
}

/// Parses a request line, as `spec_parse_request_line` states it.
pub fn parse_request_line(c: &[u8]) -> (r: Option<(Method, Vec<u8>)>)
    ensures
        match r {
            Some(mp) => spec_parse_request_line(c@) == Some((mp.0, mp.1@)),
            None => spec_parse_request_line(c@) is None,
        },
{
    let n = c.len();
    let i = match find_byte_exec(c, 0, 32) {
        Some(i) => i,
        None => {
            return None;
        },
    };
    let j = match find_byte_exec(c, i + 1, 32) {
        Some(j) => j,
        None => {
            return None;
        },
    };
    if j == i + 1 {
        // Empty path.
        proof {
            assert(c@.subrange(i + 1, j as int).len() == 0);
        }
        return None;
    }
    let version_ok = {
        let v = crate::message::http11_token();
        let tail: &[u8] = &c[j + 1..n];
        proof {
            assert(tail@ =~= c@.skip(j + 1));
        }
        crate::bytes::bytes_eq(tail, v.as_slice())
    };
    if !version_ok {
        return None;
    }
    let head: &[u8] = &c[0..i];
    proof {
        assert(head@ =~= c@.take(i as int));
    }
    let g = crate::message::get_token();
    let p = crate::message::post_token();
    let method = if crate::bytes::bytes_eq(head, g.as_slice()) {
        Method::Get
    } else if crate::bytes::bytes_eq(head, p.as_slice()) {
        Method::Post
    } else {
        return None;
    };
    let path = crate::bytes::copy_range(c, i + 1, j);
    Some((method, path))
}

/// What a header line `name: value` parses to: the name is everything
/// before the first colon and must be non-empty; the value is the rest
/// with leading spaces and tabs removed.
pub open spec fn spec_parse_header_line(c: Seq<u8>) -> Option<(Seq<u8>, Seq<u8>)> {
    let f = find_byte(c, 0, 58);
    if !f.0 || f.1 == 0 {
        None
    } else {
        let k = f.1;
        Some((c.take(k), c.skip(skip_ows(c, k + 1))))
    }
}

/// Parses a header line, as `spec_parse_header_line` states it.
pub fn parse_header_line(c: &[u8]) -> (r: Option<RawHeader>)
    ensures
        match r {
            Some(h) => spec_parse_header_line(c@) == Some((h.name@, h.value@)),
            None => spec_parse_header_line(c@) is None,
        },
{
    let n = c.len();
    let k = match find_byte_exec(c, 0, 58) {
        Some(k) => k,
        None => {
            return None;
        },
    };
    if k == 0 {
        return None;
    }
    let v = skip_ows_exec(c, k + 1);
    let name = crate::bytes::copy_range(c, 0, k);
    let value = crate::bytes::copy_range(c, v, n);
    proof {
        assert(name@ =~= c@.take(k as int));
        assert(value@ =~= c@.skip(skip_ows(c@, k + 1)));
    }
    Some(RawHeader { name, value })
}

/// What a block of header lines parses to.
pub enum SpecHeaders {
    /// The buffer ends inside the block.
    Partial,
    /// A malformed line.
    Bad,
    /// More than `left` header lines.
    TooMany,
    /// The parsed headers in order, and the index just past the empty
    /// line that ends the block.
    Done { headers: Seq<(Seq<u8>, Seq<u8>)>, end: int },
}

/// Parses header lines from `from` until the empty line, allowing at
/// most `left` of them.
pub open spec fn spec_parse_headers(s: Seq<u8>, from: int, left: nat) -> SpecHeaders
    decreases left,
{
    let sl = scan_line(s, from);
    match sl.0 {
        LineStatus::Partial => SpecHeaders::Partial,
        LineStatus::Bad => SpecHeaders::Bad,
        LineStatus::Done => {
            let end = sl.1;
            if end == from {
                SpecHeaders::Done { headers: Seq::empty(), end: from + 2 }
            } else if left == 0 {
                SpecHeaders::TooMany
            } else {
                match spec_parse_header_line(s.subrange(from, end)) {
                    None => SpecHeaders::Bad,
                    Some(h) => match spec_parse_headers(s, end + 2, (left - 1) as nat) {
                        SpecHeaders::Done { headers, end: e2 } => SpecHeaders::Done {
                            headers: seq![h] + headers,
                            end: e2,
                        },
                        other => other,
                    },
                }
            }
        },
    }
}

/// `r` with `a` prepended to its headers when it is `Done`.
pub open spec fn with_prefix(a: Seq<(Seq<u8>, Seq<u8>)>, r: SpecHeaders) -> SpecHeaders {
    match r {
        SpecHeaders::Done { headers, end } => SpecHeaders::Done { headers: a + headers, end },
        other => other,
    }
}

/// The executable header-block parse.
pub enum HeadersScan {
    Partial,
    Bad,
    TooMany,
    Done { headers: Vec<RawHeader>, end: usize },
}

/// Parses the header block starting at `from`, as `spec_parse_headers`
/// states it.
pub fn parse_headers(s: &[u8], from: usize, max: usize) -> (r: HeadersScan)
    requires
        from <= s@.len(),
    ensures
        match r {
            HeadersScan::Partial => spec_parse_headers(s@, from as int, max as nat)
                is Partial,
            HeadersScan::Bad => spec_parse_headers(s@, from as int, max as nat) is Bad,
            HeadersScan::TooMany => spec_parse_headers(s@, from as int, max as nat) is TooMany,
            HeadersScan::Done { headers, end } => spec_parse_headers(s@, from as int, max as nat)
                == (SpecHeaders::Done { headers: headers.deep_view(), end: end as int }) && from
                <= end <= s@.len(),
        },
{
    let n = s.len();
    let mut acc: Vec<RawHeader> = Vec::new();
    let mut cur: usize = from;
    let mut left: usize = max;
    proof {
        assert(acc.deep_view() =~= Seq::<(Seq<u8>, Seq<u8>)>::empty());
        match spec_parse_headers(s@, from as int, max as nat) {
            SpecHeaders::Done { headers, end } => {
                assert(acc.deep_view() + headers =~= headers);
            },
            _ => {},
        }
    }
    loop
        invariant
            n == s@.len(),
            from <= cur <= s@.len(),
            left <= max,
            spec_parse_headers(s@, from as int, max as nat) == with_prefix(
                acc.deep_view(),
                spec_parse_headers(s@, cur as int, left as nat),
            ),
        decreases left,
    {
        let ghost acc0 = acc.deep_view();
        match scan_line_exec(s, cur) {
            LineScan::Partial => {
                return HeadersScan::Partial;
            },
            LineScan::Bad => {
                return HeadersScan::Bad;
            },
            LineScan::Done { end } => {
                if end == cur {
                    proof {
                        assert(acc0 + Seq::<(Seq<u8>, Seq<u8>)>::empty() =~= acc0);
                    }
                    return HeadersScan::Done { headers: acc, end: cur + 2 };
                }
                if left == 0 {
                    return HeadersScan::TooMany;
                }
                let content: &[u8] = &s[cur..end];
                proof {
                    assert(content@ =~= s@.subrange(cur as int, end as int));
                }
                match parse_header_line(content) {
                    None => {
                        return HeadersScan::Bad;
                    },
                    Some(h) => {
                        let ghost hv = (h.name@, h.value@);
                        acc.push(h);
                        proof {
                            assert(acc.deep_view() =~= acc0.push(hv));
                            let inner = spec_parse_headers(
                                s@,
                                end + 2,
                                (left - 1) as nat,
                            );
                            match inner {
                                SpecHeaders::Done { headers: h2, end: e2 } => {
                                    assert(acc0 + (seq![hv] + h2) =~= acc0.push(hv) + h2);
                                },
                                _ => {},
                            }
                        }
                        cur = end + 2;
                        left = left - 1;
                    },
                }
            },
        }
    }
}


/// No byte of a supported method token is a space, CR, or LF.
proof fn lemma_method_bytes_plain(m: Method)
    ensures
        forall|i: int| 0 <= i < crate::message::method_bytes(m).len() ==> (
            #[trigger] crate::message::method_bytes(m)[i]) != 32
            && crate::message::method_bytes(m)[i] != 13 && crate::message::method_bytes(m)[i]
            != 10,
        crate::message::method_bytes(m).len() >= 3,
{
    let mb = crate::message::method_bytes(m);
    match m {
        Method::Get => {
            assert(mb =~= get_bytes());
            assert(mb[0] == 71 && mb[1] == 69 && mb[2] == 84);
            assert forall|i: int| 0 <= i < mb.len() implies mb[i] != 32 && mb[i] != 13 && mb[i]
                != 10 by {
                if i == 0 {
                } else if i == 1 {
                } else {
                    assert(i == 2);
                }
            }
        },
        Method::Post => {
            assert(mb =~= post_bytes());
            assert(mb[0] == 80 && mb[1] == 79 && mb[2] == 83 && mb[3] == 84);
            assert forall|i: int| 0 <= i < mb.len() implies mb[i] != 32 && mb[i] != 13 && mb[i]
                != 10 by {
                if i == 0 {
                } else if i == 1 {
                } else if i == 2 {
                } else {
                    assert(i == 3);
                }
            }
        },
    }
}

/// No byte of the `HTTP/1.1` token is a CR or LF.
pub proof fn lemma_http11_plain()
    ensures
        forall|i: int| 0 <= i < http11().len() ==> (#[trigger] http11()[i]) != 13 && http11()[i]
            != 10,
{
    let v = http11();
    assert(v[0] == 72 && v[1] == 84 && v[2] == 84 && v[3] == 80 && v[4] == 47 && v[5] == 49
        && v[6] == 46 && v[7] == 49);
    assert forall|i: int| 0 <= i < v.len() implies v[i] != 13 && v[i] != 10 by {
        if i == 0 {
        } else if i == 1 {
        } else if i == 2 {
        } else if i == 3 {
        } else if i == 4 {
        } else if i == 5 {
        } else if i == 6 {
        } else {
            assert(i == 7);
        }
    }
}

/// Round trip of the request head writer and the request head parser:
/// the head written for a method and a path parses back to exactly that
/// method and path, with no headers, consuming the whole head.  The path
/// must be non-empty and free of spaces, CR, and LF, as request paths on
/// the wire are.
pub proof fn lemma_request_head_round_trip(m: Method, path: Seq<u8>, max_headers: nat)
    requires
        path.len() > 0,
        forall|i: int| 0 <= i < path.len() ==> (#[trigger] path[i]) != 32 && path[i] != 13
            && path[i] != 10,
    ensures
        ({
            let s = crate::message::spec_request_head(m, path);
            spec_parse_req_head(s, max_headers) == (SpecReqHead::Complete {
                method: m,
                path: path,
                headers: Seq::<(Seq<u8>, Seq<u8>)>::empty(),
                end: s.len() as int,
            })
        }),
{
    let mb = crate::message::method_bytes(m);
    let s = crate::message::spec_request_head(m, path);
    let sp = crate::message::sp();
    let crlf = crate::message::crlf();
    lemma_method_bytes_plain(m);
    lemma_http11_plain();
    assert(sp[0] == 32);
    assert(crlf[0] == 13 && crlf[1] == 10);
    let ml = mb.len() as int;
    let pl = path.len() as int;
    let p = ml + 1 + pl + 1 + 8;
    assert(s.len() == p + 4);
    // Lay the bytes out.
    assert forall|i: int| 0 <= i < s.len() implies s[i] == (if i < ml {
        mb[i]
    } else if i == ml {
        32u8
    } else if i < ml + 1 + pl {
        path[i - ml - 1]
    } else if i == ml + 1 + pl {
        32u8
    } else if i < p {
        http11()[i - (ml + 1 + pl + 1)]
    } else if i == p || i == p + 2 {
        13u8
    } else {
        10u8
    }) by {}
    // The first line ends exactly at the head's first CR.
    assert forall|i: int| 0 <= i < p implies s[i] != 13 && s[i] != 10 by {}
    lemma_scan_line_at(s, 0, p);
    assert(scan_line(s, 0) == (LineStatus::Done, p));
    // The request line splits at the two spaces.
    let c = s.take(p);
    assert(c.len() == p);
    assert forall|i: int| 0 <= i < p implies c[i] == s[i] by {}
    lemma_find_byte_at(c, 0, ml, 32);
    lemma_find_byte_at(c, ml + 1, ml + 1 + pl, 32);
    assert(c.take(ml) =~= mb);
    assert(c.subrange(ml + 1, ml + 1 + pl) =~= path);
    assert(c.skip(ml + 1 + pl + 1) =~= http11());
    assert(get_bytes().len() == 3 && post_bytes().len() == 4);
    match m {
        Method::Get => {
            assert(mb == get_bytes());
        },
        Method::Post => {
            assert(mb == post_bytes());
            assert(mb != get_bytes());
        },
    }
    assert(spec_parse_request_line(c) == Some((m, path)));
    // The header block is just the final empty line.
    lemma_scan_line_at(s, p + 2, p + 2);
    assert(scan_line(s, p + 2) == (LineStatus::Done, p + 2));
    assert(spec_parse_headers(s, p + 2, max_headers) == (SpecHeaders::Done {
        headers: Seq::<(Seq<u8>, Seq<u8>)>::empty(),
        end: p + 4,
    }));
}

/// What a whole request head parses to.
pub enum SpecReqHead {
    /// The buffer is not yet a complete head.
    Partial,
    /// More header lines than allowed.
    TooManyHeaders,
    /// A malformed request line or header line.
    Malformed,
    /// The parsed head: method, path, raw headers in order, and its
    /// length in bytes.
    Complete { method: Method, path: Seq<u8>, headers: Seq<(Seq<u8>, Seq<u8>)>, end: int },
}

/// Parses a request head: the request line, then at most `max_headers`
/// header lines, then the empty line.
pub open spec fn spec_parse_req_head(s: Seq<u8>, max_headers: nat) -> SpecReqHead {
    let sl = scan_line(s, 0);
    match sl.0 {
        LineStatus::Partial => SpecReqHead::Partial,
        LineStatus::Bad => SpecReqHead::Malformed,
        LineStatus::Done => match spec_parse_request_line(s.take(sl.1)) {
            None => SpecReqHead::Malformed,
            Some(mp) => match spec_parse_headers(s, sl.1 + 2, max_headers) {
                SpecHeaders::Partial => SpecReqHead::Partial,
                SpecHeaders::Bad => SpecReqHead::Malformed,
                SpecHeaders::TooMany => SpecReqHead::TooManyHeaders,
                SpecHeaders::Done { headers, end } => SpecReqHead::Complete {
                    method: mp.0,
                    path: mp.1,
                    headers,
                    end,
                },
            },
        },
    }
}

/// A parsed request head.
pub struct ReqHead {
    pub method: Method,
    pub path: Vec<u8>,
    pub headers: Vec<RawHeader>,
    pub end: usize,
}

/// The executable request-head parse.
pub enum ReqParse {
    Partial,
    TooManyHeaders,
    Malformed,
    Complete(ReqHead),
}

impl View for ReqParse {
    type V = SpecReqHead;

    open spec fn view(&self) -> SpecReqHead {
        match self {
            ReqParse::Partial => SpecReqHead::Partial,
            ReqParse::TooManyHeaders => SpecReqHead::TooManyHeaders,
            ReqParse::Malformed => SpecReqHead::Malformed,
            ReqParse::Complete(h) => SpecReqHead::Complete {
                method: h.method,
                path: h.path@,
                headers: h.headers.deep_view(),
                end: h.end as int,
            },
        }
    }
}

/// Parses a request head from the bytes read so far, as
/// `spec_parse_req_head` states it.
pub fn parse_req_head(s: &[u8], max_headers: usize) -> (r: ReqParse)
    ensures
        r@ == spec_parse_req_head(s@, max_headers as nat),
        r matches ReqParse::Complete(h) ==> h.end <= s@.len(),
{
    let n = s.len();
    match scan_line_exec(s, 0) {
        LineScan::Partial => ReqParse::Partial,
        LineScan::Bad => ReqParse::Malformed,
        LineScan::Done { end } => {
            let content: &[u8] = &s[0..end];
            proof {
                assert(content@ =~= s@.take(end as int));
            }
            match parse_request_line(content) {
                None => ReqParse::Malformed,
                Some((method, path)) => {
                    match parse_headers(s, end + 2, max_headers) {
                        HeadersScan::Partial => ReqParse::Partial,
                        HeadersScan::Bad => ReqParse::Malformed,
                        HeadersScan::TooMany => ReqParse::TooManyHeaders,
                        HeadersScan::Done { headers, end: head_end } => ReqParse::Complete(
                            ReqHead { method, path, headers, end: head_end },
                        ),
                    }
                },
            }
        },
    }
}

/// What a status line `HTTP/1.1 NNN reason` parses to: the version must
/// be exactly `HTTP/1.1`, the code exactly three digits; the reason is
/// whatever follows the space after the code, and may be absent.
pub open spec fn spec_parse_status_line(c: Seq<u8>) -> Option<(u16, Seq<u8>)> {
    if c.len() >= 12 && c.take(8) == http11() && c[8] == 32 && crate::decimal::is_digit(c[9])
        && crate::decimal::is_digit(c[10]) && crate::decimal::is_digit(c[11]) && (c.len() == 12
        || c[12] == 32) {
        Some(
            (
                ((c[9] - 48) * 100 + (c[10] - 48) * 10 + (c[11] - 48)) as u16,
                if c.len() == 12 {
                    Seq::empty()
                } else {
                    c.skip(13)
                },
            ),
        )
    } else {
        None
    }
}

/// Parses a status line, as `spec_parse_status_line` states it.
pub fn parse_status_line(c: &[u8]) -> (r: Option<(u16, Vec<u8>)>)
    ensures
        match r {
            Some(cr) => spec_parse_status_line(c@) == Some((cr.0, cr.1@)) && cr.0 <= 999,
            None => spec_parse_status_line(c@) is None,
        },
{
    let n = c.len();
    if n < 12 {
        return None;
    }
    let v = crate::message::http11_token();
    let version: &[u8] = &c[0..8];
    proof {
        assert(version@ =~= c@.take(8));
    }
    if !crate::bytes::bytes_eq(version, v.as_slice()) {
        return None;
    }
    if c[8] != 32 {
        return None;
    }
    let d1 = c[9];
    let d2 = c[10];
    let d3 = c[11];
    if !(48 <= d1 && d1 <= 57 && 48 <= d2 && d2 <= 57 && 48 <= d3 && d3 <= 57) {
        return None;
    }
    if n > 12 && c[12] != 32 {
        return None;
    }
    let code: u16 = ((d1 - 48) as u16) * 100 + ((d2 - 48) as u16) * 10 + ((d3 - 48) as u16);
    let reason: Vec<u8> = if n == 12 {
        Vec::new()
    } else {
        crate::bytes::copy_range(c, 13, n)
    };
    proof {
        if n == 12 {
            assert(reason@ =~= Seq::<u8>::empty());
        } else {
            assert(reason@ =~= c@.skip(13));
        }
    }
    Some((code, reason))
}

/// What a whole response head parses to.
pub enum SpecRespHead {
    /// The buffer is not yet a complete head.
    Partial,
    /// More header lines than allowed.
    TooManyHeaders,
    /// A malformed status line or header line.
    Malformed,
    /// The parsed head: status code, reason bytes, raw headers in order,
    /// and its length in bytes.
    Complete { code: u16, reason: Seq<u8>, headers: Seq<(Seq<u8>, Seq<u8>)>, end: int },
}

/// Parses a response head: the status line, then at most `max_headers`
/// header lines, then the empty line.
pub open spec fn spec_parse_resp_head(s: Seq<u8>, max_headers: nat) -> SpecRespHead {
    let sl = scan_line(s, 0);
    match sl.0 {
        LineStatus::Partial => SpecRespHead::Partial,
        LineStatus::Bad => SpecRespHead::Malformed,
        LineStatus::Done => match spec_parse_status_line(s.take(sl.1)) {
            None => SpecRespHead::Malformed,
            Some(cr) => match spec_parse_headers(s, sl.1 + 2, max_headers) {
                SpecHeaders::Partial => SpecRespHead::Partial,
                SpecHeaders::Bad => SpecRespHead::Malformed,
                SpecHeaders::TooMany => SpecRespHead::TooManyHeaders,
                SpecHeaders::Done { headers, end } => SpecRespHead::Complete {
                    code: cr.0,
                    reason: cr.1,
                    headers,
                    end,
                },
            },
        },
    }
}

/// A parsed response head.
pub struct RespHead {
    pub code: u16,
    pub reason: Vec<u8>,
    pub headers: Vec<RawHeader>,
    pub end: usize,
}

/// The executable response-head parse.
pub enum RespParse {
    Partial,
    TooManyHeaders,
    Malformed,
    Complete(RespHead),
}

impl View for RespParse {
    type V = SpecRespHead;

    open spec fn view(&self) -> SpecRespHead {
        match self {
            RespParse::Partial => SpecRespHead::Partial,
            RespParse::TooManyHeaders => SpecRespHead::TooManyHeaders,
            RespParse::Malformed => SpecRespHead::Malformed,
            RespParse::Complete(h) => SpecRespHead::Complete {
                code: h.code,
                reason: h.reason@,
                headers: h.headers.deep_view(),
                end: h.end as int,
            },
        }
    }
}

/// Parses a response head from the bytes read so far, as
/// `spec_parse_resp_head` states it.
pub fn parse_resp_head(s: &[u8], max_headers: usize) -> (r: RespParse)
    ensures
        r@ == spec_parse_resp_head(s@, max_headers as nat),
        r matches RespParse::Complete(h) ==> h.end <= s@.len(),
{
    let n = s.len();
    match scan_line_exec(s, 0) {
        LineScan::Partial => RespParse::Partial,
        LineScan::Bad => RespParse::Malformed,
        LineScan::Done { end } => {
            let content: &[u8] = &s[0..end];
            proof {
                assert(content@ =~= s@.take(end as int));
            }
            match parse_status_line(content) {
                None => RespParse::Malformed,
                Some((code, reason)) => {
                    match parse_headers(s, end + 2, max_headers) {
                        HeadersScan::Partial => RespParse::Partial,
                        HeadersScan::Bad => RespParse::Malformed,
                        HeadersScan::TooMany => RespParse::TooManyHeaders,
                        HeadersScan::Done { headers, end: head_end } => RespParse::Complete(
                            RespHead { code, reason, headers, end: head_end },
                        ),
                    }
                },
            }
        },
    }
}

} // verus!
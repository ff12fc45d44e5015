//! Round trip of the response writer and the response parser: the bytes
//! the engine writes for a response parse back to exactly that response.

use vstd::prelude::*;
use crate::decimal::{all_digits, dec_digits, dec_val, is_digit, lemma_dec_digits_props};
use crate::framing::{BodyLength, spec_resolve};
use crate::header::{content_length_name, date_name, transfer_encoding_name};
use crate::message::{
    cl_field_prefix, crlf, date_field_prefix, http11, is_known_code, not_found_reason, ok_reason,
    sp, spec_reason, spec_serialize_response, too_large_reason,
};
use crate::parse::{
    SpecHeaders, SpecRespHead, lemma_find_byte_at, lemma_scan_line_at, skip_ows,
    spec_parse_headers, spec_parse_resp_head, spec_parse_status_line,
};

verus! {

/// Skipping whitespace from `from` stops at `p` when everything before
/// `p` is whitespace and `p` is the end or holds something else.
proof fn lemma_skip_ows_at(c: Seq<u8>, from: int, p: int)
    requires
        0 <= from <= p <= c.len(),
        forall|i: int| from <= i < p ==> c[i] == 32 || c[i] == 9,
        p == c.len() || (c[p] != 32 && c[p] != 9),
    ensures
        skip_ows(c, from) == p,
    decreases p - from,
{
    if from < p {
        lemma_skip_ows_at(c, from + 1, p);
    }
}

/// A byte sequence whose bytes can all appear inside a header line:
/// no CR, no LF.
pub open spec fn line_safe(s: Seq<u8>) -> bool {
    forall|i: int| 0 <= i < s.len() ==> (#[trigger] s[i]) != 13 && s[i] != 10
}

/// The fixed reason phrases contain no CR and no LF.
proof fn lemma_reasons_line_safe(code: u16)
    requires
        is_known_code(code),
    ensures
        line_safe(spec_reason(code)),
        spec_reason(code).len() >= 2,
{
    let r = spec_reason(code);
    if code == 200 {
        assert(r =~= ok_reason());
        assert(r[0] == 79 && r[1] == 75);
        assert forall|i: int| 0 <= i < r.len() implies r[i] != 13 && r[i] != 10 by {
            if i == 0 {
            } else {
                assert(i == 1);
            }
        }
    } else if code == 404 {
        assert(r =~= not_found_reason());
        assert(r[0] == 78 && r[1] == 111 && r[2] == 116 && r[3] == 32 && r[4] == 70 && r[5] == 111
            && r[6] == 117 && r[7] == 110 && r[8] == 100);
        assert forall|i: int| 0 <= i < r.len() implies r[i] != 13 && r[i] != 10 by {
            if i == 0 {
            } else if i == 1 {
            } else if i == 2 {
            } else if i == 3 {
            } else if i == 4 {
            } else if i == 5 {
            } else if i == 6 {
            } else if i == 7 {
            } else {
                assert(i == 8);
            }
        }
    } else {
        assert(r =~= too_large_reason());
        assert(r[0] == 82 && r[1] == 101 && r[2] == 113 && r[3] == 117 && r[4] == 101 && r[5]
            == 115 && r[6] == 116 && r[7] == 32 && r[8] == 72 && r[9] == 101 && r[10] == 97
            && r[11] == 100 && r[12] == 101 && r[13] == 114 && r[14] == 32 && r[15] == 70 && r[16]
            == 105 && r[17] == 101 && r[18] == 108 && r[19] == 100 && r[20] == 115 && r[21] == 32
            && r[22] == 84 && r[23] == 111 && r[24] == 111 && r[25] == 32 && r[26] == 76 && r[27]
            == 97 && r[28] == 114 && r[29] == 103 && r[30] == 101);
        assert forall|i: int| 0 <= i < r.len() implies r[i] != 13 && r[i] != 10 by {
            if i == 0 {
            } else if i == 1 {
            } else if i == 2 {
            } else if i == 3 {
            } else if i == 4 {
            } else if i == 5 {
            } else if i == 6 {
            } else if i == 7 {
            } else if i == 8 {
            } else if i == 9 {
            } else if i == 10 {
            } else if i == 11 {
            } else if i == 12 {
            } else if i == 13 {
            } else if i == 14 {
            } else if i == 15 {
            } else if i == 16 {
            } else if i == 17 {
            } else if i == 18 {
            } else if i == 19 {
            } else if i == 20 {
            } else if i == 21 {
            } else if i == 22 {
            } else if i == 23 {
            } else if i == 24 {
            } else if i == 25 {
            } else if i == 26 {
            } else if i == 27 {
            } else if i == 28 {
            } else if i == 29 {
            } else {
                assert(i == 30);
            }
        }
    }
}

/// The stored header names contain no CR, LF, or colon.
proof fn lemma_names_plain()
    ensures
        forall|i: int| 0 <= i < content_length_name().len() ==> (
            #[trigger] content_length_name()[i]) != 13 && content_length_name()[i] != 10
            && content_length_name()[i] != 58,
        forall|i: int| 0 <= i < date_name().len() ==> (#[trigger] date_name()[i]) != 13
            && date_name()[i] != 10 && date_name()[i] != 58,
{
    let cl = content_length_name();
    assert(cl[0] == 99 && cl[1] == 111 && cl[2] == 110 && cl[3] == 116 && cl[4] == 101 && cl[5]
        == 110 && cl[6] == 116 && cl[7] == 45 && cl[8] == 108 && cl[9] == 101 && cl[10] == 110
        && cl[11] == 103 && cl[12] == 116 && cl[13] == 104);
    assert forall|i: int| 0 <= i < cl.len() implies cl[i] != 13 && cl[i] != 10 && cl[i] != 58 by {
        if i == 0 {
        } else if i == 1 {
        } else if i == 2 {
        } else if i == 3 {
        } else if i == 4 {
        } else if i == 5 {
        } else if i == 6 {
        } else if i == 7 {
        } else if i == 8 {
        } else if i == 9 {
        } else if i == 10 {
        } else if i == 11 {
        } else if i == 12 {
        } else {
            assert(i == 13);
        }
    }
    let d = date_name();
    assert(d[0] == 100 && d[1] == 97 && d[2] == 116 && d[3] == 101);
    assert forall|i: int| 0 <= i < d.len() implies d[i] != 13 && d[i] != 10 && d[i] != 58 by {
        if i == 0 {
        } else if i == 1 {
        } else if i == 2 {
        } else {
            assert(i == 3);
        }
    }
}

/// The three known status codes print as their three digits.
proof fn lemma_code_digits(code: u16)
    requires
        is_known_code(code),
    ensures
        dec_digits(code as int).len() == 3,
        is_digit(dec_digits(code as int)[0]),
        is_digit(dec_digits(code as int)[1]),
        is_digit(dec_digits(code as int)[2]),
        (dec_digits(code as int)[0] - 48) * 100 + (dec_digits(code as int)[1] - 48) * 10 + (
        dec_digits(code as int)[2] - 48) == code,
{
    let c = code as int;
    let d = dec_digits(c);
    assert(dec_digits(c / 10 / 10) =~= seq![(c / 10 / 10 + 48) as u8]);
    assert(dec_digits(c / 10) =~= dec_digits(c / 10 / 10).push((c / 10 % 10 + 48) as u8));
    assert(d =~= dec_digits(c / 10).push((c % 10 + 48) as u8));
    if code == 200 {
        assert(d[0] == 50 && d[1] == 48 && d[2] == 48);
    } else if code == 404 {
        assert(d[0] == 52 && d[1] == 48 && d[2] == 52);
    } else {
        assert(d[0] == 52 && d[1] == 51 && d[2] == 49);
    }
}

/// Round trip of the response writer and the response parser: the exact
/// bytes `serialize_response` writes parse back, on the client side, to
/// the same status code, the reason from the fixed table, exactly the
/// content-length and date headers, and the same body; resolving the
/// parsed headers' framing gives the body's exact length back.
///
/// The date value must be non-empty, must not start with whitespace,
/// and must contain no CR or LF, as wire dates do.
#[verifier::rlimit(100)]
#[verifier::spinoff_prover]
pub proof fn lemma_response_round_trip(
    code: u16,
    body: Seq<u8>,
    date: Seq<u8>,
    max_headers: nat,
)
    requires
        is_known_code(code),
        body.len() <= usize::MAX,
        max_headers >= 2,
        date.len() > 0,
        date[0] != 32 && date[0] != 9,
        line_safe(date),
    ensures
        ({
            let s = spec_serialize_response(code, body, date);
            let bdigits = dec_digits(body.len() as int);
            let headers = seq![(content_length_name(), bdigits), (date_name(), date)];
            let head_len = s.len() - body.len();
            spec_parse_resp_head(s, max_headers) == (SpecRespHead::Complete {
                code,
                reason: spec_reason(code),
                headers,
                end: head_len as int,
            }) && spec_resolve(headers, false) == Ok::<BodyLength, crate::framing::FramingError>(
                BodyLength::Known(body.len() as usize),
            ) && s.subrange(head_len as int, s.len() as int) == body
        }),
{
    let s = spec_serialize_response(code, body, date);
    let reason = spec_reason(code);
    let cdigits = dec_digits(code as int);
    let bdigits = dec_digits(body.len() as int);
    lemma_reasons_line_safe(code);
    lemma_names_plain();
    lemma_code_digits(code);
    lemma_dec_digits_props(body.len() as int);
    crate::parse::lemma_http11_plain();
    let rl = reason.len() as int;
    let dl = date.len() as int;
    let bl = bdigits.len() as int;
    let p1 = 13 + rl;
    let p2 = p1 + 2 + 16 + bl;
    let p3 = p2 + 2 + 6 + dl;
    let cl = content_length_name();
    let dn = date_name();
    assert(cl_field_prefix().len() == 18);
    assert(date_field_prefix().len() == 8);
    assert(s.len() == p3 + 4 + body.len());
    // The byte at each position of the head.
    assert forall|i: int| 0 <= i < s.len() implies s[i] == (if i < 8 {
        http11()[i]
    } else if i == 8 {
        32u8
    } else if i < 12 {
        cdigits[i - 9]
    } else if i == 12 {
        32u8
    } else if i < p1 {
        reason[i - 13]
    } else if i < p1 + 2 {
        crlf()[i - p1]
    } else if i < p1 + 2 + 14 {
        cl[i - p1 - 2]
    } else if i == p1 + 16 {
        58u8
    } else if i == p1 + 17 {
        32u8
    } else if i < p2 {
        bdigits[i - p1 - 18]
    } else if i < p2 + 2 {
        crlf()[i - p2]
    } else if i < p2 + 2 + 4 {
        dn[i - p2 - 2]
    } else if i == p2 + 6 {
        58u8
    } else if i == p2 + 7 {
        32u8
    } else if i < p3 {
        date[i - p2 - 8]
    } else if i < p3 + 2 {
        crlf()[i - p3]
    } else if i < p3 + 4 {
        crlf()[i - p3 - 2]
    } else {
        body[i - p3 - 4]
    }) by {
        assert(crlf()[0] == 13 && crlf()[1] == 10);
        assert(sp()[0] == 32);
        assert(cl_field_prefix()[0] == 13 && cl_field_prefix()[1] == 10);
        assert(cl_field_prefix()[16] == 58 && cl_field_prefix()[17] == 32);
        assert(date_field_prefix()[0] == 13 && date_field_prefix()[1] == 10);
        assert(date_field_prefix()[6] == 58 && date_field_prefix()[7] == 32);
    }
    assert(s[p1] == 13 && s[p1 + 1] == 10);
    assert(s[p2] == 13 && s[p2 + 1] == 10);
    assert(s[p3] == 13 && s[p3 + 1] == 10);
    assert(s[p3 + 2] == 13 && s[p3 + 3] == 10);
    // Line one: the status line.
    assert forall|i: int| 0 <= i < p1 implies s[i] != 13 && s[i] != 10 by {
        if 9 <= i < 12 {
            assert(is_digit(cdigits[i - 9]));
        }
    }
    lemma_scan_line_at(s, 0, p1);
    let c1 = s.take(p1);
    assert(c1.take(8) =~= http11());
    assert(c1.skip(13) =~= reason);
    assert(c1[8] == 32 && c1[12] == 32);
    assert(is_digit(c1[9]) && is_digit(c1[10]) && is_digit(c1[11]));
    assert(spec_parse_status_line(c1) == Some((code, reason)));
    // Line two: the content-length header.
    assert forall|i: int| p1 + 2 <= i < p2 implies s[i] != 13 && s[i] != 10 by {
        if p1 + 18 <= i < p2 {
            assert(is_digit(bdigits[i - p1 - 18]));
        }
    }
    lemma_scan_line_at(s, p1 + 2, p2);
    let c2 = s.subrange(p1 + 2, p2);
    assert(c2.len() == 16 + bl);
    assert forall|i: int| 0 <= i < 14 implies c2[i] != 58 by {}
    assert(c2[14] == 58);
    lemma_find_byte_at(c2, 0, 14, 58);
    assert(c2[15] == 32);
    assert(is_digit(c2[16]));
    lemma_skip_ows_at(c2, 15, 16);
    assert(c2.take(14) =~= cl);
    assert(c2.skip(16) =~= bdigits);
    assert(crate::parse::spec_parse_header_line(c2) == Some((cl, bdigits)));
    // Line three: the date header.
    assert forall|i: int| p2 + 2 <= i < p3 implies s[i] != 13 && s[i] != 10 by {}
    lemma_scan_line_at(s, p2 + 2, p3);
    let c3 = s.subrange(p2 + 2, p3);
    assert(c3.len() == 6 + dl);
    assert forall|i: int| 0 <= i < 4 implies c3[i] != 58 by {}
    assert(c3[4] == 58);
    lemma_find_byte_at(c3, 0, 4, 58);
    assert(c3[5] == 32);
    assert(c3[6] == date[0]);
    lemma_skip_ows_at(c3, 5, 6);
    assert(c3.take(4) =~= dn);
    assert(c3.skip(6) =~= date);
    assert(crate::parse::spec_parse_header_line(c3) == Some((dn, date)));
    // Line four: the empty line that ends the head.
    lemma_scan_line_at(s, p3 + 2, p3 + 2);
    assert(spec_parse_headers(s, p3 + 2, (max_headers - 2) as nat) == (SpecHeaders::Done {
        headers: Seq::<(Seq<u8>, Seq<u8>)>::empty(),
        end: p3 + 4,
    }));
    let headers = seq![(cl, bdigits), (dn, date)];
    assert(spec_parse_headers(s, p2 + 2, (max_headers - 1) as nat) == (SpecHeaders::Done {
        headers: seq![(dn, date)] + Seq::<(Seq<u8>, Seq<u8>)>::empty(),
        end: p3 + 4,
    }));
    assert(seq![(dn, date)] + Seq::<(Seq<u8>, Seq<u8>)>::empty() =~= seq![(dn, date)]);
    assert(spec_parse_headers(s, p1 + 2, max_headers) == (SpecHeaders::Done {
        headers: seq![(cl, bdigits)] + seq![(dn, date)],
        end: p3 + 4,
    }));
    assert(seq![(cl, bdigits)] + seq![(dn, date)] =~= headers);
    assert(spec_parse_resp_head(s, max_headers) == (SpecRespHead::Complete {
        code,
        reason,
        headers,
        end: p3 + 4,
    }));
    assert(p3 + 4 == s.len() - body.len());
    // The parsed headers frame the body with its exact length.
    assert(cl.len() == 14 && dn.len() == 4 && transfer_encoding_name().len() == 17);
    assert(headers.drop_last() =~= seq![(cl, bdigits)]);
    assert(seq![(cl, bdigits)].drop_last() =~= Seq::<(Seq<u8>, Seq<u8>)>::empty());
    assert(dn != cl);
    assert(headers.last() == (dn, date));
    assert(seq![(cl, bdigits)].last() == (cl, bdigits));
    assert(crate::framing::values_of(Seq::<(Seq<u8>, Seq<u8>)>::empty(), cl)
        =~= Seq::<Seq<u8>>::empty());
    assert(crate::framing::values_of(seq![(cl, bdigits)], cl) =~= seq![bdigits]);
    assert(crate::framing::values_of(headers, cl) =~= seq![bdigits]);
    assert(!crate::framing::has_header(headers, transfer_encoding_name())) by {
        if crate::framing::has_header(headers, transfer_encoding_name()) {
            let k = choose|k: int|
                0 <= k < headers.len() && (#[trigger] headers[k]).0 == transfer_encoding_name();
            assert(headers[k].0.len() == 17);
        }
    }
    assert(crate::framing::all_equal(seq![bdigits]));
    assert(all_digits(bdigits) && bdigits.len() > 0 && dec_val(bdigits) == body.len());
    assert(spec_resolve(headers, false) == Ok::<BodyLength, crate::framing::FramingError>(
        BodyLength::Known(body.len() as usize),
    ));
    // And the body follows the head unchanged.
    assert(s.subrange(p3 + 4, s.len() as int) =~= body);
}


/// End to end: a client connection that is awaiting a head with an
/// empty buffer, fed exactly the bytes the engine writes for a
/// response, hands that response back: the same status code, a header
/// table of exactly the content-length and date the engine wrote, and a
/// body of the body's exact length, standing right after the head in
/// the buffer.
pub proof fn lemma_client_reads_what_was_written(
    v: crate::connection::ConnView,
    code: u16,
    body: Seq<u8>,
    date: Seq<u8>,
)
    requires
        v.msg is None,
        v.bytes.len() == 0,
        v.max_headers >= 2,
        is_known_code(code),
        body.len() <= usize::MAX,
        date.len() > 0,
        date[0] != 32 && date[0] != 9,
        line_safe(date),
    ensures
        ({
            let s = spec_serialize_response(code, body, date);
            let head_len = s.len() - body.len();
            let r = crate::connection::spec_client_step(v, s);
            r.1 == (crate::connection::SpecClientStep::Response {
                code,
                table: seq![
                    (crate::header::HeaderName::ContentLength, dec_digits(body.len() as int)),
                    (crate::header::HeaderName::Date, date),
                ],
                body_start: head_len as int,
                body: BodyLength::Known(body.len() as usize),
            }) && r.0.msg == Some(
                crate::connection::MsgView {
                    head_len: head_len as int,
                    body: BodyLength::Known(body.len() as usize),
                },
            ) && r.0.bytes.subrange(head_len as int, r.0.bytes.len() as int) == body
        }),
{
    let s = spec_serialize_response(code, body, date);
    let bdigits = dec_digits(body.len() as int);
    let cl = content_length_name();
    let dn = date_name();
    let headers = seq![(cl, bdigits), (dn, date)];
    lemma_response_round_trip(code, body, date, v.max_headers);
    assert(v.bytes + s =~= s);
    // The raw headers reduce to the stored table entry by entry.
    assert(cl.len() == 14 && dn.len() == 4);
    assert(headers.drop_last() =~= seq![(cl, bdigits)]);
    assert(seq![(cl, bdigits)].drop_last() =~= Seq::<(Seq<u8>, Seq<u8>)>::empty());
    assert(headers.last() == (dn, date));
    assert(seq![(cl, bdigits)].last() == (cl, bdigits));
    assert(crate::header::spec_match_header_name(cl) == Some(
        crate::header::HeaderName::ContentLength,
    ));
    assert(dn != cl);
    assert(dn != crate::header::transfer_encoding_name());
    assert(crate::header::spec_match_header_name(dn) == Some(crate::header::HeaderName::Date));
    assert(crate::header::spec_table(Seq::<(Seq<u8>, Seq<u8>)>::empty()) =~= Seq::<(
        crate::header::HeaderName,
        Seq<u8>,
    )>::empty());
    assert(crate::header::spec_table(seq![(cl, bdigits)]) =~= seq![
        (crate::header::HeaderName::ContentLength, bdigits),
    ]);
    assert(crate::header::spec_table(headers) =~= seq![
        (crate::header::HeaderName::ContentLength, bdigits),
        (crate::header::HeaderName::Date, date),
    ]);
    let head_len = s.len() - body.len();
    assert(crate::connection::spec_client_step(v, s).0.bytes == s);
    assert(s.subrange(head_len as int, s.len() as int) == body);
}


/// End to end, the other direction: a server connection that is
/// awaiting a head with an empty buffer, fed exactly the bytes the
/// request writer produces, hands back that request: the same method
/// and path, no stored headers, and an empty body, with the whole
/// buffer consumed by the head.
pub proof fn lemma_server_reads_what_was_written(
    v: crate::connection::ConnView,
    m: crate::message::Method,
    path: Seq<u8>,
)
    requires
        v.msg is None,
        v.bytes.len() == 0,
        path.len() > 0,
        forall|i: int| 0 <= i < path.len() ==> (#[trigger] path[i]) != 32 && path[i] != 13
            && path[i] != 10,
    ensures
        ({
            let s = crate::message::spec_request_head(m, path);
            let r = crate::connection::spec_server_step(v, s);
            r.1 == (crate::connection::SpecServerStep::Request {
                method: m,
                path,
                table: Seq::<(crate::header::HeaderName, Seq<u8>)>::empty(),
                body_start: s.len() as int,
                body: BodyLength::Empty,
            }) && r.0.msg == Some(
                crate::connection::MsgView { head_len: s.len() as int, body: BodyLength::Empty },
            )
        }),
{
    let s = crate::message::spec_request_head(m, path);
    crate::parse::lemma_request_head_round_trip(m, path, v.max_headers);
    assert(v.bytes + s =~= s);
    let none: Seq<(Seq<u8>, Seq<u8>)> = Seq::empty();
    assert(crate::framing::values_of(none, content_length_name()) =~= Seq::<Seq<u8>>::empty());
    assert(!crate::framing::has_header(none, crate::header::transfer_encoding_name()));
    assert(spec_resolve(none, true) == Ok::<BodyLength, crate::framing::FramingError>(
        BodyLength::Empty,
    ));
    assert(crate::header::spec_table(none) =~= Seq::<(crate::header::HeaderName, Seq<u8>)>::empty());
}

} // verus!
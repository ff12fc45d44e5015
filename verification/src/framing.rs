//! Message-body framing: deciding, from the raw parsed headers, how long
//! the body of a message is, and rejecting invalid framing.

use vstd::prelude::*;
use crate::decimal::{all_digits, dec_val, usize_from_bytes};
use crate::header::{RawHeader, content_length_name, transfer_encoding_name};

verus! {

/// How the extent of a message body is determined.
#[derive(Clone, Copy, Debug, PartialEq, Eq, Structural)]
pub enum BodyLength {
    /// The body is exactly this many bytes.
    Known(usize),
    /// The body runs until the peer closes the connection.
    Unknown,
    /// There is no body.
    Empty,
}

/// Why the framing of a message was rejected.
#[derive(Clone, Copy, Debug, PartialEq, Eq, Structural)]
pub enum FramingError {
    /// Transfer-encoding next to content-length, or differing
    /// content-length values: the framing is invalid and unrecoverable.
    InvalidMessageFraming,
    /// A transfer-encoding header alone: transfer encodings are not
    /// implemented, and the body cannot be framed silently.
    UnsupportedTransferEncoding,
    /// A content-length value that is not a non-negative decimal number
    /// that fits in `usize`.
    InvalidContentLength,
}

/// Whether some raw header carries the byte-exact `name`.
pub open spec fn has_header(hs: Seq<(Seq<u8>, Seq<u8>)>, name: Seq<u8>) -> bool {
    exists|i: int| 0 <= i < hs.len() && (#[trigger] hs[i]).0 == name
}

/// The values of all raw headers named `name`, in order.
pub open spec fn values_of(hs: Seq<(Seq<u8>, Seq<u8>)>, name: Seq<u8>) -> Seq<Seq<u8>>
    decreases hs.len(),
{
    if hs.len() == 0 {
        Seq::empty()
    } else {
        let rest = values_of(hs.drop_last(), name);
        if hs.last().0 == name {
            rest.push(hs.last().1)
        } else {
            rest
        }
    }
}

/// All elements equal the first one.
pub open spec fn all_equal(vs: Seq<Seq<u8>>) -> bool {
    forall|i: int| 0 <= i < vs.len() ==> #[trigger] vs[i] == vs[0]
}

/// A usable content-length value: a non-empty digit string whose value
/// fits in `usize`.
pub open spec fn is_valid_content_length(v: Seq<u8>) -> bool {
    v.len() > 0 && all_digits(v) && dec_val(v) <= usize::MAX
}

/// The body length a message with raw headers `hs` has, or the framing
/// error it is rejected with:
/// - transfer-encoding next to content-length is invalid framing;
/// - transfer-encoding alone is unsupported;
/// - several content-length headers with differing values are invalid
///   framing; with identical values they count as one;
/// - a single content-length value gives a known length, rejected if it
///   is not a valid decimal number;
/// - no framing header at all means an empty body for a request and a
///   read-until-close body for a response.
pub open spec fn spec_resolve(hs: Seq<(Seq<u8>, Seq<u8>)>, is_request: bool) -> Result<
    BodyLength,
    FramingError,
> {
    let cls = values_of(hs, content_length_name());
    let te = has_header(hs, transfer_encoding_name());
    if te && cls.len() > 0 {
        Err(FramingError::InvalidMessageFraming)
    } else if te {
        Err(FramingError::UnsupportedTransferEncoding)
    } else if cls.len() == 0 {
        Ok(if is_request { BodyLength::Empty } else { BodyLength::Unknown })
    } else if !all_equal(cls) {
        Err(FramingError::InvalidMessageFraming)
    } else if is_valid_content_length(cls[0]) {
        Ok(BodyLength::Known(dec_val(cls[0]) as usize))
    } else {
        Err(FramingError::InvalidContentLength)
    }
}

/// Decides the body length of a message from its raw headers, exactly as
/// `spec_resolve` states it.
pub fn resolve_framing(headers: &Vec<RawHeader>, is_request: bool) -> (r: Result<
    BodyLength,
    FramingError,
>)
    ensures
        r == spec_resolve(headers.deep_view(), is_request),
{
    let cl_name = crate::header::content_length_bytes();
    let te_name = crate::header::transfer_encoding_bytes();
    let mut first_cl: Option<Vec<u8>> = None;
    let mut any_cl: bool = false;
    let mut te: bool = false;
    let mut mismatch: bool = false;
    let ghost hs = headers.deep_view();
    let mut i: usize = 0;
    proof {
        assert(hs.take(0) =~= Seq::<(Seq<u8>, Seq<u8>)>::empty());
    }
    while i < headers.len()
        invariant
            0 <= i <= headers@.len(),
            hs == headers.deep_view(),
            hs.len() == headers@.len(),
            cl_name@ == content_length_name(),
            te_name@ == transfer_encoding_name(),
            te == has_header(hs.take(i as int), transfer_encoding_name()),
            any_cl == (values_of(hs.take(i as int), content_length_name()).len() > 0),
            match first_cl {
                Some(v) => any_cl && v@ == values_of(hs.take(i as int), content_length_name())[0],
                None => !any_cl,
            },
            any_cl ==> (mismatch == !all_equal(values_of(hs.take(i as int), content_length_name()))),
            !any_cl ==> !mismatch,
        decreases headers@.len() - i,
    {
        let ghost prefix = hs.take(i as int);
        let ghost prefix2 = hs.take(i + 1);
        proof {
            assert(prefix2.drop_last() =~= prefix);
            assert(prefix2.last() == hs[i as int]);
            assert forall|n: Seq<u8>| #[trigger] has_header(prefix2, n) == (has_header(prefix, n)
                || hs[i as int].0 == n) by {
                if has_header(prefix, n) {
                    let k = choose|k: int| 0 <= k < prefix.len() && (#[trigger] prefix[k]).0 == n;
                    assert(prefix2[k].0 == n);
                }
                if hs[i as int].0 == n {
                    assert(prefix2[i as int].0 == n);
                }
                if has_header(prefix2, n) && !(hs[i as int].0 == n) {
                    let k = choose|k: int| 0 <= k < prefix2.len() && (#[trigger] prefix2[k]).0 == n;
                    assert(k < i);
                    assert(prefix[k].0 == n);
                }
            }
        }
        let name_is_cl = crate::bytes::bytes_eq(headers[i].name.as_slice(), cl_name.as_slice());
        let name_is_te = crate::bytes::bytes_eq(headers[i].name.as_slice(), te_name.as_slice());
        if name_is_te {
            te = true;
        }
        if name_is_cl {
            let ghost cls = values_of(prefix, content_length_name());
            let ghost cls2 = values_of(prefix2, content_length_name());
            proof {
                assert(cls2 == cls.push(hs[i as int].1));
                assert(cls2[cls.len() as int] == hs[i as int].1);
                assert forall|k: int| 0 <= k < cls.len() implies cls2[k] == cls[k] by {}
            }
            match &first_cl {
                Some(v) => {
                    let same = crate::bytes::bytes_eq(v.as_slice(), headers[i].value.as_slice());
                    if !same {
                        mismatch = true;
                    }
                    proof {
                        assert(cls2[0] == cls[0]);
                        if all_equal(cls) && v@ == hs[i as int].1 {
                            assert forall|k: int| 0 <= k < cls2.len() implies #[trigger] cls2[k]
                                == cls2[0] by {
                                if k < cls.len() {
                                    assert(cls2[k] == cls[k]);
                                }
                            }
                        }
                        if !all_equal(cls) {
                            let k = choose|k: int| 0 <= k < cls.len() && #[trigger] cls[k] != cls[0];
                            assert(cls2[k] != cls2[0]);
                        }
                        if v@ != hs[i as int].1 {
                            assert(cls2[cls.len() as int] != cls2[0]);
                        }
                    }
                },
                None => {
                    let v = crate::bytes::copy_range(
                        headers[i].value.as_slice(),
                        0,
                        headers[i].value.len(),
                    );
                    proof {
                        assert(v@ =~= hs[i as int].1);
                        assert(cls.len() == 0);
                        assert(cls2.len() == 1);
                        assert forall|k: int| 0 <= k < cls2.len() implies #[trigger] cls2[k]
                            == cls2[0] by {}
                    }
                    first_cl = Some(v);
                    any_cl = true;
                },
            }
        } else {
            proof {
                assert(values_of(prefix2, content_length_name()) == values_of(
                    prefix,
                    content_length_name(),
                ));
            }
        }
        i = i + 1;
    }
    proof {
        assert(hs.take(i as int) =~= hs);
    }
    if te {
        if any_cl {
            return Err(FramingError::InvalidMessageFraming);
        }
        return Err(FramingError::UnsupportedTransferEncoding);
    }
    match first_cl {
        None => {
            if is_request {
                Ok(BodyLength::Empty)
            } else {
                Ok(BodyLength::Unknown)
            }
        },
        Some(v) => {
            if mismatch {
                return Err(FramingError::InvalidMessageFraming);
            }
            match usize_from_bytes(v.as_slice()) {
                Ok(n) => Ok(BodyLength::Known(n)),
                Err(_) => Err(FramingError::InvalidContentLength),
            }
        },
    }
}

} // verus!

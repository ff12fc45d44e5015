//! The header table: an allow-listed store of header values.
//!
//! Header values are copied into one contiguous byte buffer; each entry is a
//! (name, start, end) triple into that buffer.  Only allow-listed names are
//! kept: every other header is dropped at construction time.

use vstd::prelude::*;

verus! {

/// The header names the engine understands; every other name is dropped.
#[derive(Clone, Copy, Debug, PartialEq, Eq, Structural)]
pub enum HeaderName {
    ContentLength,
    Date,
    TransferEncoding,
}

/// The bytes of `"content-length"`.
pub open spec fn content_length_name() -> Seq<u8> {
    seq![99u8, 111u8, 110u8, 116u8, 101u8, 110u8, 116u8, 45u8, 108u8, 101u8, 110u8, 103u8, 116u8, 104u8]
}

/// The bytes of `"date"`.
pub open spec fn date_name() -> Seq<u8> {
    seq![100u8, 97u8, 116u8, 101u8]
}

/// The bytes of `"transfer-encoding"`.
pub open spec fn transfer_encoding_name() -> Seq<u8> {
    seq![116u8, 114u8, 97u8, 110u8, 115u8, 102u8, 101u8, 114u8, 45u8, 101u8, 110u8, 99u8, 111u8, 100u8, 105u8, 110u8, 103u8]
}

/// The allow-list: which stored name, if any, a raw header name maps to.
pub open spec fn spec_match_header_name(n: Seq<u8>) -> Option<HeaderName> {
    if n == content_length_name() {
        Some(HeaderName::ContentLength)
    } else if n == date_name() {
        Some(HeaderName::Date)
    } else if n == transfer_encoding_name() {
        Some(HeaderName::TransferEncoding)
    } else {
        None
    }
}

/// Looks a raw header name up in the allow-list.
pub fn match_header_name(name: &[u8]) -> (r: Option<HeaderName>)
    ensures
        r == spec_match_header_name(name@),
{
    let cl = content_length_bytes();
    if crate::bytes::bytes_eq(name, cl.as_slice()) {
        return Some(HeaderName::ContentLength);
    }
    let date = date_bytes();
    if crate::bytes::bytes_eq(name, date.as_slice()) {
        return Some(HeaderName::Date);
    }
    let te = transfer_encoding_bytes();
    if crate::bytes::bytes_eq(name, te.as_slice()) {
        return Some(HeaderName::TransferEncoding);
    }
    None
}

/// The bytes of `"content-length"`, as a vector.
pub fn content_length_bytes() -> (r: Vec<u8>)
    ensures
        r@ == content_length_name(),
{
    let mut r: Vec<u8> = Vec::new();
    r.push(99);
    r.push(111);
    r.push(110);
    r.push(116);
    r.push(101);
    r.push(110);
    r.push(116);
    r.push(45);
    r.push(108);
    r.push(101);
    r.push(110);
    r.push(103);
    r.push(116);
    r.push(104);
    proof {
        assert(r@ =~= content_length_name());
    }
    r
}

/// The bytes of `"date"`, as a vector.
pub fn date_bytes() -> (r: Vec<u8>)
    ensures
        r@ == date_name(),
{
    let mut r: Vec<u8> = Vec::new();
    r.push(100);
    r.push(97);
    r.push(116);
    r.push(101);
    proof {
        assert(r@ =~= date_name());
    }
    r
}

/// The bytes of `"transfer-encoding"`, as a vector.
pub fn transfer_encoding_bytes() -> (r: Vec<u8>)
    ensures
        r@ == transfer_encoding_name(),
{
    let mut r: Vec<u8> = Vec::new();
    r.push(116);
    r.push(114);
    r.push(97);
    r.push(110);
    r.push(115);
    r.push(102);
    r.push(101);
    r.push(114);
    r.push(45);
    r.push(101);
    r.push(110);
    r.push(99);
    r.push(111);
    r.push(100);
    r.push(105);
    r.push(110);
    r.push(103);
    proof {
        assert(r@ =~= transfer_encoding_name());
    }
    r
}

/// A raw header as the head parser found it: name bytes and value bytes.
pub struct RawHeader {
    pub name: Vec<u8>,
    pub value: Vec<u8>,
}

impl View for RawHeader {
    type V = (Seq<u8>, Seq<u8>);

    open spec fn view(&self) -> (Seq<u8>, Seq<u8>) {
        (self.name@, self.value@)
    }
}

impl DeepView for RawHeader {
    type V = (Seq<u8>, Seq<u8>);

    open spec fn deep_view(&self) -> (Seq<u8>, Seq<u8>) {
        self@
    }
}

/// The table an allow-listed raw header sequence reduces to: entries in
/// order, each an allow-listed name with its value bytes.
pub open spec fn spec_table(raw: Seq<(Seq<u8>, Seq<u8>)>) -> Seq<(HeaderName, Seq<u8>)>
    decreases raw.len(),
{
    if raw.len() == 0 {
        Seq::empty()
    } else {
        let rest = spec_table(raw.drop_last());
        match spec_match_header_name(raw.last().0) {
            Some(n) => rest.push((n, raw.last().1)),
            None => rest,
        }
    }
}

/// The first value stored under `name`, if any.
pub open spec fn spec_get(t: Seq<(HeaderName, Seq<u8>)>, name: HeaderName) -> Option<Seq<u8>>
    decreases t.len(),
{
    if t.len() == 0 {
        None
    } else if t[0].0 == name {
        Some(t[0].1)
    } else {
        spec_get(t.drop_first(), name)
    }
}

/// Dropping a raw header whose name is not on the allow-list leaves the
/// table unchanged.
pub proof fn lemma_unknown_header_dropped(raw: Seq<(Seq<u8>, Seq<u8>)>, i: int)
    requires
        0 <= i < raw.len(),
        spec_match_header_name(raw[i].0) is None,
    ensures
        spec_table(raw) == spec_table(raw.remove(i)),
    decreases raw.len(),
{
    if i == raw.len() - 1 {
        assert(raw.remove(i) =~= raw.drop_last());
    } else {
        assert(raw.remove(i).drop_last() =~= raw.drop_last().remove(i));
        lemma_unknown_header_dropped(raw.drop_last(), i);
        assert(raw.remove(i).last() == raw.last());
    }
}

/// One entry of the header table: a name and a range into the value buffer.
struct HeaderPart {
    name: HeaderName,
    start: usize,
    end: usize,
}

/// The allow-listed header store: values in one contiguous buffer, entries
/// as (name, start, end) triples into it, in insertion order.
pub struct Headers {
    values: Vec<u8>,
    parts: Vec<HeaderPart>,
}

impl View for Headers {
    type V = Seq<(HeaderName, Seq<u8>)>;

    closed spec fn view(&self) -> Seq<(HeaderName, Seq<u8>)> {
        Seq::new(
            self.parts@.len(),
            |i: int|
                (
                    self.parts@[i].name,
                    self.values@.subrange(self.parts@[i].start as int, self.parts@[i].end as int),
                ),
        )
    }
}

impl Headers {
    /// Every entry's range lies inside the value buffer.
    pub closed spec fn wf(&self) -> bool {
        forall|i: int|
            0 <= i < self.parts@.len() ==> (#[trigger] self.parts@[i]).start <= self.parts@[i].end
                <= self.values@.len()
    }

    /// A table with no entries.
    pub fn empty() -> (r: Headers)
        ensures
            r.wf(),
            r@ == Seq::<(HeaderName, Seq<u8>)>::empty(),
    {
        let r = Headers { values: Vec::new(), parts: Vec::new() };
        proof {
            assert(r@ =~= Seq::<(HeaderName, Seq<u8>)>::empty());
        }
        r
    }

    /// Builds the table from raw parsed headers, keeping allow-listed names
    /// only; every other header is dropped, never an error.
    pub fn from_raw(raw: &Vec<RawHeader>) -> (r: Headers)
        ensures
            r.wf(),
            r@ == spec_table(raw.deep_view()),
    {
        let mut r = Headers { values: Vec::new(), parts: Vec::new() };
        let mut i: usize = 0;
        proof {
            assert(r@ =~= spec_table(raw.deep_view().take(0)));
        }
        while i < raw.len()
            invariant
                0 <= i <= raw@.len(),
                raw.deep_view().len() == raw@.len(),
                r.wf(),
                r@ == spec_table(raw.deep_view().take(i as int)),
            decreases raw@.len() - i,
        {
            let ghost prefix = raw.deep_view().take(i as int);
            let ghost old_r = r;
            match match_header_name(raw[i].name.as_slice()) {
                Some(name) => {
                    let start = r.values.len();
                    crate::bytes::append_bytes(&mut r.values, raw[i].value.as_slice());
                    let end = r.values.len();
                    r.parts.push(HeaderPart { name, start, end });
                    proof {
                        assert forall|j: int| 0 <= j < old_r.parts@.len() implies r@[j]
                            == old_r@[j] by {
                            assert(r.values@.subrange(
                                old_r.parts@[j].start as int,
                                old_r.parts@[j].end as int,
                            ) =~= old_r.values@.subrange(
                                old_r.parts@[j].start as int,
                                old_r.parts@[j].end as int,
                            ));
                        }
                        assert(r.values@.subrange(start as int, end as int) =~= raw@[i as int].value@);
                        assert(r@ =~= old_r@.push((name, raw@[i as int].value@)));
                    }
                },
                None => {
                },
            }
            i = i + 1;
            proof {
                assert(raw.deep_view().take(i as int).drop_last() =~= prefix);
                assert(raw.deep_view().take(i as int).last() == raw.deep_view()[i - 1]);
            }
        }
        proof {
            assert(raw.deep_view().take(i as int) =~= raw.deep_view());
        }
        r
    }

    /// The number of stored headers.
    pub fn len(&self) -> (r: usize)
        ensures
            r == self@.len(),
    {
        self.parts.len()
    }

    /// The value of the first header stored under `name`, if any.
    pub fn get(&self, name: HeaderName) -> (r: Option<Vec<u8>>)
        requires
            self.wf(),
        ensures
            match r {
                Some(v) => spec_get(self@, name) == Some(v@),
                None => spec_get(self@, name) is None,
            },
    {
        let mut j: usize = 0;
        proof {
            assert(self@.skip(0) =~= self@);
        }
        while j < self.parts.len()
            invariant
                0 <= j <= self.parts@.len(),
                self.wf(),
                spec_get(self@, name) == spec_get(self@.skip(j as int), name),
            decreases self.parts@.len() - j,
        {
            if self.parts[j].name == name {
                proof {
                    assert(self@.skip(j as int)[0] == self@[j as int]);
                }
                let part_start = self.parts[j].start;
                let part_end = self.parts[j].end;
                let v = crate::bytes::copy_range(self.values.as_slice(), part_start, part_end);
                return Some(v);
            }
            j = j + 1;
            proof {
                assert(self@.skip(j - 1).drop_first() =~= self@.skip(j as int));
                assert(self@.skip(j - 1)[0] == self@[j - 1]);
            }
        }
        proof {
            assert(self@.skip(j as int).len() == 0);
        }
        None
    }

    /// All stored headers, in insertion order.
    pub fn iter(&self) -> (r: Vec<(HeaderName, Vec<u8>)>)
        requires
            self.wf(),
        ensures
            r@.len() == self@.len(),
            forall|i: int|
                0 <= i < r@.len() ==> (#[trigger] r@[i]).0 == self@[i].0 && r@[i].1@ == self@[i].1,
    {
        let mut r: Vec<(HeaderName, Vec<u8>)> = Vec::new();
        let mut j: usize = 0;
        while j < self.parts.len()
            invariant
                0 <= j <= self.parts@.len(),
                self.wf(),
                r@.len() == j,
                forall|i: int|
                    0 <= i < j ==> (#[trigger] r@[i]).0 == self@[i].0 && r@[i].1@ == self@[i].1,
            decreases self.parts@.len() - j,
        {
            let part_start = self.parts[j].start;
            let part_end = self.parts[j].end;
            let v = crate::bytes::copy_range(self.values.as_slice(), part_start, part_end);
            r.push((self.parts[j].name, v));
            j = j + 1;
        }
        r
    }
}

} // verus!

//! The size of an encoding, computed without writing the bytes.

use crate::data::{list_views, NvData, NvList, NvListRef, NvPair};
use crate::error::NvError;
use crate::format::{
    bodies, bodies_size, body, body_fits, body_size, decoded_size, fits, flags, natural_width,
    nelem, number, pad_len, pair, pair_fits, pair_size, pairs, pairs_size, payload,
    payload_fits, payload_size, stream, stream_size, tag_code, text, text_size, twos, unit,
    value_mem, width, word, words64, NvEncoding, MAX_SIZE,
};
use crate::model::{Entry, Listing, NvType, Value};
use crate::wire::lemma_word_len;
use vstd::prelude::*;

verus! {

/// A word of `n` bytes has `n` bytes, in either byte order.
pub proof fn lemma_word_size(e: NvEncoding, v: nat, n: nat)
    ensures
        word(e, v, n).len() == n,
{
    lemma_word_len(v, n);
}

/// Some 64-bit numbers take eight bytes each.
pub proof fn lemma_words64_len(a: Seq<u64>, e: NvEncoding)
    ensures
        words64(a, e).len() == 8 * a.len(),
    decreases a.len(),
{
    if a.len() > 0 {
        lemma_word_size(e, a[0] as nat, 8);
        lemma_words64_len(a.drop_first(), e);
    }
}

/// A text has the size that is computed for it.
pub proof fn lemma_text_len(s: Seq<u8>, e: NvEncoding)
    ensures
        text(s, e).len() == text_size(s.len(), e),
{
    lemma_word_size(e, s.len(), 4);
}

/// A payload has the size that is computed for it.
pub proof fn lemma_payload_len(v: Value, e: NvEncoding)
    ensures
        payload(v, e).len() == payload_size(v, e),
    decreases v,
{
    match v {
        Value::Unknown | Value::Bool => {},
        Value::Str(s) => lemma_text_len(s, e),
        Value::List(l) => lemma_body_len(l, e),
        Value::Uint64Array(a) => lemma_words64_len(a, e),
        Value::ListArray(ls) => lemma_bodies_len(ls, e),
        _ => lemma_word_size(e, twos(number(v), width(e, v.tag())), width(e, v.tag())),
    }
}

/// An entry has the size that is computed for it.
pub proof fn lemma_pair_len(p: Entry, e: NvEncoding)
    ensures
        pair(p, e).len() == pair_size(p, e),
    decreases p,
{
    lemma_word_size(e, pair_size(p, e), 4);
    lemma_word_size(e, decoded_size(p), 4);
    lemma_text_len(p.name, e);
    lemma_word_size(e, tag_code(p.value.tag()), 4);
    lemma_word_size(e, nelem(p.value), 4);
    lemma_payload_len(p.value, e);
}

/// Some entries have the size that is computed for them.
pub proof fn lemma_pairs_len(s: Seq<Entry>, e: NvEncoding)
    ensures
        pairs(s, e).len() == pairs_size(s, e),
    decreases s,
{
    if s.len() > 0 {
        lemma_pair_len(s[0], e);
        lemma_pairs_len(s.drop_first(), e);
    }
}

/// A body has the size that is computed for it.
pub proof fn lemma_body_len(l: Listing, e: NvEncoding)
    ensures
        body(l, e).len() == body_size(l, e),
    decreases l,
{
    lemma_word_size(e, 0, 4);
    lemma_word_size(e, flags(l.unique), 4);
    lemma_pairs_len(l.entries, e);
}

/// Some bodies have the size that is computed for them.
pub proof fn lemma_bodies_len(ls: Seq<Listing>, e: NvEncoding)
    ensures
        bodies(ls, e).len() == bodies_size(ls, e),
    decreases ls,
{
    if ls.len() > 0 {
        lemma_body_len(ls[0], e);
        lemma_bodies_len(ls.drop_first(), e);
    }
}

/// The encoding of a list has exactly the size that is computed for it.
pub proof fn lemma_stream_len(l: Listing, e: NvEncoding)
    ensures
        stream(l, e).len() == stream_size(l, e),
{
    lemma_body_len(l, e);
}

/// The unit of an encoding.
pub(crate) fn unit_of(e: NvEncoding) -> (r: u64)
    ensures
        r == unit(e),
        r == 4 || r == 8,
{
    match e {
        NvEncoding::Native => 8,
        NvEncoding::Xdr => 4,
    }
}

/// The bytes that fill `n` up to a multiple of `unit`.
pub(crate) fn pad_of(n: u64, unit: u64) -> (r: u64)
    requires
        unit > 0,
    ensures
        r == pad_len(n as nat, unit as nat),
        r < unit,
{
    let m: u64 = n % unit;
    if m == 0 {
        0
    } else {
        unit - m
    }
}

/// The bytes that a scalar of this kind takes in memory.
pub(crate) fn natural_width_of(t: NvType) -> (r: u64)
    ensures
        r == natural_width(t),
        r <= 8,
{
    match t {
        NvType::BooleanValue => 4,
        NvType::Byte | NvType::Int8 | NvType::Uint8 => 1,
        NvType::Int16 | NvType::Uint16 => 2,
        NvType::Int32 | NvType::Uint32 => 4,
        NvType::Int64 | NvType::Uint64 => 8,
        _ => 0,
    }
}

/// The bytes in which a scalar of this kind is written.
pub(crate) fn width_of(e: NvEncoding, t: NvType) -> (r: u64)
    ensures
        r == width(e, t),
        r <= 8,
{
    let w: u64 = natural_width_of(t);
    match e {
        NvEncoding::Native => w,
        NvEncoding::Xdr => if w == 0 {
            0
        } else if w == 8 {
            8
        } else {
            4
        },
    }
}

/// The size of a text of `len` bytes, where a size word can hold it.
pub(crate) fn text_size_of(len: usize, e: NvEncoding) -> (r: Option<u64>)
    ensures
        r is Some <==> text_size(len as nat, e) <= MAX_SIZE,
        r is Some ==> r->0 == text_size(len as nat, e),
{
    if len as u64 > MAX_SIZE {
        return None;
    }
    let n: u64 = 4 + len as u64 + pad_of(len as u64, unit_of(e));
    if n > MAX_SIZE {
        None
    } else {
        Some(n)
    }
}

/// The bytes that a value takes in memory, where a size word can hold them.
pub(crate) fn value_mem_of(d: &NvData) -> (r: Option<u64>)
    ensures
        r is Some <==> value_mem(d@) <= MAX_SIZE,
        r is Some ==> r->0 == value_mem(d@),
{
    match d {
        NvData::Str(s) => if s.len() as u64 >= MAX_SIZE {
            None
        } else {
            Some(s.len() as u64 + 1)
        },
        NvData::NvListRef(_) => Some(24),
        NvData::Uint64Array(a) => if a.len() as u64 > MAX_SIZE / 8 {
            None
        } else {
            Some(8 * (a.len() as u64))
        },
        NvData::NvListArray(ls) => if ls.len() as u64 > MAX_SIZE / 32 {
            None
        } else {
            Some(32 * (ls.len() as u64))
        },
        _ => Some(natural_width_of(d.tag())),
    }
}

/// The bytes that an entry takes in memory, where a size word can hold them.
pub(crate) fn decoded_size_of(p: &NvPair) -> (r: Option<u64>)
    ensures
        r is Some <==> decoded_size(p@) <= MAX_SIZE,
        r is Some ==> r->0 == decoded_size(p@),
{
    if p.name.len() as u64 > MAX_SIZE {
        return None;
    }
    let head: u64 = 16 + p.name.len() as u64 + 1;
    let head: u64 = head + pad_of(head, 8);
    match value_mem_of(&p.data) {
        Some(m) => {
            let n: u64 = head + m + pad_of(m, 8);
            if n > MAX_SIZE {
                None
            } else {
                Some(n)
            }
        },
        None => None,
    }
}

/// The size of some bodies, where every size word inside can hold its size
/// and the sum is no more than a size word can hold.
pub(crate) fn bodies_size_of(ls: &Vec<NvList>, e: NvEncoding) -> (r: Option<u64>)
    ensures
        r is Some <==> (forall|i: int| 0 <= i < ls.len() ==> body_fits(#[trigger] ls[i]@, e))
            && bodies_size(list_views(ls@), e) <= MAX_SIZE,
        r is Some ==> r->0 == bodies_size(list_views(ls@), e),
    decreases ls, 1int,
{
    let ghost all = list_views(ls@);
    let mut acc: u64 = 0;
    let mut i: usize = 0;
    assert(all.skip(0) =~= all);
    while i < ls.len()
        invariant
            i <= ls.len(),
            all == list_views(ls@),
            acc + bodies_size(all.skip(i as int), e) == bodies_size(all, e),
            acc <= MAX_SIZE,
            forall|j: int| 0 <= j < i ==> body_fits(#[trigger] ls[j]@, e),
        decreases ls.len() - i,
    {
        proof {
            assert(all.skip(i as int)[0] == ls[i as int]@);
            assert(all.skip(i as int).drop_first() =~= all.skip(i + 1));
        }
        match body_size_of(&ls[i].list, e, MAX_SIZE - acc) {
            Some(n) => {
                acc = acc + n;
            },
            None => {
                return None;
            },
        }
        i += 1;
    }
    Some(acc)
}

/// The size of a payload, where every size word inside can hold its size and
/// the payload is no larger than a size word can hold.
pub(crate) fn payload_size_of(d: &NvData, e: NvEncoding) -> (r: Option<u64>)
    ensures
        r is Some <==> payload_fits(d@, e) && payload_size(d@, e) <= MAX_SIZE,
        r is Some ==> r->0 == payload_size(d@, e),
    decreases d, 2int,
{
    match d {
        NvData::Unknown | NvData::Bool => Some(0),
        NvData::Str(s) => text_size_of(s.len(), e),
        NvData::NvListRef(l) => body_size_of(&l.list, e, MAX_SIZE),
        NvData::Uint64Array(a) => if a.len() as u64 > MAX_SIZE / 8 {
            None
        } else {
            Some(8 * (a.len() as u64))
        },
        NvData::NvListArray(ls) => {
            let r = bodies_size_of(ls, e);
            proof {
                let vs = list_views(ls@);
                assert(d@->ListArray_0 =~= vs);
                if r is Some {
                    assert forall|i: int| 0 <= i < vs.len() implies body_fits(
                        #[trigger] vs[i],
                        e,
                    ) by {
                        assert(body_fits(ls[i]@, e));
                    }
                }
                if payload_fits(d@, e) {
                    assert forall|i: int| 0 <= i < ls.len() implies body_fits(
                        #[trigger] ls[i]@,
                        e,
                    ) by {
                        assert(body_fits(vs[i], e));
                    }
                }
            }
            r
        },
        _ => {
            let w: u64 = width_of(e, d.tag());
            Some(w + pad_of(w, unit_of(e)))
        },
    }
}

/// The size of an entry, where every size word can hold its size.
pub(crate) fn pair_size_of(p: &NvPair, e: NvEncoding) -> (r: Option<u64>)
    ensures
        r is Some <==> pair_fits(p@, e),
        r is Some ==> r->0 == pair_size(p@, e),
    decreases p, 3int,
{
    let name: u64 = match text_size_of(p.name.len(), e) {
        Some(n) => n,
        None => {
            return None;
        },
    };
    let value: u64 = match payload_size_of(&p.data, e) {
        Some(n) => n,
        None => {
            return None;
        },
    };
    if decoded_size_of(p).is_none() {
        return None;
    }
    let n: u64 = 16 + name + value;
    if n > MAX_SIZE {
        None
    } else {
        Some(n)
    }
}

/// The size of a body, where every size word inside can hold its size and
/// the body is no larger than `cap`.
pub(crate) fn body_size_of(l: &NvListRef, e: NvEncoding, cap: u64) -> (r: Option<u64>)
    ensures
        r is Some <==> body_fits(l@, e) && body_size(l@, e) <= cap,
        r is Some ==> r->0 == body_size(l@, e),
    decreases l, 4int,
{
    if cap < 16 {
        return None;
    }
    let ghost all = l@.entries;
    let mut acc: u64 = 16;
    let mut i: usize = 0;
    assert(all.skip(0) =~= all);
    while i < l.pairs.len()
        invariant
            i <= l.pairs.len(),
            all == l@.entries,
            acc + pairs_size(all.skip(i as int), e) == body_size(l@, e),
            16 <= acc <= cap,
            forall|j: int| 0 <= j < i ==> pair_fits(#[trigger] all[j], e),
        decreases l.pairs.len() - i,
    {
        proof {
            assert(all.skip(i as int)[0] == l.pairs[i as int]@);
            assert(all.skip(i as int).drop_first() =~= all.skip(i + 1));
        }
        match pair_size_of(&l.pairs[i], e) {
            Some(n) => {
                if n > cap - acc {
                    return None;
                }
                acc = acc + n;
            },
            None => {
                assert(!pair_fits(all[i as int], e));
                return None;
            },
        }
        i += 1;
    }
    Some(acc)
}

impl NvListRef {
    /// The number of bytes that the list takes in the given encoding. Fails
    /// where the list has no encoding.
    pub fn encoded_size(&self, encoding: NvEncoding) -> (r: Result<u64, NvError>)
        ensures
            fits(self@, encoding) ==> r == Ok::<u64, NvError>(stream_size(self@, encoding) as u64),
            !fits(self@, encoding) ==> r == Err::<u64, NvError>(NvError::EncodingFailure),
    {
        match body_size_of(self, encoding, u64::MAX - 4) {
            Some(n) => Ok(n + 4),
            None => Err(NvError::EncodingFailure),
        }
    }
}

} // verus!

//! Writing a list in one of the two encodings.

use crate::data::{list_views, NvData, NvList, NvListRef, NvPair};
use crate::error::NvError;
use crate::format::{
    bodies, body, body_fits, code, fits, flags, nelem, number, pair, pair_fits, pairs, payload,
    payload_fits, stream, stream_size, tag_code, text, twos, word, words64, zeros, NvEncoding,
};
use crate::measure::{
    lemma_stream_len, body_size_of, decoded_size_of, pad_of, pair_size_of, unit_of, width_of,
};
use crate::model::{NvType, Unique};
use crate::wire::{lemma_limits, limit, put_be, put_le, top_of};
use vstd::prelude::*;

verus! {

/// Appends the `n` bytes of `v` in the byte order of `e`.
pub(crate) fn put_word(out: &mut Vec<u8>, e: NvEncoding, v: u64, n: usize)
    ensures
        final(out)@ == old(out)@ + word(e, v as nat, n as nat),
{
    match e {
        NvEncoding::Native => put_le(out, v, n),
        NvEncoding::Xdr => put_be(out, v, n),
    }
}

/// Appends `n` zero bytes.
pub(crate) fn put_zeros(out: &mut Vec<u8>, n: u64)
    ensures
        final(out)@ == old(out)@ + zeros(n as nat),
{
    let mut i: u64 = 0;
    while i < n
        invariant
            i <= n,
            out@ == old(out)@ + zeros(i as nat),
        decreases n - i,
    {
        out.push(0);
        i += 1;
        assert(out@ =~= old(out)@ + zeros(i as nat));
    }
}

/// Appends some bytes.
pub(crate) fn put_bytes(out: &mut Vec<u8>, s: &[u8])
    ensures
        final(out)@ == old(out)@ + s@,
{
    let mut i: usize = 0;
    while i < s.len()
        invariant
            i <= s.len(),
            out@ == old(out)@ + s@.take(i as int),
        decreases s.len() - i,
    {
        out.push(s[i]);
        i += 1;
        assert(out@ =~= old(out)@ + s@.take(i as int));
    }
    assert(s@.take(i as int) =~= s@);
}

/// Appends a text: its length, its bytes, and the filling.
pub(crate) fn put_text(out: &mut Vec<u8>, s: &[u8], e: NvEncoding)
    ensures
        final(out)@ == old(out)@ + text(s@, e),
{
    put_word(out, e, s.len() as u64, 4);
    put_bytes(out, s);
    put_zeros(out, pad_of(s.len() as u64, unit_of(e)));
    assert(final(out)@ =~= old(out)@ + text(s@, e));
}

/// Appends some 64-bit numbers.
pub(crate) fn put_words64(out: &mut Vec<u8>, a: &Vec<u64>, e: NvEncoding)
    ensures
        final(out)@ == old(out)@ + words64(a@, e),
{
    let mut i: usize = 0;
    assert(a@.skip(0) =~= a@);
    while i < a.len()
        invariant
            i <= a.len(),
            out@ + words64(a@.skip(i as int), e) == old(out)@ + words64(a@, e),
        decreases a.len() - i,
    {
        let ghost before = out@;
        proof {
            assert(a@.skip(i as int)[0] == a@[i as int]);
            assert(a@.skip(i as int).drop_first() =~= a@.skip(i + 1));
        }
        put_word(out, e, a[i], 8);
        assert(out@ + words64(a@.skip(i + 1), e) =~= before + words64(a@.skip(i as int), e));
        i += 1;
    }
    assert(words64(a@.skip(i as int), e) =~= Seq::<u8>::empty());
    assert(out@ + Seq::<u8>::empty() =~= out@);
}

/// A number in two's complement of `w` bytes.
fn twos_of(v: i64, w: u64) -> (r: u64)
    requires
        w == 1 || w == 2 || w == 4 || w == 8,
        -limit(w as nat) <= v,
    ensures
        r == twos(v as int, w as nat),
{
    if v >= 0 {
        v as u64
    } else {
        top_of(w) - ((-(v + 1)) as u64)
    }
}

/// The number that is written for a scalar in `w` bytes.
fn raw_of(d: &NvData, w: u64) -> (r: u64)
    requires
        w == 1 || w == 2 || w == 4 || w == 8,
        -limit(w as nat) <= number(d@),
    ensures
        r == twos(number(d@), w as nat),
{
    match d {
        NvData::BoolV(b) => if *b {
            1
        } else {
            0
        },
        NvData::Byte(x) => *x as u64,
        NvData::Uint8(x) => *x as u64,
        NvData::Uint16(x) => *x as u64,
        NvData::Uint32(x) => *x as u64,
        NvData::Uint64(x) => *x,
        NvData::Int8(x) => twos_of(*x as i64, w),
        NvData::Int16(x) => twos_of(*x as i64, w),
        NvData::Int32(x) => twos_of(*x as i64, w),
        NvData::Int64(x) => twos_of(*x, w),
        _ => 0,
    }
}

/// The number that stands for a kind on the wire.
pub(crate) fn tag_code_of(t: NvType) -> (r: u64)
    ensures
        r == tag_code(t),
{
    match t {
        NvType::Unknown => 0,
        NvType::Boolean => 1,
        NvType::Byte => 2,
        NvType::Int16 => 3,
        NvType::Uint16 => 4,
        NvType::Int32 => 5,
        NvType::Uint32 => 6,
        NvType::Int64 => 7,
        NvType::Uint64 => 8,
        NvType::String => 9,
        NvType::Uint64Array => 16,
        NvType::NvList => 19,
        NvType::NvListArray => 20,
        NvType::BooleanValue => 21,
        NvType::Int8 => 22,
        NvType::Uint8 => 23,
    }
}

/// The word that stands for a demand on names.
pub(crate) fn flags_of(u: Unique) -> (r: u64)
    ensures
        r == flags(u),
{
    match u {
        Unique::Off => 0,
        Unique::Name => 1,
        Unique::NameType => 2,
    }
}

/// The number of elements that an entry of this value declares.
fn nelem_of(d: &NvData) -> (r: u64)
    ensures
        r == nelem(d@),
{
    match d {
        NvData::Unknown | NvData::Bool => 0,
        NvData::Uint64Array(a) => a.len() as u64,
        NvData::NvListArray(ls) => ls.len() as u64,
        _ => 1,
    }
}

/// Appends some bodies.
fn put_bodies(out: &mut Vec<u8>, ls: &Vec<NvList>, e: NvEncoding)
    requires
        forall|i: int| 0 <= i < ls.len() ==> body_fits(#[trigger] ls[i]@, e),
    ensures
        final(out)@ == old(out)@ + bodies(list_views(ls@), e),
    decreases ls, 1int,
{
    let ghost all = list_views(ls@);
    let mut i: usize = 0;
    assert(all.skip(0) =~= all);
    while i < ls.len()
        invariant
            i <= ls.len(),
            all == list_views(ls@),
            forall|i: int| 0 <= i < ls.len() ==> body_fits(#[trigger] ls[i]@, e),
            out@ + bodies(all.skip(i as int), e) == old(out)@ + bodies(all, e),
        decreases ls.len() - i,
    {
        let ghost before = out@;
        proof {
            assert(all.skip(i as int)[0] == ls[i as int]@);
            assert(all.skip(i as int).drop_first() =~= all.skip(i + 1));
        }
        put_body(out, &ls[i].list, e);
        assert(out@ + bodies(all.skip(i + 1), e) =~= before + bodies(all.skip(i as int), e));
        i += 1;
    }
    assert(bodies(all.skip(i as int), e) =~= Seq::<u8>::empty());
    assert(out@ + Seq::<u8>::empty() =~= out@);
}

/// Appends the payload of a value.
fn put_payload(out: &mut Vec<u8>, d: &NvData, e: NvEncoding)
    requires
        payload_fits(d@, e),
    ensures
        final(out)@ == old(out)@ + payload(d@, e),
    decreases d, 2int,
{
    match d {
        NvData::Unknown | NvData::Bool => {
            assert(out@ + Seq::<u8>::empty() =~= out@);
        },
        NvData::Str(s) => put_text(out, s.as_slice(), e),
        NvData::NvListRef(l) => put_body(out, &l.list, e),
        NvData::Uint64Array(a) => put_words64(out, a, e),
        NvData::NvListArray(ls) => {
            proof {
                let vs = list_views(ls@);
                assert(d@->ListArray_0 =~= vs);
                assert forall|i: int| 0 <= i < ls.len() implies body_fits(
                    #[trigger] ls[i]@,
                    e,
                ) by {
                    assert(body_fits(vs[i], e));
                }
            }
            put_bodies(out, ls, e)
        },
        _ => {
            let w: u64 = width_of(e, d.tag());
            proof {
                lemma_limits();
            }
            let raw: u64 = raw_of(d, w);
            put_word(out, e, raw, w as usize);
            put_zeros(out, pad_of(w, unit_of(e)));
            assert(final(out)@ =~= old(out)@ + payload(d@, e));
        },
    }
}

/// Appends an entry.
fn put_pair(out: &mut Vec<u8>, p: &NvPair, e: NvEncoding)
    requires
        pair_fits(p@, e),
    ensures
        final(out)@ == old(out)@ + pair(p@, e),
    decreases p, 3int,
{
    let size: u64 = match pair_size_of(p, e) {
        Some(n) => n,
        None => 0,
    };
    let mem: u64 = match decoded_size_of(p) {
        Some(n) => n,
        None => 0,
    };
    put_word(out, e, size, 4);
    put_word(out, e, mem, 4);
    put_text(out, p.name.as_slice(), e);
    put_word(out, e, tag_code_of(p.data.tag()), 4);
    put_word(out, e, nelem_of(&p.data), 4);
    put_payload(out, &p.data, e);
    assert(final(out)@ =~= old(out)@ + pair(p@, e));
}

/// Appends a body.
fn put_body(out: &mut Vec<u8>, l: &NvListRef, e: NvEncoding)
    requires
        body_fits(l@, e),
    ensures
        final(out)@ == old(out)@ + body(l@, e),
    decreases l, 4int,
{
    put_word(out, e, 0, 4);
    put_word(out, e, flags_of(l.unique), 4);
    let ghost all = l@.entries;
    let ghost start = out@;
    let mut i: usize = 0;
    assert(all.skip(0) =~= all);
    while i < l.pairs.len()
        invariant
            i <= l.pairs.len(),
            all == l@.entries,
            body_fits(l@, e),
            out@ + pairs(all.skip(i as int), e) == start + pairs(all, e),
        decreases l.pairs.len() - i,
    {
        let ghost before = out@;
        proof {
            assert(all.skip(i as int)[0] == l.pairs[i as int]@);
            assert(all.skip(i as int).drop_first() =~= all.skip(i + 1));
            assert(pair_fits(all[i as int], e));
        }
        put_pair(out, &l.pairs[i], e);
        assert(out@ + pairs(all.skip(i + 1), e) =~= before + pairs(all.skip(i as int), e));
        i += 1;
    }
    assert(pairs(all.skip(i as int), e) =~= Seq::<u8>::empty());
    assert(out@ + Seq::<u8>::empty() =~= out@);
    put_zeros(out, 8);
    assert(final(out)@ =~= old(out)@ + body(l@, e));
}

/// The first header byte of an encoding.
pub(crate) fn code_of(e: NvEncoding) -> (r: u8)
    ensures
        r == code(e),
{
    match e {
        NvEncoding::Native => 0,
        NvEncoding::Xdr => 1,
    }
}

impl NvListRef {
    /// The bytes of the list in the given encoding, as many as its size says.
    /// Fails where the list has no encoding.
    pub fn encode(&self, encoding: NvEncoding) -> (r: Result<Vec<u8>, NvError>)
        ensures
            self.wf(),
            fits(self@, encoding) ==> (r matches Ok(bytes) && bytes@ == stream(self@, encoding)
                && bytes@.len() == stream_size(self@, encoding)),
            !fits(self@, encoding) ==> (r matches Err(NvError::EncodingFailure)),
    {
        proof {
            use_type_invariant(self);
            lemma_stream_len(self@, encoding);
        }
        if body_size_of(self, encoding, u64::MAX - 4).is_none() {
            return Err(NvError::EncodingFailure);
        }
        let mut out: Vec<u8> = Vec::new();
        out.push(code_of(encoding));
        out.push(1);
        out.push(0);
        out.push(0);
        put_body(&mut out, self, encoding);
        assert(out@ =~= stream(self@, encoding));
        Ok(out)
    }
}

} // verus!

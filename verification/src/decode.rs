//! Reading a list from its encoding.

use crate::data::{list_views, views, NvData, NvList, NvListRef, NvPair};
use crate::error::NvError;
use crate::format::{fits, stream, zeros, NvEncoding, MAX_SIZE};
use crate::insert::lemma_view;
use crate::measure::{decoded_size_of, pad_of, unit_of, width_of};
use crate::model::{Entry, Listing, NvType, Unique};
use crate::name::no_nul;
use crate::parse::{
    from_twos, parse_bodies, parse_body, parse_pair, parse_pairs, parse_payload, parse_scalar,
    parse_stream, parse_text, parse_words64, scalar_of, tag_of_code, unique_of_flags, word_at,
};
use crate::roundtrip::lemma_round_trip;
use crate::sound::{lemma_pairs_sound, lemma_stream_sound};
use crate::wire::{get_be, get_le, lemma_limits, lemma_word_of_val, limit, top_of};
use vstd::prelude::*;

verus! {

/// The number in the `n` bytes at `at` behind `base`.
fn word_in(bytes: &[u8], base: usize, at: usize, n: usize, e: NvEncoding) -> (r: u64)
    requires
        n <= 8,
        base + at + n <= bytes.len(),
    ensures
        r == word_at(bytes@.skip(base as int), at as int, n as int, e),
        r < limit(n as nat),
{
    proof {
        assert(bytes@.skip(base as int).subrange(at as int, at + n) =~= bytes@.subrange(
            base + at,
            base + at + n,
        ));
        lemma_word_of_val(bytes@.subrange(base + at, base + at + n));
    }
    match e {
        NvEncoding::Native => get_le(bytes, base + at, n),
        NvEncoding::Xdr => get_be(bytes, base + at, n),
    }
}

/// True when the `n` bytes at `at` behind `base` are zero.
fn zeros_in(bytes: &[u8], base: usize, at: usize, n: usize) -> (r: bool)
    requires
        base + at + n <= bytes.len(),
    ensures
        r == (bytes@.skip(base as int).subrange(at as int, at + n) == zeros(n as nat)),
{
    let ghost part = bytes@.skip(base as int).subrange(at as int, at + n);
    let mut i: usize = 0;
    while i < n
        invariant
            i <= n,
            base + at + n <= bytes.len(),
            part == bytes@.skip(base as int).subrange(at as int, at + n),
            forall|j: int| 0 <= j < i ==> part[j] == 0,
        decreases n - i,
    {
        assert(part[i as int] == bytes@[base + at + i]);
        if bytes[base + at + i] != 0 {
            assert(zeros(n as nat)[i as int] == 0);
            return false;
        }
        i += 1;
    }
    assert(part =~= zeros(n as nat));
    true
}

/// The `n` bytes at `at` behind `base`, where none of them is a terminator.
fn text_bytes_in(bytes: &[u8], base: usize, at: usize, n: usize) -> (r: Option<Vec<u8>>)
    requires
        base + at + n <= bytes.len(),
    ensures
        r is Some <==> no_nul(bytes@.skip(base as int).subrange(at as int, at + n)),
        r is Some ==> r->0@ == bytes@.skip(base as int).subrange(at as int, at + n),
{
    let ghost part = bytes@.skip(base as int).subrange(at as int, at + n);
    let mut out: Vec<u8> = Vec::new();
    let mut i: usize = 0;
    while i < n
        invariant
            i <= n,
            base + at + n <= bytes.len(),
            part == bytes@.skip(base as int).subrange(at as int, at + n),
            out@ == part.take(i as int),
            no_nul(out@),
        decreases n - i,
    {
        assert(part[i as int] == bytes@[base + at + i]);
        let b: u8 = bytes[base + at + i];
        if b == 0 {
            return None;
        }
        out.push(b);
        i += 1;
        assert(out@ =~= part.take(i as int));
    }
    assert(part.take(i as int) =~= part);
    Some(out)
}

/// A text behind `base`.
fn text_in(bytes: &[u8], base: usize, e: NvEncoding) -> (r: Option<(Vec<u8>, usize)>)
    requires
        base <= bytes.len(),
    ensures
        match parse_text(bytes@.skip(base as int), e) {
            Some((t, n)) => r matches Some(x) && x.0@ == t && x.1 == n && base + n
                <= bytes.len(),
            None => r is None,
        },
{
    let avail: usize = bytes.len() - base;
    if avail < 4 {
        return None;
    }
    proof {
        lemma_limits();
    }
    let len: u64 = word_in(bytes, base, 0, 4, e);
    let pad: u64 = pad_of(len, unit_of(e));
    if 4 + len + pad > avail as u64 {
        return None;
    }
    let len: usize = len as usize;
    let pad: usize = pad as usize;
    if !zeros_in(bytes, base, 4 + len, pad) {
        return None;
    }
    match text_bytes_in(bytes, base, 4, len) {
        Some(t) => Some((t, 4 + len + pad)),
        None => None,
    }
}

/// The number that `raw` stands for in two's complement of `w` bytes.
fn from_twos_of(raw: u64, w: u64) -> (r: i64)
    requires
        w == 1 || w == 2 || w == 4 || w == 8,
        raw < limit(w as nat),
        from_twos(raw as nat, w as nat) < 0x8000_0000_0000_0000,
    ensures
        r == from_twos(raw as nat, w as nat),
{
    proof {
        lemma_limits();
    }
    let top: u64 = top_of(w);
    if raw <= top / 2 {
        raw as i64
    } else {
        -((top - raw) as i64) - 1
    }
}

/// The scalar of kind `t` that was written as `raw` in `w` bytes.
fn scalar_from(t: NvType, raw: u64, w: u64) -> (r: Option<NvData>)
    requires
        w == 1 || w == 2 || w == 4 || w == 8,
        raw < limit(w as nat),
    ensures
        match scalar_of(t, raw as nat, w as nat) {
            Some(v) => r matches Some(d) && d@ == v,
            None => r is None,
        },
{
    proof {
        lemma_limits();
    }
    match t {
        NvType::BooleanValue => if raw <= 1 {
            Some(NvData::BoolV(raw == 1))
        } else {
            None
        },
        NvType::Byte => if raw <= 0xff {
            Some(NvData::Byte(raw as u8))
        } else {
            None
        },
        NvType::Uint8 => if raw <= 0xff {
            Some(NvData::Uint8(raw as u8))
        } else {
            None
        },
        NvType::Uint16 => if raw <= 0xffff {
            Some(NvData::Uint16(raw as u16))
        } else {
            None
        },
        NvType::Uint32 => if raw <= 0xffff_ffff {
            Some(NvData::Uint32(raw as u32))
        } else {
            None
        },
        NvType::Uint64 => Some(NvData::Uint64(raw)),
        NvType::Int8 => {
            let n: i64 = from_twos_of(raw, w);
            if -128 <= n && n <= 127 {
                Some(NvData::Int8(n as i8))
            } else {
                None
            }
        },
        NvType::Int16 => {
            let n: i64 = from_twos_of(raw, w);
            if -32768 <= n && n <= 32767 {
                Some(NvData::Int16(n as i16))
            } else {
                None
            }
        },
        NvType::Int32 => {
            let n: i64 = from_twos_of(raw, w);
            if -2147483648 <= n && n <= 2147483647 {
                Some(NvData::Int32(n as i32))
            } else {
                None
            }
        },
        NvType::Int64 => Some(NvData::Int64(from_twos_of(raw, w))),
        _ => None,
    }
}

/// A scalar of kind `t` behind `base`.
fn scalar_in(bytes: &[u8], base: usize, e: NvEncoding, t: NvType) -> (r: Option<(NvData, usize)>)
    requires
        base <= bytes.len(),
    ensures
        match parse_scalar(bytes@.skip(base as int), e, t) {
            Some((v, n)) => r matches Some(x) && x.0@ == v && x.1 == n && base + n
                <= bytes.len(),
            None => r is None,
        },
{
    let avail: usize = bytes.len() - base;
    let w: u64 = width_of(e, t);
    let pad: u64 = pad_of(w, unit_of(e));
    if w == 0 || w + pad > avail as u64 {
        return None;
    }
    let wide: usize = w as usize;
    let fill: usize = pad as usize;
    if !zeros_in(bytes, base, wide, fill) {
        return None;
    }
    let raw: u64 = word_in(bytes, base, 0, wide, e);
    match scalar_from(t, raw, w) {
        Some(d) => Some((d, wide + fill)),
        None => None,
    }
}

/// `count` 64-bit numbers behind `base`.
fn words64_in(bytes: &[u8], base: usize, e: NvEncoding, count: u64) -> (r: Option<
    (Vec<u64>, usize),
>)
    requires
        base <= bytes.len(),
    ensures
        match parse_words64(bytes@.skip(base as int), e, count as nat) {
            Some((a, n)) => r matches Some(x) && x.0@ == a && x.1 == n && base + n
                <= bytes.len(),
            None => r is None,
        },
{
    let avail: usize = bytes.len() - base;
    if count > (avail as u64) / 8 {
        return None;
    }
    let count: usize = count as usize;
    let ghost s = bytes@.skip(base as int);
    let mut out: Vec<u64> = Vec::new();
    let mut i: usize = 0;
    while i < count
        invariant
            i <= count,
            base + 8 * count <= bytes.len(),
            s == bytes@.skip(base as int),
            out@.len() == i,
            forall|j: int| 0 <= j < i ==> out@[j] == word_at(s, 8 * j, 8, e) as u64,
        decreases count - i,
    {
        let v: u64 = word_in(bytes, base, 8 * i, 8, e);
        out.push(v);
        i += 1;
    }
    assert(out@ =~= Seq::new(count as nat, |i: int| word_at(s, 8 * i, 8, e) as u64));
    Some((out, 8 * count))
}

/// The kind that a number stands for on the wire.
fn tag_from(c: u64) -> (r: Option<NvType>)
    ensures
        r == tag_of_code(c as nat),
{
    if c == 0 {
        Some(NvType::Unknown)
    } else if c == 1 {
        Some(NvType::Boolean)
    } else if c == 2 {
        Some(NvType::Byte)
    } else if c == 3 {
        Some(NvType::Int16)
    } else if c == 4 {
        Some(NvType::Uint16)
    } else if c == 5 {
        Some(NvType::Int32)
    } else if c == 6 {
        Some(NvType::Uint32)
    } else if c == 7 {
        Some(NvType::Int64)
    } else if c == 8 {
        Some(NvType::Uint64)
    } else if c == 9 {
        Some(NvType::String)
    } else if c == 16 {
        Some(NvType::Uint64Array)
    } else if c == 19 {
        Some(NvType::NvList)
    } else if c == 20 {
        Some(NvType::NvListArray)
    } else if c == 21 {
        Some(NvType::BooleanValue)
    } else if c == 22 {
        Some(NvType::Int8)
    } else if c == 23 {
        Some(NvType::Uint8)
    } else {
        None
    }
}

/// The demand on names that a word stands for.
fn unique_from(f: u64) -> (r: Option<Unique>)
    ensures
        r == unique_of_flags(f as nat),
{
    if f == 0 {
        Some(Unique::Off)
    } else if f == 1 {
        Some(Unique::Name)
    } else if f == 2 {
        Some(Unique::NameType)
    } else {
        None
    }
}

/// True when no two of the pairs clash under this demand on names.
fn distinct_of(unique: Unique, pairs: &Vec<NvPair>) -> (r: bool)
    ensures
        r == (Listing { unique, entries: views(pairs@) }).distinct(),
{
    let ghost l = Listing { unique, entries: views(pairs@) };
    let mut j: usize = 0;
    while j < pairs.len()
        invariant
            j <= pairs.len(),
            l == (Listing { unique, entries: views(pairs@) }),
            forall|a: int, b: int|
                0 <= a < b < j ==> !(#[trigger] l.entries[a]).clashes(
                    unique,
                    (#[trigger] l.entries[b]).name,
                    l.entries[b].value.tag(),
                ),
        decreases pairs.len() - j,
    {
        let mut i: usize = 0;
        while i < j
            invariant
                i <= j < pairs.len(),
                l == (Listing { unique, entries: views(pairs@) }),
                forall|a: int|
                    0 <= a < i ==> !(#[trigger] l.entries[a]).clashes(
                        unique,
                        l.entries[j as int].name,
                        l.entries[j as int].value.tag(),
                    ),
            decreases j - i,
        {
            if pairs[i].clashes(unique, pairs[j].name.as_slice(), pairs[j].data.tag()) {
                assert(l.entries[i as int].clashes(
                    unique,
                    l.entries[j as int].name,
                    l.entries[j as int].value.tag(),
                ));
                return false;
            }
            i += 1;
        }
        j += 1;
    }
    true
}

/// `count` bodies behind `base`.
fn bodies_in(bytes: &[u8], base: usize, e: NvEncoding, count: u64) -> (r: Option<
    (Vec<NvList>, usize),
>)
    requires
        base <= bytes.len(),
    ensures
        match parse_bodies(bytes@.skip(base as int), e, count as nat) {
            Some((ls, n)) => r matches Some(x) && list_views(x.0@) == ls && x.1 == n && base + n
                <= bytes.len(),
            None => r is None,
        },
    decreases bytes.len() - base, 2int,
{
    let ghost whole = parse_bodies(bytes@.skip(base as int), e, count as nat);
    let mut out: Vec<NvList> = Vec::new();
    let mut at: usize = base;
    let mut left: u64 = count;
    proof {
        if whole is Some {
            assert(Seq::<Listing>::empty() + whole.unwrap().0 =~= whole.unwrap().0);
        }
    }
    assert(list_views(out@) =~= Seq::<Listing>::empty());
    while left > 0
        invariant
            base <= at <= bytes.len(),
            whole == parse_bodies(bytes@.skip(base as int), e, count as nat),
            match parse_bodies(bytes@.skip(at as int), e, left as nat) {
                Some((ls, n)) => whole == Some((list_views(out@) + ls, (at - base + n) as nat)),
                None => whole is None,
            },
        decreases left,
    {
        let ghost s = bytes@.skip(at as int);
        match body_in(bytes, at, e) {
            None => {
                return None;
            },
            Some((l, n)) => {
                if n == 0 {
                    return None;
                }
                proof {
                    assert(s.skip(n as int) =~= bytes@.skip(at + n));
                    let rest = parse_bodies(s.skip(n as int), e, (left - 1) as nat);
                    if rest is Some {
                        assert(list_views(out@.push(l)) + rest.unwrap().0 =~= list_views(out@) + (seq![
                            l@,
                        ] + rest.unwrap().0));
                    }
                }
                out.push(l);
                at = at + n;
                left = left - 1;
            },
        }
    }
    proof {
        assert(list_views(out@) + Seq::<Listing>::empty() =~= list_views(out@));
    }
    Some((out, at - base))
}

/// The payload of an entry of kind `t` with `count` elements behind `base`.
fn payload_in(bytes: &[u8], base: usize, e: NvEncoding, t: NvType, count: u64) -> (r: Option<
    (NvData, usize),
>)
    requires
        base <= bytes.len(),
    ensures
        match parse_payload(bytes@.skip(base as int), e, t, count as nat) {
            Some((v, n)) => r matches Some(x) && x.0@ == v && x.1 == n && base + n
                <= bytes.len(),
            None => r is None,
        },
    decreases bytes.len() - base, 3int,
{
    match t {
        NvType::Unknown => if count == 0 {
            Some((NvData::Unknown, 0))
        } else {
            None
        },
        NvType::Boolean => if count == 0 {
            Some((NvData::Bool, 0))
        } else {
            None
        },
        NvType::String => if count != 1 {
            None
        } else {
            match text_in(bytes, base, e) {
                Some((text, n)) => Some((NvData::Str(text), n)),
                None => None,
            }
        },
        NvType::NvList => if count != 1 {
            None
        } else {
            match body_in(bytes, base, e) {
                Some((l, n)) => Some((NvData::NvListRef(l), n)),
                None => None,
            }
        },
        NvType::Uint64Array => match words64_in(bytes, base, e, count) {
            Some((a, n)) => Some((NvData::Uint64Array(a), n)),
            None => None,
        },
        NvType::NvListArray => match bodies_in(bytes, base, e, count) {
            Some((ls, n)) => {
                let d = NvData::NvListArray(ls);
                assert(d@->ListArray_0 =~= list_views(ls@));
                Some((d, n))
            },
            None => None,
        },
        _ => if count != 1 {
            None
        } else {
            scalar_in(bytes, base, e, t)
        },
    }
}

/// An entry behind `base`.
fn pair_in(bytes: &[u8], base: usize, e: NvEncoding) -> (r: Option<(NvPair, usize)>)
    requires
        base <= bytes.len(),
    ensures
        match parse_pair(bytes@.skip(base as int), e) {
            Some((p, n)) => r matches Some(x) && x.0@ == p && x.1 == n && base + n
                <= bytes.len(),
            None => r is None,
        },
    decreases bytes.len() - base, 0int,
{
    let ghost s = bytes@.skip(base as int);
    if bytes.len() - base < 8 {
        return None;
    }
    assert(s.skip(8) =~= bytes@.skip(base + 8));
    let (name, n) = match text_in(bytes, base + 8, e) {
        Some(x) => x,
        None => {
            return None;
        },
    };
    let at: usize = 8 + n;
    if bytes.len() - base - at < 8 {
        return None;
    }
    let t: NvType = match tag_from(word_in(bytes, base, at, 4, e)) {
        Some(t) => t,
        None => {
            return None;
        },
    };
    let count: u64 = word_in(bytes, base, at + 4, 4, e);
    assert(s.skip(at + 8) =~= bytes@.skip(base + at + 8));
    let (data, m) = match payload_in(bytes, base + at + 8, e, t, count) {
        Some(x) => x,
        None => {
            return None;
        },
    };
    let p = NvPair { name, data };
    let total: usize = at + 8 + m;
    if total as u64 > MAX_SIZE {
        return None;
    }
    let mem: u64 = match decoded_size_of(&p) {
        Some(mem) => mem,
        None => {
            return None;
        },
    };
    if word_in(bytes, base, 0, 4, e) != total as u64 || word_in(bytes, base, 4, 4, e) != mem {
        return None;
    }
    Some((p, total))
}

/// The entries behind `base`, up to the two zero words behind them.
fn pairs_in(bytes: &[u8], base: usize, e: NvEncoding) -> (r: Option<(Vec<NvPair>, usize)>)
    requires
        base <= bytes.len(),
    ensures
        match parse_pairs(bytes@.skip(base as int), e) {
            Some((ps, n)) => r matches Some(x) && views(x.0@) == ps && x.1 == n
                && base + n <= bytes.len(),
            None => r is None,
        },
    decreases bytes.len() - base, 1int,
{
    let ghost whole = parse_pairs(bytes@.skip(base as int), e);
    let mut out: Vec<NvPair> = Vec::new();
    let mut at: usize = base;
    proof {
        if whole is Some {
            assert(Seq::<Entry>::empty() + whole.unwrap().0 =~= whole.unwrap().0);
        }
    }
    assert(views(out@) =~= Seq::<Entry>::empty());
    loop
        invariant
            base <= at <= bytes.len(),
            whole == parse_pairs(bytes@.skip(base as int), e),
            match parse_pairs(bytes@.skip(at as int), e) {
                Some((ps, n)) => whole == Some(
                    (views(out@) + ps, (at - base + n) as nat),
                ),
                None => whole is None,
            },
        decreases bytes.len() - at,
    {
        let ghost s = bytes@.skip(at as int);
        if bytes.len() - at < 8 {
            return None;
        }
        if zeros_in(bytes, at, 0, 8) {
            proof {
                assert(views(out@) + Seq::<Entry>::empty() =~= views(
                    out@,
                ));
            }
            return Some((out, at - base + 8));
        }
        match pair_in(bytes, at, e) {
            None => {
                return None;
            },
            Some((p, n)) => {
                if n == 0 {
                    return None;
                }
                proof {
                    assert(s.skip(n as int) =~= bytes@.skip(at + n));
                    let rest = parse_pairs(s.skip(n as int), e);
                    if rest is Some {
                        assert(views(out@.push(p)) + rest.unwrap().0
                            =~= views(out@) + (seq![p@] + rest.unwrap().0));
                    }
                }
                out.push(p);
                at = at + n;
            },
        }
    }
}

/// A body behind `base`.
fn body_in(bytes: &[u8], base: usize, e: NvEncoding) -> (r: Option<(NvList, usize)>)
    requires
        base <= bytes.len(),
    ensures
        match parse_body(bytes@.skip(base as int), e) {
            Some((l, n)) => r matches Some(x) && x.0@ == l && x.1 == n && base + n
                <= bytes.len(),
            None => r is None,
        },
    decreases bytes.len() - base, 1int,
{
    let ghost s = bytes@.skip(base as int);
    if bytes.len() - base < 8 {
        return None;
    }
    if word_in(bytes, base, 0, 4, e) != 0 {
        return None;
    }
    let unique: Unique = match unique_from(word_in(bytes, base, 4, 4, e)) {
        Some(u) => u,
        None => {
            return None;
        },
    };
    assert(s.skip(8) =~= bytes@.skip(base + 8));
    let (pairs, n) = match pairs_in(bytes, base + 8, e) {
        Some(x) => x,
        None => {
            return None;
        },
    };
    if !distinct_of(unique, &pairs) {
        return None;
    }
    proof {
        lemma_pairs_sound(s.skip(8), e);
        lemma_view(NvListRef { unique, pairs });
    }
    Some((NvList { list: NvListRef { unique, pairs } }, 8 + n))
}

impl NvList {
    /// Reads a list from its encoding. The first byte tells the encoding:
    /// 0 the native, 1 the portable one. The bytes that either encoding gives
    /// for a well-formed list are read back as that list; all other bytes are
    /// refused.
    pub fn decode(bytes: &[u8]) -> (r: Result<NvList, NvError>)
        ensures
            forall|l: Listing, e: NvEncoding|
                l.wf() && fits(l, e) && bytes@ == #[trigger] stream(l, e) ==> (r matches Ok(x)
                    && x@ == l),
            r matches Ok(x) ==> x.wf() && exists|e: NvEncoding|
                fits(x@, e) && bytes@ == #[trigger] stream(x@, e),
            r matches Err(x) ==> x == NvError::DecodingFailure,
            match parse_stream(bytes@) {
                Some(l) => r matches Ok(x) && x@ == l,
                None => r is Err,
            },
    {
        proof {
            if parse_stream(bytes@) is Some {
                lemma_stream_sound(bytes@);
            }
            assert forall|l: Listing, e: NvEncoding|
                l.wf() && fits(l, e) && bytes@ == #[trigger] stream(l, e) implies parse_stream(
                bytes@,
            ) == Some(l) by {
                lemma_round_trip(l, e);
            }
        }
        if bytes.len() < 4 || bytes[1] != 1 || bytes[2] != 0 || bytes[3] != 0 {
            return Err(NvError::DecodingFailure);
        }
        let e: NvEncoding = if bytes[0] == 0 {
            NvEncoding::Native
        } else if bytes[0] == 1 {
            NvEncoding::Xdr
        } else {
            return Err(NvError::DecodingFailure);
        };
        match body_in(bytes, 4, e) {
            Some((l, n)) => if n + 4 == bytes.len() {
                Ok(l)
            } else {
                Err(NvError::DecodingFailure)
            },
            None => Err(NvError::DecodingFailure),
        }
    }
}

} // verus!

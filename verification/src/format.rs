//! The two wire encodings, as functions from a list to its bytes and size.
//!
//! Both encodings lay a list out in the same way. A stream is four header
//! bytes (the encoding, the byte 1, two zero bytes) and a body. A body
//! is a version word, a word for the demand on names, the entries one after
//! the other, and two zero words. An entry is the size of its encoding, the
//! size it takes in memory, its name, the code of its kind, its number of
//! elements and its payload. The portable encoding writes every number most
//! significant byte first, every small scalar as one word of four bytes, and
//! fills texts up to a multiple of four bytes. The native encoding writes
//! numbers least significant byte first, scalars in their own width, and
//! fills up to a multiple of eight bytes.

use crate::model::{Entry, Listing, NvType, Unique, Value};
use crate::wire::{be, be_val, le, le_val, limit};
use vstd::prelude::*;

verus! {

/// A wire encoding.
#[derive(Clone, Copy, Debug, PartialEq, Eq, Structural)]
pub enum NvEncoding {
    /// Least significant byte first, eight-byte units.
    Native,
    /// Most significant byte first, four-byte units.
    Xdr,
}

/// The largest size that a size word may hold.
pub const MAX_SIZE: u64 = 0x7fff_ffff;

/// The first header byte of an encoding.
pub open spec fn code(e: NvEncoding) -> u8 {
    match e {
        NvEncoding::Native => 0,
        NvEncoding::Xdr => 1,
    }
}

/// The unit to whose multiples texts and scalars are filled up.
pub open spec fn unit(e: NvEncoding) -> nat {
    match e {
        NvEncoding::Native => 8,
        NvEncoding::Xdr => 4,
    }
}

/// The `n` bytes of `v` in the byte order of `e`.
pub open spec fn word(e: NvEncoding, v: nat, n: nat) -> Seq<u8> {
    match e {
        NvEncoding::Native => le(v, n),
        NvEncoding::Xdr => be(v, n),
    }
}

/// The number that `s` holds in the byte order of `e`.
pub open spec fn word_val(e: NvEncoding, s: Seq<u8>) -> nat {
    match e {
        NvEncoding::Native => le_val(s),
        NvEncoding::Xdr => be_val(s),
    }
}

/// The number of bytes that fill `n` up to a multiple of `unit`.
pub open spec fn pad_len(n: nat, unit: nat) -> nat {
    if unit == 0 || n % unit == 0 {
        0
    } else {
        (unit - n % unit) as nat
    }
}

/// `n` zero bytes.
pub open spec fn zeros(n: nat) -> Seq<u8> {
    Seq::new(n, |i: int| 0u8)
}

/// The word that stands for a demand on names.
pub open spec fn flags(u: Unique) -> nat {
    match u {
        Unique::Off => 0,
        Unique::Name => 1,
        Unique::NameType => 2,
    }
}

/// The number that stands for a kind on the wire.
pub open spec fn tag_code(t: NvType) -> nat {
    match t {
        NvType::Unknown => 0,
        NvType::Boolean => 1,
        NvType::Byte => 2,
        NvType::Int16 => 3,
        NvType::Uint16 => 4,
        NvType::Int32 => 5,
        NvType::Uint32 => 6,
        NvType::Int64 => 7,
        NvType::Uint64 => 8,
        NvType::String => 9,
        NvType::Uint64Array => 16,
        NvType::NvList => 19,
        NvType::NvListArray => 20,
        NvType::BooleanValue => 21,
        NvType::Int8 => 22,
        NvType::Uint8 => 23,
    }
}

/// The bytes that a scalar of this kind takes in memory; 0 for other kinds.
pub open spec fn natural_width(t: NvType) -> nat {
    match t {
        NvType::BooleanValue => 4,
        NvType::Byte | NvType::Int8 | NvType::Uint8 => 1,
        NvType::Int16 | NvType::Uint16 => 2,
        NvType::Int32 | NvType::Uint32 => 4,
        NvType::Int64 | NvType::Uint64 => 8,
        _ => 0,
    }
}

/// The bytes in which a scalar of this kind is written; 0 for other kinds.
pub open spec fn width(e: NvEncoding, t: NvType) -> nat {
    match e {
        NvEncoding::Native => natural_width(t),
        NvEncoding::Xdr => if natural_width(t) == 0 {
            0
        } else if natural_width(t) == 8 {
            8
        } else {
            4
        },
    }
}

/// The number that a scalar stands for; 0 for other values.
pub open spec fn number(v: Value) -> int {
    match v {
        Value::BoolV(b) => if b {
            1
        } else {
            0
        },
        Value::Byte(x) => x as int,
        Value::Int8(x) => x as int,
        Value::Uint8(x) => x as int,
        Value::Int16(x) => x as int,
        Value::Uint16(x) => x as int,
        Value::Int32(x) => x as int,
        Value::Uint32(x) => x as int,
        Value::Int64(x) => x as int,
        Value::Uint64(x) => x as int,
        _ => 0,
    }
}

/// A number in two's complement of `w` bytes.
pub open spec fn twos(v: int, w: nat) -> nat {
    if v >= 0 {
        v as nat
    } else {
        (v + limit(w)) as nat
    }
}

/// The number of elements that an entry of this value declares.
pub open spec fn nelem(v: Value) -> nat {
    match v {
        Value::Unknown | Value::Bool => 0,
        Value::Uint64Array(a) => a.len(),
        Value::ListArray(ls) => ls.len(),
        _ => 1,
    }
}

/// `n` filled up to a multiple of eight.
pub open spec fn align8(n: nat) -> nat {
    n + pad_len(n, 8)
}

/// The bytes that a value takes in memory, nested lists counted by their
/// head alone.
pub open spec fn value_mem(v: Value) -> nat {
    match v {
        Value::Str(s) => s.len() + 1,
        Value::List(_) => 24,
        Value::Uint64Array(a) => 8 * a.len(),
        Value::ListArray(ls) => 32 * ls.len(),
        _ => natural_width(v.tag()),
    }
}

/// The bytes that an entry takes in memory: a head of sixteen bytes with the
/// terminated name, and the value, each filled up to a multiple of eight.
pub open spec fn decoded_size(p: Entry) -> nat {
    align8(16 + p.name.len() + 1) + align8(value_mem(p.value))
}

/// The size of a text of `len` bytes: its length word, the bytes, the filling.
pub open spec fn text_size(len: nat, e: NvEncoding) -> nat {
    4 + len + pad_len(len, unit(e))
}

/// The size of a value's payload.
pub open spec fn payload_size(v: Value, e: NvEncoding) -> nat
    decreases v,
{
    match v {
        Value::Unknown | Value::Bool => 0,
        Value::Str(s) => text_size(s.len(), e),
        Value::List(l) => body_size(l, e),
        Value::Uint64Array(a) => 8 * a.len(),
        Value::ListArray(ls) => bodies_size(ls, e),
        _ => width(e, v.tag()) + pad_len(width(e, v.tag()), unit(e)),
    }
}

/// The size of an entry.
pub open spec fn pair_size(p: Entry, e: NvEncoding) -> nat
    decreases p,
{
    8 + text_size(p.name.len(), e) + 8 + payload_size(p.value, e)
}

/// The size of some entries.
pub open spec fn pairs_size(s: Seq<Entry>, e: NvEncoding) -> nat
    decreases s,
{
    if s.len() == 0 {
        0
    } else {
        pair_size(s[0], e) + pairs_size(s.drop_first(), e)
    }
}

/// The size of a body.
pub open spec fn body_size(l: Listing, e: NvEncoding) -> nat
    decreases l,
{
    8 + pairs_size(l.entries, e) + 8
}

/// The size of some bodies.
pub open spec fn bodies_size(ls: Seq<Listing>, e: NvEncoding) -> nat
    decreases ls,
{
    if ls.len() == 0 {
        0
    } else {
        body_size(ls[0], e) + bodies_size(ls.drop_first(), e)
    }
}

/// The size of the encoding of a list.
pub open spec fn stream_size(l: Listing, e: NvEncoding) -> nat {
    4 + body_size(l, e)
}

/// Every size word of the value's nested lists can hold its size.
pub open spec fn payload_fits(v: Value, e: NvEncoding) -> bool
    decreases v,
{
    match v {
        Value::List(l) => body_fits(l, e),
        Value::ListArray(ls) => forall|i: int| 0 <= i < ls.len() ==> body_fits(#[trigger] ls[i], e),
        _ => true,
    }
}

/// Every size word of the entry can hold its size.
pub open spec fn pair_fits(p: Entry, e: NvEncoding) -> bool
    decreases p,
{
    &&& pair_size(p, e) <= MAX_SIZE
    &&& decoded_size(p) <= MAX_SIZE
    &&& payload_fits(p.value, e)
}

/// Every size word of the list can hold its size.
pub open spec fn body_fits(l: Listing, e: NvEncoding) -> bool
    decreases l,
{
    forall|i: int| 0 <= i < l.entries.len() ==> pair_fits(#[trigger] l.entries[i], e)
}

/// The list has an encoding: every size word can hold its size, and the size
/// of the whole is a 64-bit number.
pub open spec fn fits(l: Listing, e: NvEncoding) -> bool {
    body_fits(l, e) && stream_size(l, e) <= u64::MAX
}

/// A text: its length, its bytes, and zero bytes up to the unit.
pub open spec fn text(s: Seq<u8>, e: NvEncoding) -> Seq<u8> {
    word(e, s.len(), 4) + s + zeros(pad_len(s.len(), unit(e)))
}

/// Some 64-bit numbers, one after the other.
pub open spec fn words64(a: Seq<u64>, e: NvEncoding) -> Seq<u8>
    decreases a.len(),
{
    if a.len() == 0 {
        Seq::empty()
    } else {
        word(e, a[0] as nat, 8) + words64(a.drop_first(), e)
    }
}

/// The payload of a value.
pub open spec fn payload(v: Value, e: NvEncoding) -> Seq<u8>
    decreases v,
{
    match v {
        Value::Unknown | Value::Bool => Seq::empty(),
        Value::Str(s) => text(s, e),
        Value::List(l) => body(l, e),
        Value::Uint64Array(a) => words64(a, e),
        Value::ListArray(ls) => bodies(ls, e),
        _ => word(e, twos(number(v), width(e, v.tag())), width(e, v.tag())) + zeros(
            pad_len(width(e, v.tag()), unit(e)),
        ),
    }
}

/// An entry.
pub open spec fn pair(p: Entry, e: NvEncoding) -> Seq<u8>
    decreases p,
{
    word(e, pair_size(p, e), 4) + word(e, decoded_size(p), 4) + text(p.name, e) + word(
        e,
        tag_code(p.value.tag()),
        4,
    ) + word(e, nelem(p.value), 4) + payload(p.value, e)
}

/// Some entries, one after the other.
pub open spec fn pairs(s: Seq<Entry>, e: NvEncoding) -> Seq<u8>
    decreases s,
{
    if s.len() == 0 {
        Seq::empty()
    } else {
        pair(s[0], e) + pairs(s.drop_first(), e)
    }
}

/// A body: version, demand on names, entries, and two zero words.
pub open spec fn body(l: Listing, e: NvEncoding) -> Seq<u8>
    decreases l,
{
    word(e, 0, 4) + word(e, flags(l.unique), 4) + pairs(l.entries, e) + zeros(8)
}

/// Some bodies, one after the other.
pub open spec fn bodies(ls: Seq<Listing>, e: NvEncoding) -> Seq<u8>
    decreases ls,
{
    if ls.len() == 0 {
        Seq::empty()
    } else {
        body(ls[0], e) + bodies(ls.drop_first(), e)
    }
}

/// The encoding of a list.
pub open spec fn stream(l: Listing, e: NvEncoding) -> Seq<u8> {
    seq![code(e), 1u8, 0u8, 0u8] + body(l, e)
}

} // verus!

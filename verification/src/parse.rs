//! Reading the encodings back, as functions from bytes to a list.
//!
//! Each function reads one part at the front of `s` and gives what it read
//! with the number of bytes it took, or nothing where the bytes are not the
//! encoding of such a part.

use crate::format::{
    decoded_size, number, pad_len, unit, width, word_val, zeros, NvEncoding, MAX_SIZE,
};
use crate::model::{Entry, Listing, NvType, Unique, Value};
use crate::name::no_nul;
use crate::wire::limit;
use vstd::prelude::*;

verus! {

/// The number in the `n` bytes of `s` at `at`.
pub open spec fn word_at(s: Seq<u8>, at: int, n: int, e: NvEncoding) -> nat {
    word_val(e, s.subrange(at, at + n))
}

/// The kind that a number stands for on the wire.
pub open spec fn tag_of_code(c: nat) -> Option<NvType> {
    if c == 0 {
        Some(NvType::Unknown)
    } else if c == 1 {
        Some(NvType::Boolean)
    } else if c == 2 {
        Some(NvType::Byte)
    } else if c == 3 {
        Some(NvType::Int16)
    } else if c == 4 {
        Some(NvType::Uint16)
    } else if c == 5 {
        Some(NvType::Int32)
    } else if c == 6 {
        Some(NvType::Uint32)
    } else if c == 7 {
        Some(NvType::Int64)
    } else if c == 8 {
        Some(NvType::Uint64)
    } else if c == 9 {
        Some(NvType::String)
    } else if c == 16 {
        Some(NvType::Uint64Array)
    } else if c == 19 {
        Some(NvType::NvList)
    } else if c == 20 {
        Some(NvType::NvListArray)
    } else if c == 21 {
        Some(NvType::BooleanValue)
    } else if c == 22 {
        Some(NvType::Int8)
    } else if c == 23 {
        Some(NvType::Uint8)
    } else {
        None
    }
}

/// The demand on names that a word stands for.
pub open spec fn unique_of_flags(f: nat) -> Option<Unique> {
    if f == 0 {
        Some(Unique::Off)
    } else if f == 1 {
        Some(Unique::Name)
    } else if f == 2 {
        Some(Unique::NameType)
    } else {
        None
    }
}

/// The number that `raw` stands for in two's complement of `w` bytes.
pub open spec fn from_twos(raw: nat, w: nat) -> int {
    if 2 * raw < limit(w) {
        raw as int
    } else {
        raw - limit(w)
    }
}

/// The scalar of kind `t` that was written as `raw` in `w` bytes, if `raw`
/// stands for a value of that kind.
pub open spec fn scalar_of(t: NvType, raw: nat, w: nat) -> Option<Value> {
    let n = from_twos(raw, w);
    match t {
        NvType::BooleanValue => if raw <= 1 {
            Some(Value::BoolV(raw == 1))
        } else {
            None
        },
        NvType::Byte => if raw <= u8::MAX {
            Some(Value::Byte(raw as u8))
        } else {
            None
        },
        NvType::Uint8 => if raw <= u8::MAX {
            Some(Value::Uint8(raw as u8))
        } else {
            None
        },
        NvType::Uint16 => if raw <= u16::MAX {
            Some(Value::Uint16(raw as u16))
        } else {
            None
        },
        NvType::Uint32 => if raw <= u32::MAX {
            Some(Value::Uint32(raw as u32))
        } else {
            None
        },
        NvType::Uint64 => if raw <= u64::MAX {
            Some(Value::Uint64(raw as u64))
        } else {
            None
        },
        NvType::Int8 => if i8::MIN <= n <= i8::MAX {
            Some(Value::Int8(n as i8))
        } else {
            None
        },
        NvType::Int16 => if i16::MIN <= n <= i16::MAX {
            Some(Value::Int16(n as i16))
        } else {
            None
        },
        NvType::Int32 => if i32::MIN <= n <= i32::MAX {
            Some(Value::Int32(n as i32))
        } else {
            None
        },
        NvType::Int64 => if i64::MIN <= n <= i64::MAX {
            Some(Value::Int64(n as i64))
        } else {
            None
        },
        _ => None,
    }
}

/// A text at the front of `s`.
pub open spec fn parse_text(s: Seq<u8>, e: NvEncoding) -> Option<(Seq<u8>, nat)> {
    if s.len() < 4 {
        None
    } else {
        let len = word_at(s, 0, 4, e) as int;
        let pad = pad_len(len as nat, unit(e)) as int;
        if 4 + len + pad > s.len() {
            None
        } else if s.subrange(4 + len, 4 + len + pad) != zeros(pad as nat) {
            None
        } else if !no_nul(s.subrange(4, 4 + len)) {
            None
        } else {
            Some((s.subrange(4, 4 + len), (4 + len + pad) as nat))
        }
    }
}

/// A scalar of kind `t` at the front of `s`.
pub open spec fn parse_scalar(s: Seq<u8>, e: NvEncoding, t: NvType) -> Option<(Value, nat)> {
    let w = width(e, t) as int;
    let pad = pad_len(w as nat, unit(e)) as int;
    if w == 0 || w + pad > s.len() {
        None
    } else if s.subrange(w, w + pad) != zeros(pad as nat) {
        None
    } else {
        match scalar_of(t, word_at(s, 0, w, e), w as nat) {
            Some(v) => Some((v, (w + pad) as nat)),
            None => None,
        }
    }
}

/// `count` 64-bit numbers at the front of `s`.
pub open spec fn parse_words64(s: Seq<u8>, e: NvEncoding, count: nat) -> Option<(Seq<u64>, nat)> {
    if 8 * count > s.len() {
        None
    } else {
        Some((Seq::new(count, |i: int| word_at(s, 8 * i, 8, e) as u64), 8 * count))
    }
}

/// The payload of an entry of kind `t` with `count` elements.
pub open spec fn parse_payload(s: Seq<u8>, e: NvEncoding, t: NvType, count: nat) -> Option<
    (Value, nat),
>
    decreases s.len(), 3int,
{
    match t {
        NvType::Unknown => if count == 0 {
            Some((Value::Unknown, 0))
        } else {
            None
        },
        NvType::Boolean => if count == 0 {
            Some((Value::Bool, 0))
        } else {
            None
        },
        NvType::String => if count != 1 {
            None
        } else {
            match parse_text(s, e) {
                Some((text, n)) => Some((Value::Str(text), n)),
                None => None,
            }
        },
        NvType::NvList => if count != 1 {
            None
        } else {
            match parse_body(s, e) {
                Some((l, n)) => Some((Value::List(l), n)),
                None => None,
            }
        },
        NvType::Uint64Array => match parse_words64(s, e, count) {
            Some((a, n)) => Some((Value::Uint64Array(a), n)),
            None => None,
        },
        NvType::NvListArray => match parse_bodies(s, e, count) {
            Some((ls, n)) => Some((Value::ListArray(ls), n)),
            None => None,
        },
        _ => if count != 1 {
            None
        } else {
            parse_scalar(s, e, t)
        },
    }
}

/// An entry at the front of `s`.
pub open spec fn parse_pair(s: Seq<u8>, e: NvEncoding) -> Option<(Entry, nat)>
    decreases s.len(), 0int,
{
    if s.len() < 8 {
        None
    } else {
        match parse_text(s.skip(8), e) {
            None => None,
            Some((name, n)) => {
                let at = 8 + n as int;
                if at + 8 > s.len() {
                    None
                } else {
                    match tag_of_code(word_at(s, at, 4, e)) {
                        None => None,
                        Some(t) => match parse_payload(
                            s.skip(at + 8),
                            e,
                            t,
                            word_at(s, at + 4, 4, e),
                        ) {
                            None => None,
                            Some((value, m)) => {
                                let p = Entry { name, value };
                                let total = at + 8 + m;
                                if total <= MAX_SIZE && decoded_size(p) <= MAX_SIZE && word_at(
                                    s,
                                    0,
                                    4,
                                    e,
                                ) == total && word_at(s, 4, 4, e) == decoded_size(p) {
                                    Some((p, total as nat))
                                } else {
                                    None
                                }
                            },
                        },
                    }
                }
            },
        }
    }
}

/// The entries at the front of `s`, up to the two zero words behind them.
pub open spec fn parse_pairs(s: Seq<u8>, e: NvEncoding) -> Option<(Seq<Entry>, nat)>
    decreases s.len(), 1int,
{
    if s.len() < 8 {
        None
    } else if s.subrange(0, 8) == zeros(8) {
        Some((Seq::empty(), 8))
    } else {
        match parse_pair(s, e) {
            None => None,
            Some((p, n)) => if n == 0 || n > s.len() {
                None
            } else {
                match parse_pairs(s.skip(n as int), e) {
                    None => None,
                    Some((rest, m)) => Some((seq![p] + rest, n + m)),
                }
            },
        }
    }
}

/// A body at the front of `s`.
pub open spec fn parse_body(s: Seq<u8>, e: NvEncoding) -> Option<(Listing, nat)>
    decreases s.len(), 1int,
{
    if s.len() < 8 || word_at(s, 0, 4, e) != 0 {
        None
    } else {
        match unique_of_flags(word_at(s, 4, 4, e)) {
            None => None,
            Some(unique) => match parse_pairs(s.skip(8), e) {
                None => None,
                Some((entries, n)) => {
                    let l = Listing { unique, entries };
                    if l.distinct() {
                        Some((l, 8 + n))
                    } else {
                        None
                    }
                },
            },
        }
    }
}

/// `count` bodies at the front of `s`.
pub open spec fn parse_bodies(s: Seq<u8>, e: NvEncoding, count: nat) -> Option<
    (Seq<Listing>, nat),
>
    decreases s.len(), 2int, count,
{
    if count == 0 {
        Some((Seq::empty(), 0))
    } else {
        match parse_body(s, e) {
            None => None,
            Some((l, n)) => if n == 0 || n > s.len() {
                None
            } else {
                match parse_bodies(s.skip(n as int), e, (count - 1) as nat) {
                    None => None,
                    Some((rest, m)) => Some((seq![l] + rest, n + m)),
                }
            },
        }
    }
}

/// The encoding that a header byte stands for.
pub open spec fn encoding_of(c: u8) -> Option<NvEncoding> {
    if c == 0 {
        Some(NvEncoding::Native)
    } else if c == 1 {
        Some(NvEncoding::Xdr)
    } else {
        None
    }
}

/// The list that `s` is the encoding of: a header that names the encoding,
/// and a body that takes all the bytes behind it.
pub open spec fn parse_stream(s: Seq<u8>) -> Option<Listing> {
    if s.len() < 4 || s.len() > u64::MAX || s[1] != 1 || s[2] != 0 || s[3] != 0 {
        None
    } else {
        match encoding_of(s[0]) {
            None => None,
            Some(e) => match parse_body(s.skip(4), e) {
                Some((l, n)) => if n + 4 == s.len() {
                    Some(l)
                } else {
                    None
                },
                None => None,
            },
        }
    }
}

} // verus!

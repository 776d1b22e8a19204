//! What is written is read back: every part of an encoding, followed by any
//! bytes at all, is read as the part that was written.

use crate::format::{
    bodies, bodies_size, body, body_fits, body_size, decoded_size, fits, flags, nelem, number,
    pad_len, pair, pair_fits, pair_size, pairs, pairs_size, payload, payload_fits, payload_size,
    stream, tag_code, text, text_size, twos, unit, width, word, word_val, words64, zeros,
    NvEncoding, MAX_SIZE,
};
use crate::measure::{
    lemma_bodies_len, lemma_body_len, lemma_pair_len, lemma_pairs_len, lemma_payload_len,
    lemma_text_len, lemma_word_size, lemma_words64_len,
};
use crate::model::{Entry, Listing, NvType, Value};
use crate::name::no_nul;
use crate::parse::{
    parse_bodies, parse_body, parse_pair, parse_pairs, parse_payload, parse_scalar,
    parse_stream, parse_text, parse_words64, scalar_of, tag_of_code, unique_of_flags, word_at,
};
use crate::wire::{lemma_limits, lemma_val_of_word, limit};
use vstd::prelude::*;

verus! {

/// A number that fits its bytes is read back from where it was written.
pub proof fn lemma_read_word(s: Seq<u8>, at: int, e: NvEncoding, v: nat, n: nat)
    requires
        0 <= at,
        at + n <= s.len(),
        s.subrange(at, at + n) == word(e, v, n),
        v < limit(n),
    ensures
        word_at(s, at, n as int, e) == v,
{
    lemma_val_of_word(v, n);
}

/// Zero bytes are read as the number zero.
pub proof fn lemma_zero_val(e: NvEncoding, n: nat)
    ensures
        word_val(e, zeros(n)) == 0,
    decreases n,
{
    if n > 0 {
        lemma_zero_val(e, (n - 1) as nat);
        assert(zeros(n).drop_last() =~= zeros((n - 1) as nat));
        assert(zeros(n).drop_first() =~= zeros((n - 1) as nat));
    }
}

/// A text is read back.
pub proof fn lemma_parse_text(t: Seq<u8>, e: NvEncoding, rest: Seq<u8>)
    requires
        no_nul(t),
        t.len() < limit(4),
    ensures
        parse_text(text(t, e) + rest, e) == Some((t, text_size(t.len(), e))),
{
    let s = text(t, e) + rest;
    let len = t.len() as int;
    let pad = pad_len(t.len(), unit(e)) as int;
    lemma_word_size(e, t.len(), 4);
    lemma_text_len(t, e);
    assert(s.subrange(0, 4) =~= word(e, t.len(), 4));
    lemma_read_word(s, 0, e, t.len(), 4);
    assert(s.subrange(4 + len, 4 + len + pad) =~= zeros(pad as nat));
    assert(s.subrange(4, 4 + len) =~= t);
}

/// A scalar is read back from the number that was written for it.
pub proof fn lemma_scalar_of(v: Value, e: NvEncoding)
    requires
        width(e, v.tag()) > 0,
    ensures
        twos(number(v), width(e, v.tag())) < limit(width(e, v.tag())),
        scalar_of(v.tag(), twos(number(v), width(e, v.tag())), width(e, v.tag())) == Some(v),
{
    lemma_limits();
}

/// The payload of a scalar is read back.
pub proof fn lemma_parse_scalar(v: Value, e: NvEncoding, rest: Seq<u8>)
    requires
        width(e, v.tag()) > 0,
    ensures
        parse_scalar(payload(v, e) + rest, e, v.tag()) == Some((v, payload_size(v, e))),
{
    let s = payload(v, e) + rest;
    let w = width(e, v.tag());
    let pad = pad_len(w, unit(e));
    let raw = twos(number(v), w);
    lemma_scalar_of(v, e);
    lemma_word_size(e, raw, w);
    lemma_payload_len(v, e);
    assert(payload(v, e) == word(e, raw, w) + zeros(pad));
    assert(s.subrange(0, w as int) =~= word(e, raw, w));
    lemma_read_word(s, 0, e, raw, w);
    assert(s.subrange(w as int, (w + pad) as int) =~= zeros(pad));
}

/// Each of some 64-bit numbers is read back from its place.
pub proof fn lemma_read_words64(a: Seq<u64>, e: NvEncoding, rest: Seq<u8>, i: int)
    requires
        0 <= i < a.len(),
    ensures
        word_at(words64(a, e) + rest, 8 * i, 8, e) == a[i],
    decreases a.len(),
{
    let s = words64(a, e) + rest;
    let tail = a.drop_first();
    lemma_word_size(e, a[0] as nat, 8);
    lemma_words64_len(a, e);
    lemma_words64_len(tail, e);
    lemma_limits();
    if i == 0 {
        assert(s.subrange(0, 8) =~= word(e, a[0] as nat, 8));
        lemma_read_word(s, 0, e, a[0] as nat, 8);
    } else {
        lemma_read_words64(tail, e, rest, i - 1);
        let t = words64(tail, e) + rest;
        assert(s.subrange(8 * i, 8 * i + 8) =~= t.subrange(8 * (i - 1), 8 * (i - 1) + 8));
    }
}

/// Some 64-bit numbers are read back.
pub proof fn lemma_parse_words64(a: Seq<u64>, e: NvEncoding, rest: Seq<u8>)
    ensures
        parse_words64(words64(a, e) + rest, e, a.len()) == Some((a, 8 * a.len())),
{
    let s = words64(a, e) + rest;
    lemma_words64_len(a, e);
    let got = Seq::new(a.len(), |i: int| word_at(s, 8 * i, 8, e) as u64);
    assert forall|i: int| 0 <= i < a.len() implies got[i] == a[i] by {
        lemma_read_words64(a, e, rest, i);
    }
    assert(got =~= a);
}

/// Where the parts of an entry lie in its bytes.
pub proof fn lemma_pair_layout(
    w1: Seq<u8>,
    w2: Seq<u8>,
    t: Seq<u8>,
    w3: Seq<u8>,
    w4: Seq<u8>,
    pl: Seq<u8>,
    rest: Seq<u8>,
)
    requires
        w1.len() == 4,
        w2.len() == 4,
        w3.len() == 4,
        w4.len() == 4,
    ensures
        ({
            let s = w1 + w2 + t + w3 + w4 + pl + rest;
            let at = 8 + t.len() as int;
            &&& s.len() == 16 + t.len() + pl.len() + rest.len()
            &&& s.subrange(0, 4) == w1
            &&& s.subrange(4, 8) == w2
            &&& s.skip(8) == t + (w3 + w4 + pl + rest)
            &&& s.subrange(at, at + 4) == w3
            &&& s.subrange(at + 4, at + 8) == w4
            &&& s.skip(at + 8) == pl + rest
        }),
{
    let s = w1 + w2 + t + w3 + w4 + pl + rest;
    let at = 8 + t.len() as int;
    assert(s.subrange(0, 4) =~= w1);
    assert(s.subrange(4, 8) =~= w2);
    assert(s.skip(8) =~= t + (w3 + w4 + pl + rest));
    assert(s.subrange(at, at + 4) =~= w3);
    assert(s.subrange(at + 4, at + 8) =~= w4);
    assert(s.skip(at + 8) =~= pl + rest);
}

/// Where the parts of a body lie in its bytes.
pub proof fn lemma_body_layout(w1: Seq<u8>, w2: Seq<u8>, ps: Seq<u8>, z: Seq<u8>, rest: Seq<u8>)
    requires
        w1.len() == 4,
        w2.len() == 4,
    ensures
        ({
            let s = w1 + w2 + ps + z + rest;
            &&& s.len() == 8 + ps.len() + z.len() + rest.len()
            &&& s.subrange(0, 4) == w1
            &&& s.subrange(4, 8) == w2
            &&& s.skip(8) == ps + z + rest
        }),
{
    let s = w1 + w2 + ps + z + rest;
    assert(s.subrange(0, 4) =~= w1);
    assert(s.subrange(4, 8) =~= w2);
    assert(s.skip(8) =~= ps + z + rest);
}

/// A first part and what follows it, in the bytes of both.
pub proof fn lemma_split(a: Seq<u8>, b: Seq<u8>, rest: Seq<u8>)
    ensures
        a + b + rest == a + (b + rest),
        (a + (b + rest)).skip(a.len() as int) == b + rest,
        (a + (b + rest)).len() == a.len() + b.len() + rest.len(),
{
    assert(a + b + rest =~= a + (b + rest));
    assert((a + (b + rest)).skip(a.len() as int) =~= b + rest);
}

/// The kind of a value is read back from its code.
pub proof fn lemma_tag_code(t: NvType)
    ensures
        tag_of_code(tag_code(t)) == Some(t),
        tag_code(t) < limit(4),
{
    lemma_limits();
}

/// Some bodies take at least sixteen bytes each.
pub proof fn lemma_bodies_min(ls: Seq<Listing>, e: NvEncoding)
    ensures
        bodies_size(ls, e) >= 16 * ls.len(),
    decreases ls.len(),
{
    if ls.len() > 0 {
        lemma_bodies_min(ls.drop_first(), e);
        assert(body_size(ls[0], e) == 8 + pairs_size(ls[0].entries, e) + 8);
    }
}

/// The payload of a value is read back.
#[verifier::spinoff_prover]
#[verifier::rlimit(60)]
pub proof fn lemma_parse_payload(v: Value, e: NvEncoding, rest: Seq<u8>)
    requires
        v.wf(),
        payload_fits(v, e),
        payload_size(v, e) <= MAX_SIZE,
    ensures
        parse_payload(payload(v, e) + rest, e, v.tag(), nelem(v)) == Some(
            (v, payload_size(v, e)),
        ),
    decreases v, 2int,
{
    lemma_limits();
    match v {
        Value::Unknown | Value::Bool => {},
        Value::Str(t) => lemma_parse_text(t, e, rest),
        Value::List(l) => lemma_parse_body(l, e, rest),
        Value::Uint64Array(a) => lemma_parse_words64(a, e, rest),
        Value::ListArray(ls) => lemma_parse_bodies(ls, e, rest),
        _ => lemma_parse_scalar(v, e, rest),
    }
}

/// An entry is read back.
#[verifier::spinoff_prover]
#[verifier::rlimit(60)]
pub proof fn lemma_parse_pair(p: Entry, e: NvEncoding, rest: Seq<u8>)
    requires
        p.wf(),
        pair_fits(p, e),
    ensures
        parse_pair(pair(p, e) + rest, e) == Some((p, pair_size(p, e))),
        (pair(p, e) + rest).subrange(0, 8) != zeros(8),
        0 < pair_size(p, e) == pair(p, e).len(),
    decreases p, 3int,
{
    lemma_limits();
    let size = pair_size(p, e);
    let mem = decoded_size(p);
    let code = tag_code(p.value.tag());
    let count = nelem(p.value);
    let w1 = word(e, size, 4);
    let w2 = word(e, mem, 4);
    let t = text(p.name, e);
    let w3 = word(e, code, 4);
    let w4 = word(e, count, 4);
    let pl = payload(p.value, e);
    let s = pair(p, e) + rest;
    let at = 8 + t.len() as int;
    lemma_word_size(e, size, 4);
    lemma_word_size(e, mem, 4);
    lemma_text_len(p.name, e);
    lemma_word_size(e, code, 4);
    lemma_word_size(e, count, 4);
    lemma_payload_len(p.value, e);
    lemma_pair_len(p, e);
    lemma_tag_code(p.value.tag());
    assert(s == w1 + w2 + t + w3 + w4 + pl + rest);
    lemma_pair_layout(w1, w2, t, w3, w4, pl, rest);
    assert(count < limit(4)) by {
        match p.value {
            Value::ListArray(ls) => lemma_bodies_min(ls, e),
            _ => {},
        }
    }
    lemma_read_word(s, 0, e, size, 4);
    lemma_read_word(s, 4, e, mem, 4);
    lemma_read_word(s, at, e, code, 4);
    lemma_read_word(s, at + 4, e, count, 4);
    lemma_parse_text(p.name, e, w3 + w4 + pl + rest);
    lemma_parse_payload(p.value, e, rest);
    assert(parse_text(s.skip(8), e) == Some((p.name, t.len())));
    assert(parse_payload(s.skip(at + 8), e, p.value.tag(), count) == Some(
        (p.value, pl.len()),
    ));
    assert(parse_pair(s, e) == Some((p, size)));
    if s.subrange(0, 8) == zeros(8) {
        assert(s.subrange(0, 4) =~= zeros(8).subrange(0, 4));
        assert(zeros(8).subrange(0, 4) =~= zeros(4));
        lemma_zero_val(e, 4);
    }
}

/// Entries are read one after the other.
pub proof fn lemma_pairs_step(
    s: Seq<u8>,
    e: NvEncoding,
    p: Entry,
    n: nat,
    tail: Seq<Entry>,
    m: nat,
)
    requires
        s.len() >= 8,
        s.subrange(0, 8) != zeros(8),
        parse_pair(s, e) == Some((p, n)),
        0 < n <= s.len(),
        parse_pairs(s.skip(n as int), e) == Some((tail, m)),
    ensures
        parse_pairs(s, e) == Some((seq![p] + tail, n + m)),
{
}

/// Some entries and the two zero words behind them are read back.
#[verifier::spinoff_prover]
#[verifier::rlimit(60)]
pub proof fn lemma_parse_pairs(ps: Seq<Entry>, e: NvEncoding, rest: Seq<u8>)
    requires
        forall|i: int| 0 <= i < ps.len() ==> (#[trigger] ps[i]).wf() && pair_fits(ps[i], e),
    ensures
        parse_pairs(pairs(ps, e) + zeros(8) + rest, e) == Some((ps, pairs_size(ps, e) + 8)),
    decreases ps, 4int,
{
    let s = pairs(ps, e) + zeros(8) + rest;
    if ps.len() == 0 {
        assert(s.subrange(0, 8) =~= zeros(8));
    } else {
        let p = ps[0];
        let tail = ps.drop_first();
        let after = pairs(tail, e) + (zeros(8) + rest);
        lemma_split(pairs(tail, e), zeros(8), rest);
        lemma_split(pairs(ps, e), zeros(8), rest);
        lemma_split(pair(p, e), pairs(tail, e), zeros(8) + rest);
        assert(pairs(ps, e) == pair(p, e) + pairs(tail, e));
        assert(s == pair(p, e) + after);
        assert(p.wf() && pair_fits(p, e));
        lemma_parse_pair(p, e, after);
        assert forall|i: int| 0 <= i < tail.len() implies (#[trigger] tail[i]).wf() && pair_fits(
            tail[i],
            e,
        ) by {
            assert(tail[i] == ps[i + 1]);
        }
        lemma_parse_pairs(tail, e, rest);
        lemma_pairs_step(s, e, p, pair_size(p, e), tail, pairs_size(tail, e) + 8);
        assert(seq![p] + tail =~= ps);
    }
}

/// A body is read back.
#[verifier::spinoff_prover]
#[verifier::rlimit(60)]
pub proof fn lemma_parse_body(l: Listing, e: NvEncoding, rest: Seq<u8>)
    requires
        l.wf(),
        body_fits(l, e),
    ensures
        parse_body(body(l, e) + rest, e) == Some((l, body_size(l, e))),
        16 <= body_size(l, e) == body(l, e).len(),
    decreases l, 5int,
{
    let s = body(l, e) + rest;
    let w1 = word(e, 0, 4);
    let w2 = word(e, flags(l.unique), 4);
    let ps = pairs(l.entries, e);
    lemma_limits();
    lemma_word_size(e, 0, 4);
    lemma_word_size(e, flags(l.unique), 4);
    lemma_pairs_len(l.entries, e);
    lemma_body_len(l, e);
    assert(s == w1 + w2 + ps + zeros(8) + rest);
    lemma_body_layout(w1, w2, ps, zeros(8), rest);
    lemma_read_word(s, 0, e, 0, 4);
    lemma_read_word(s, 4, e, flags(l.unique), 4);
    lemma_parse_pairs(l.entries, e, rest);
    assert(parse_pairs(s.skip(8), e) == Some((l.entries, pairs_size(l.entries, e) + 8)));
    assert(unique_of_flags(flags(l.unique)) == Some(l.unique));
    assert((Listing { unique: l.unique, entries: l.entries }) == l);
}

/// Some bodies are read back.
#[verifier::spinoff_prover]
#[verifier::rlimit(60)]
pub proof fn lemma_parse_bodies(ls: Seq<Listing>, e: NvEncoding, rest: Seq<u8>)
    requires
        forall|i: int| 0 <= i < ls.len() ==> (#[trigger] ls[i]).wf() && body_fits(ls[i], e),
    ensures
        parse_bodies(bodies(ls, e) + rest, e, ls.len()) == Some((ls, bodies_size(ls, e))),
    decreases ls, 6int,
{
    let s = bodies(ls, e) + rest;
    if ls.len() > 0 {
        let l = ls[0];
        let tail = ls.drop_first();
        let after = bodies(tail, e) + rest;
        lemma_bodies_len(tail, e);
        lemma_split(body(l, e), bodies(tail, e), rest);
        assert(s == body(l, e) + after);
        lemma_parse_body(l, e, after);
        assert(s.skip(body_size(l, e) as int) == after);
        assert forall|i: int| 0 <= i < tail.len() implies (#[trigger] tail[i]).wf() && body_fits(
            tail[i],
            e,
        ) by {
            assert(tail[i] == ls[i + 1]);
        }
        lemma_parse_bodies(tail, e, rest);
        assert(seq![l] + tail =~= ls);
    }
}

/// Round trip: the encoding of a well-formed list, in either encoding, is
/// read back as that list.
#[verifier::spinoff_prover]
#[verifier::rlimit(60)]
pub proof fn lemma_round_trip(l: Listing, e: NvEncoding)
    requires
        l.wf(),
        fits(l, e),
    ensures
        parse_stream(stream(l, e)) == Some(l),
{
    let s = stream(l, e);
    lemma_body_len(l, e);
    assert(s.skip(4) =~= body(l, e) + Seq::<u8>::empty());
    lemma_parse_body(l, e, Seq::empty());
}

} // verus!

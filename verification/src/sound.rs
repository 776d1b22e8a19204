//! What is read was written: bytes that are read as a part are the encoding
//! of that part, and the part is well formed and has an encoding.

use crate::format::{
    bodies, bodies_size, body, body_fits, body_size, code, decoded_size, fits, flags, nelem,
    number, pair, pair_fits, pair_size, pairs, pairs_size, payload, payload_fits, payload_size,
    stream, tag_code, text, text_size, twos, width, word, words64, zeros, NvEncoding,
};
use crate::model::{Entry, NvType};
use crate::name::no_nul;
use crate::parse::{
    encoding_of, parse_bodies, parse_body, parse_pair, parse_pairs, parse_payload, parse_scalar,
    parse_stream, parse_text, parse_words64, scalar_of, tag_of_code, unique_of_flags, word_at,
};
use crate::wire::{lemma_limits, lemma_word_of_val, limit};
use vstd::prelude::*;

verus! {

/// The bytes of a word are the word of the number that they hold.
pub proof fn lemma_word_back(s: Seq<u8>, at: int, n: nat, e: NvEncoding)
    requires
        0 <= at,
        at + n <= s.len(),
    ensures
        word(e, word_at(s, at, n as int, e), n) == s.subrange(at, at + n),
        word_at(s, at, n as int, e) < limit(n),
{
    lemma_word_of_val(s.subrange(at, at + n));
}

/// Bytes that are read as a text are the encoding of that text.
pub proof fn lemma_text_sound(s: Seq<u8>, e: NvEncoding)
    requires
        parse_text(s, e) is Some,
    ensures
        ({
            let (t, n) = parse_text(s, e).unwrap();
            &&& n <= s.len()
            &&& n == text_size(t.len(), e)
            &&& s.take(n as int) == text(t, e)
            &&& no_nul(t)
        }),
{
    let (t, n) = parse_text(s, e).unwrap();
    lemma_word_back(s, 0, 4, e);
    assert(s.take(n as int) =~= text(t, e));
}

/// A scalar that is read from a number is written as that number.
pub proof fn lemma_scalar_back(t: NvType, raw: nat, e: NvEncoding)
    requires
        raw < limit(width(e, t)),
        scalar_of(t, raw, width(e, t)) is Some,
    ensures
        ({
            let v = scalar_of(t, raw, width(e, t)).unwrap();
            &&& v.tag() == t
            &&& twos(number(v), width(e, t)) == raw
            &&& nelem(v) == 1
            &&& v.wf()
            &&& payload_fits(v, e)
        }),
{
    lemma_limits();
}

/// Bytes that are read as a scalar are the payload of that scalar.
pub proof fn lemma_scalar_sound(s: Seq<u8>, e: NvEncoding, t: NvType)
    requires
        parse_scalar(s, e, t) is Some,
    ensures
        ({
            let (v, n) = parse_scalar(s, e, t).unwrap();
            &&& n <= s.len()
            &&& n == payload_size(v, e)
            &&& s.take(n as int) == payload(v, e)
            &&& v.tag() == t
            &&& nelem(v) == 1
            &&& v.wf()
            &&& payload_fits(v, e)
        }),
{
    let (v, n) = parse_scalar(s, e, t).unwrap();
    let w = width(e, t);
    lemma_word_back(s, 0, w, e);
    lemma_scalar_back(t, word_at(s, 0, w as int, e), e);
    assert(s.take(n as int) =~= payload(v, e));
}

/// Bytes that are read as 64-bit numbers are those numbers, one after the
/// other.
pub proof fn lemma_words64_sound(s: Seq<u8>, e: NvEncoding, count: nat)
    requires
        parse_words64(s, e, count) is Some,
    ensures
        ({
            let (a, n) = parse_words64(s, e, count).unwrap();
            &&& n == 8 * count <= s.len()
            &&& a.len() == count
            &&& s.take(n as int) == words64(a, e)
        }),
    decreases count,
{
    let (a, n) = parse_words64(s, e, count).unwrap();
    if count > 0 {
        let rest = s.skip(8);
        let m = (count - 1) as nat;
        lemma_words64_sound(rest, e, m);
        let (b, k) = parse_words64(rest, e, m).unwrap();
        assert forall|i: int| 0 <= i < m implies b[i] == a[i + 1] by {
            assert(rest.subrange(8 * i, 8 * i + 8) =~= s.subrange(8 * (i + 1), 8 * (i + 1) + 8));
        }
        assert(a.drop_first() =~= b);
        lemma_word_back(s, 0, 8, e);
        lemma_limits();
        assert(a[0] as nat == word_at(s, 0, 8, e));
        assert(s.take(n as int) =~= s.subrange(0, 8) + rest.take(k as int));
    } else {
        assert(s.take(0) =~= words64(a, e));
    }
}

/// The front of some bytes, in the parts of an entry.
pub proof fn lemma_pair_join(s: Seq<u8>, nt: int, m: int)
    requires
        0 <= nt,
        0 <= m,
        16 + nt + m <= s.len(),
    ensures
        s.take(16 + nt + m) == s.subrange(0, 4) + s.subrange(4, 8) + s.skip(8).take(nt)
            + s.subrange(8 + nt, 12 + nt) + s.subrange(12 + nt, 16 + nt) + s.skip(16 + nt).take(m),
{
    assert(s.take(16 + nt + m) =~= s.subrange(0, 4) + s.subrange(4, 8) + s.skip(8).take(nt)
        + s.subrange(8 + nt, 12 + nt) + s.subrange(12 + nt, 16 + nt) + s.skip(16 + nt).take(m));
}

/// The front of some bytes, in two parts.
pub proof fn lemma_join(s: Seq<u8>, n: int, m: int)
    requires
        0 <= n,
        0 <= m,
        n + m <= s.len(),
    ensures
        s.take(n + m) == s.take(n) + s.skip(n).take(m),
{
    assert(s.take(n + m) =~= s.take(n) + s.skip(n).take(m));
}

/// The code of a kind that was read from a code is that code.
pub proof fn lemma_tag_back(c: nat)
    requires
        tag_of_code(c) is Some,
    ensures
        tag_code(tag_of_code(c).unwrap()) == c,
{
}

/// Bytes that are read as a payload are the payload of what was read.
#[verifier::spinoff_prover]
#[verifier::rlimit(60)]
pub proof fn lemma_payload_sound(s: Seq<u8>, e: NvEncoding, t: NvType, count: nat)
    requires
        parse_payload(s, e, t, count) is Some,
    ensures
        ({
            let (v, n) = parse_payload(s, e, t, count).unwrap();
            &&& n <= s.len()
            &&& n == payload_size(v, e)
            &&& s.take(n as int) == payload(v, e)
            &&& v.tag() == t
            &&& nelem(v) == count
            &&& v.wf()
            &&& payload_fits(v, e)
        }),
    decreases s.len(), 3int,
{
    let (v, n) = parse_payload(s, e, t, count).unwrap();
    match t {
        NvType::Unknown | NvType::Boolean => {
            assert(s.take(0) =~= payload(v, e));
        },
        NvType::String => lemma_text_sound(s, e),
        NvType::NvList => lemma_body_sound(s, e),
        NvType::Uint64Array => lemma_words64_sound(s, e, count),
        NvType::NvListArray => lemma_bodies_sound(s, e, count),
        _ => lemma_scalar_sound(s, e, t),
    }
}

/// Bytes that are read as an entry are the encoding of that entry.
#[verifier::spinoff_prover]
#[verifier::rlimit(60)]
pub proof fn lemma_pair_sound(s: Seq<u8>, e: NvEncoding)
    requires
        parse_pair(s, e) is Some,
    ensures
        ({
            let (p, n) = parse_pair(s, e).unwrap();
            &&& 0 < n <= s.len()
            &&& n == pair_size(p, e)
            &&& s.take(n as int) == pair(p, e)
            &&& p.wf()
            &&& pair_fits(p, e)
        }),
    decreases s.len(), 0int,
{
    let (p, n) = parse_pair(s, e).unwrap();
    let (name, nt) = parse_text(s.skip(8), e).unwrap();
    let at = 8 + nt as int;
    let t = tag_of_code(word_at(s, at, 4, e)).unwrap();
    let count = word_at(s, at + 4, 4, e);
    let (value, m) = parse_payload(s.skip(at + 8), e, t, count).unwrap();
    assert(p == Entry { name, value });
    assert(n == at + 8 + m);
    lemma_text_sound(s.skip(8), e);
    lemma_payload_sound(s.skip(at + 8), e, t, count);
    lemma_tag_back(word_at(s, at, 4, e));
    lemma_word_back(s, 0, 4, e);
    lemma_word_back(s, 4, 4, e);
    lemma_word_back(s, at, 4, e);
    lemma_word_back(s, at + 4, 4, e);
    lemma_pair_join(s, nt as int, m as int);
    assert(pair_size(p, e) == n);
    assert(pair(p, e) == word(e, n, 4) + word(e, decoded_size(p), 4) + text(name, e) + word(
        e,
        tag_code(t),
        4,
    ) + word(e, count, 4) + payload(value, e));
}

/// Entries are read one after the other.
pub proof fn lemma_pairs_unfold(s: Seq<u8>, e: NvEncoding)
    requires
        parse_pairs(s, e) is Some,
        s.subrange(0, 8) != zeros(8),
    ensures
        s.len() >= 8,
        parse_pair(s, e) is Some,
        ({
            let (p, n) = parse_pair(s, e).unwrap();
            &&& 0 < n <= s.len()
            &&& parse_pairs(s.skip(n as int), e) is Some
            &&& parse_pairs(s, e).unwrap().0 == seq![p] + parse_pairs(
                s.skip(n as int),
                e,
            ).unwrap().0
            &&& parse_pairs(s, e).unwrap().1 == n + parse_pairs(s.skip(n as int), e).unwrap().1
        }),
{
}

/// Bytes that are read as entries are the encodings of those entries and two
/// zero words.
#[verifier::spinoff_prover]
#[verifier::rlimit(60)]
pub proof fn lemma_pairs_sound(s: Seq<u8>, e: NvEncoding)
    requires
        parse_pairs(s, e) is Some,
    ensures
        ({
            let (ps, n) = parse_pairs(s, e).unwrap();
            &&& 8 <= n <= s.len()
            &&& n == pairs_size(ps, e) + 8
            &&& s.take(n as int) == pairs(ps, e) + zeros(8)
            &&& forall|i: int| 0 <= i < ps.len() ==> (#[trigger] ps[i]).wf() && pair_fits(ps[i], e)
        }),
    decreases s.len(), 1int,
{
    let (ps, n) = parse_pairs(s, e).unwrap();
    if s.subrange(0, 8) == zeros(8) {
        assert(s.take(8) =~= s.subrange(0, 8));
        assert(pairs(ps, e) + zeros(8) =~= zeros(8));
    } else {
        lemma_pairs_unfold(s, e);
        let (p, n1) = parse_pair(s, e).unwrap();
        let (rest, n2) = parse_pairs(s.skip(n1 as int), e).unwrap();
        lemma_pair_sound(s, e);
        lemma_pairs_sound(s.skip(n1 as int), e);
        lemma_join(s, n1 as int, n2 as int);
        assert(ps[0] == p);
        assert(ps.drop_first() =~= rest);
        assert(pairs(ps, e) == pair(p, e) + pairs(rest, e));
        assert(pairs_size(ps, e) == pair_size(p, e) + pairs_size(rest, e));
        assert(pair(p, e) + (pairs(rest, e) + zeros(8)) =~= pair(p, e) + pairs(rest, e) + zeros(
            8,
        ));
        assert forall|i: int| 0 <= i < ps.len() implies (#[trigger] ps[i]).wf() && pair_fits(
            ps[i],
            e,
        ) by {
            if i > 0 {
                assert(ps[i] == rest[i - 1]);
            }
        }
    }
}

/// The word of a demand on names that was read from a word is that word.
pub proof fn lemma_flags_back(f: nat)
    requires
        unique_of_flags(f) is Some,
    ensures
        flags(unique_of_flags(f).unwrap()) == f,
{
}

/// Bytes that are read as a body are the encoding of that body.
#[verifier::spinoff_prover]
#[verifier::rlimit(60)]
pub proof fn lemma_body_sound(s: Seq<u8>, e: NvEncoding)
    requires
        parse_body(s, e) is Some,
    ensures
        ({
            let (l, n) = parse_body(s, e).unwrap();
            &&& 16 <= n <= s.len()
            &&& n == body_size(l, e)
            &&& s.take(n as int) == body(l, e)
            &&& l.wf()
            &&& body_fits(l, e)
        }),
    decreases s.len(), 1int,
{
    let (l, n) = parse_body(s, e).unwrap();
    let (ps, m) = parse_pairs(s.skip(8), e).unwrap();
    lemma_pairs_sound(s.skip(8), e);
    lemma_word_back(s, 0, 4, e);
    lemma_word_back(s, 4, 4, e);
    lemma_flags_back(word_at(s, 4, 4, e));
    lemma_join(s, 8, m as int);
    assert(s.take(8) =~= s.subrange(0, 4) + s.subrange(4, 8));
    assert(l.entries == ps);
    assert(body(l, e) == word(e, 0, 4) + word(e, flags(l.unique), 4) + pairs(ps, e) + zeros(8));
    assert(s.take(8) + (pairs(ps, e) + zeros(8)) =~= s.subrange(0, 4) + s.subrange(4, 8) + pairs(
        ps,
        e,
    ) + zeros(8));
    assert forall|i: int| 0 <= i < l.entries.len() implies (#[trigger] l.entries[i]).wf() by {
        assert(ps[i].wf() && pair_fits(ps[i], e));
    }
    assert forall|i: int| 0 <= i < l.entries.len() implies pair_fits(
        #[trigger] l.entries[i],
        e,
    ) by {
        assert(ps[i].wf() && pair_fits(ps[i], e));
    }
}

/// Bodies are read one after the other.
pub proof fn lemma_bodies_unfold(s: Seq<u8>, e: NvEncoding, count: nat)
    requires
        parse_bodies(s, e, count) is Some,
        count > 0,
    ensures
        parse_body(s, e) is Some,
        ({
            let (l, n) = parse_body(s, e).unwrap();
            let rest = parse_bodies(s.skip(n as int), e, (count - 1) as nat);
            &&& 0 < n <= s.len()
            &&& rest is Some
            &&& parse_bodies(s, e, count).unwrap().0 == seq![l] + rest.unwrap().0
            &&& parse_bodies(s, e, count).unwrap().1 == n + rest.unwrap().1
        }),
{
}

/// Bytes that are read as bodies are the encodings of those bodies.
#[verifier::spinoff_prover]
#[verifier::rlimit(60)]
pub proof fn lemma_bodies_sound(s: Seq<u8>, e: NvEncoding, count: nat)
    requires
        parse_bodies(s, e, count) is Some,
    ensures
        ({
            let (ls, n) = parse_bodies(s, e, count).unwrap();
            &&& n <= s.len()
            &&& n == bodies_size(ls, e)
            &&& ls.len() == count
            &&& s.take(n as int) == bodies(ls, e)
            &&& forall|i: int| 0 <= i < ls.len() ==> (#[trigger] ls[i]).wf() && body_fits(ls[i], e)
        }),
    decreases s.len(), 2int, count,
{
    let (ls, n) = parse_bodies(s, e, count).unwrap();
    if count == 0 {
        assert(s.take(0) =~= bodies(ls, e));
    } else {
        lemma_bodies_unfold(s, e, count);
        let (l, n1) = parse_body(s, e).unwrap();
        let (rest, n2) = parse_bodies(s.skip(n1 as int), e, (count - 1) as nat).unwrap();
        lemma_body_sound(s, e);
        lemma_bodies_sound(s.skip(n1 as int), e, (count - 1) as nat);
        lemma_join(s, n1 as int, n2 as int);
        assert(ls[0] == l);
        assert(ls.drop_first() =~= rest);
        assert(bodies(ls, e) == body(l, e) + bodies(rest, e));
        assert(bodies_size(ls, e) == body_size(l, e) + bodies_size(rest, e));
        assert forall|i: int| 0 <= i < ls.len() implies (#[trigger] ls[i]).wf() && body_fits(
            ls[i],
            e,
        ) by {
            if i > 0 {
                assert(ls[i] == rest[i - 1]);
            }
        }
    }
}

/// Bytes that are read as a list are an encoding of that list, which is well
/// formed.
#[verifier::spinoff_prover]
#[verifier::rlimit(60)]
pub proof fn lemma_stream_sound(s: Seq<u8>)
    requires
        parse_stream(s) is Some,
    ensures
        parse_stream(s).unwrap().wf(),
        encoding_of(s[0]) is Some,
        fits(parse_stream(s).unwrap(), encoding_of(s[0]).unwrap()),
        s == stream(parse_stream(s).unwrap(), encoding_of(s[0]).unwrap()),
{
    let e = encoding_of(s[0]).unwrap();
    let l = parse_stream(s).unwrap();
    lemma_body_sound(s.skip(4), e);
    assert(s.skip(4).take(s.len() - 4) =~= s.skip(4));
    assert(s =~= seq![code(e), 1u8, 0u8, 0u8] + s.skip(4));
}

} // verus!

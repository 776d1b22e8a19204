//! Unsigned numbers as bytes, most or least significant byte first.

use vstd::prelude::*;

verus! {

/// 256 to the power `n`: the number of values that `n` bytes can tell apart.
pub open spec fn limit(n: nat) -> nat
    decreases n,
{
    if n == 0 {
        1
    } else {
        256 * limit((n - 1) as nat)
    }
}

/// The last `n` base-256 digits of `v`, most significant first.
pub open spec fn be(v: nat, n: nat) -> Seq<u8>
    decreases n,
{
    if n == 0 {
        Seq::empty()
    } else {
        be(v / 256, (n - 1) as nat).push((v % 256) as u8)
    }
}

/// The last `n` base-256 digits of `v`, least significant first.
pub open spec fn le(v: nat, n: nat) -> Seq<u8>
    decreases n,
{
    if n == 0 {
        Seq::empty()
    } else {
        seq![(v % 256) as u8] + le(v / 256, (n - 1) as nat)
    }
}

/// The number whose base-256 digits are `s`, most significant first.
pub open spec fn be_val(s: Seq<u8>) -> nat
    decreases s.len(),
{
    if s.len() == 0 {
        0
    } else {
        be_val(s.drop_last()) * 256 + s.last() as nat
    }
}

/// The number whose base-256 digits are `s`, least significant first.
pub open spec fn le_val(s: Seq<u8>) -> nat
    decreases s.len(),
{
    if s.len() == 0 {
        0
    } else {
        s[0] as nat + 256 * le_val(s.drop_first())
    }
}

/// The limits of the widths in use.
pub proof fn lemma_limits()
    ensures
        limit(0) == 1,
        limit(1) == 0x100,
        limit(2) == 0x1_0000,
        limit(3) == 0x100_0000,
        limit(4) == 0x1_0000_0000,
        limit(5) == 0x100_0000_0000,
        limit(6) == 0x1_0000_0000_0000,
        limit(7) == 0x100_0000_0000_0000,
        limit(8) == 0x1_0000_0000_0000_0000,
{
    reveal_with_fuel(limit, 10);
}

/// More bytes tell more values apart.
pub proof fn lemma_limit_grows(a: nat, b: nat)
    requires
        a <= b,
    ensures
        1 <= limit(a) <= limit(b),
    decreases b,
{
    if a < b {
        lemma_limit_grows(a, (b - 1) as nat);
    } else if b > 0 {
        lemma_limit_grows((a - 1) as nat, (b - 1) as nat);
    }
}

/// A number written in `n` bytes has `n` bytes.
pub proof fn lemma_word_len(v: nat, n: nat)
    ensures
        be(v, n).len() == n,
        le(v, n).len() == n,
    decreases n,
{
    if n > 0 {
        lemma_word_len(v / 256, (n - 1) as nat);
    }
}

/// A number that fits in `n` bytes is read back from them.
pub proof fn lemma_val_of_word(v: nat, n: nat)
    requires
        v < limit(n),
    ensures
        be_val(be(v, n)) == v,
        le_val(le(v, n)) == v,
    decreases n,
{
    if n > 0 {
        let m = (n - 1) as nat;
        lemma_val_of_word(v / 256, m);
        lemma_word_len(v / 256, m);
        assert(be(v, n).drop_last() =~= be(v / 256, m));
        assert(le(v, n).drop_first() =~= le(v / 256, m));
    }
}

/// Bytes that are read as a number are written back from it.
pub proof fn lemma_word_of_val(s: Seq<u8>)
    ensures
        be_val(s) < limit(s.len()),
        le_val(s) < limit(s.len()),
        be(be_val(s), s.len()) == s,
        le(le_val(s), s.len()) == s,
    decreases s.len(),
{
    if s.len() > 0 {
        lemma_word_of_val(s.drop_last());
        lemma_word_of_val(s.drop_first());
        let n = s.len();
        let m = (n - 1) as nat;
        assert(be_val(s) / 256 == be_val(s.drop_last()));
        assert(le_val(s) / 256 == le_val(s.drop_first()));
        assert(be(be_val(s), n) =~= s);
        assert(le(le_val(s), n) =~= s);
    }
}

/// The largest number of `w` bytes.
pub(crate) fn top_of(w: u64) -> (r: u64)
    requires
        w == 1 || w == 2 || w == 4 || w == 8,
    ensures
        r == limit(w as nat) - 1,
{
    proof {
        lemma_limits();
    }
    if w == 1 {
        0xff
    } else if w == 2 {
        0xffff
    } else if w == 4 {
        0xffff_ffff
    } else {
        0xffff_ffff_ffff_ffff
    }
}

/// Appends the last `n` base-256 digits of `v`, most significant first.
pub(crate) fn put_be(out: &mut Vec<u8>, v: u64, n: usize)
    ensures
        final(out)@ == old(out)@ + be(v as nat, n as nat),
    decreases n,
{
    if n > 0 {
        put_be(out, v / 256, n - 1);
        out.push((v % 256) as u8);
        assert(final(out)@ =~= old(out)@ + be(v as nat, n as nat));
    } else {
        assert(final(out)@ =~= old(out)@ + be(v as nat, n as nat));
    }
}

/// Appends the last `n` base-256 digits of `v`, least significant first.
pub(crate) fn put_le(out: &mut Vec<u8>, v: u64, n: usize)
    ensures
        final(out)@ == old(out)@ + le(v as nat, n as nat),
    decreases n,
{
    if n > 0 {
        out.push((v % 256) as u8);
        put_le(out, v / 256, n - 1);
        assert(final(out)@ =~= old(out)@ + le(v as nat, n as nat));
    } else {
        assert(final(out)@ =~= old(out)@ + le(v as nat, n as nat));
    }
}

/// Reads `n` bytes at `pos` as a number, most significant first.
pub(crate) fn get_be(bytes: &[u8], pos: usize, n: usize) -> (r: u64)
    requires
        n <= 8,
        pos + n <= bytes.len(),
    ensures
        r == be_val(bytes@.subrange(pos as int, pos + n)),
{
    let mut acc: u64 = 0;
    let mut i: usize = 0;
    while i < n
        invariant
            i <= n <= 8,
            pos + n <= bytes.len(),
            acc == be_val(bytes@.subrange(pos as int, pos + i)),
            acc < limit(i as nat),
        decreases n - i,
    {
        proof {
            lemma_limits();
            lemma_limit_grows(i as nat, 7);
            let s = bytes@.subrange(pos as int, pos + i + 1);
            assert(s.drop_last() =~= bytes@.subrange(pos as int, pos + i));
        }
        acc = acc * 256 + bytes[pos + i] as u64;
        i += 1;
    }
    acc
}

/// Reads `n` bytes at `pos` as a number, least significant first.
pub(crate) fn get_le(bytes: &[u8], pos: usize, n: usize) -> (r: u64)
    requires
        n <= 8,
        pos + n <= bytes.len(),
    ensures
        r == le_val(bytes@.subrange(pos as int, pos + n)),
{
    let mut acc: u64 = 0;
    let mut i: usize = n;
    while i > 0
        invariant
            i <= n <= 8,
            pos + n <= bytes.len(),
            acc == le_val(bytes@.subrange(pos + i, pos + n)),
            acc < limit((n - i) as nat),
        decreases i,
    {
        proof {
            lemma_limits();
            lemma_limit_grows((n - i) as nat, 7);
            let s = bytes@.subrange(pos + i - 1, pos + n);
            assert(s.drop_first() =~= bytes@.subrange(pos + i, pos + n));
        }
        i -= 1;
        acc = acc * 256 + bytes[pos + i] as u64;
    }
    acc
}

} // verus!

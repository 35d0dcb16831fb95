//! Byte-string order and big-endian digits: the mathematical vocabulary the
//! key encoders are specified in.
//!
//! A b-tree compares its keys as byte strings, lexicographically, with a
//! proper prefix sorting first. [`lex_lt`] is that order; every
//! order-preservation law of the encoders is stated against it.
use vstd::prelude::*;

verus! {

/// Strict lexicographic order on byte strings (a proper prefix sorts first).
pub open spec fn lex_lt(a: Seq<u8>, b: Seq<u8>) -> bool
    decreases a.len(),
{
    if a.len() == 0 {
        b.len() > 0
    } else if b.len() == 0 {
        false
    } else if a[0] != b[0] {
        a[0] < b[0]
    } else {
        lex_lt(a.drop_first(), b.drop_first())
    }
}

/// `lex_lt` or equal.
pub open spec fn lex_le(a: Seq<u8>, b: Seq<u8>) -> bool {
    a == b || lex_lt(a, b)
}

/// No byte string sorts before itself.
pub proof fn lemma_lex_irreflexive(a: Seq<u8>)
    ensures
        !lex_lt(a, a),
    decreases a.len(),
{
    if a.len() > 0 {
        lemma_lex_irreflexive(a.drop_first());
    }
}

/// The order is asymmetric.
pub proof fn lemma_lex_asymmetric(a: Seq<u8>, b: Seq<u8>)
    requires
        lex_lt(a, b),
    ensures
        !lex_lt(b, a),
    decreases a.len(),
{
    if a.len() > 0 && b.len() > 0 && a[0] == b[0] {
        lemma_lex_asymmetric(a.drop_first(), b.drop_first());
    }
}

/// The order is total: two byte strings are equal or one sorts first.
pub proof fn lemma_lex_total(a: Seq<u8>, b: Seq<u8>)
    ensures
        a == b || lex_lt(a, b) || lex_lt(b, a),
    decreases a.len(),
{
    if a.len() == 0 {
        if b.len() == 0 {
            assert(a =~= b);
        }
    } else if b.len() > 0 && a[0] == b[0] {
        lemma_lex_total(a.drop_first(), b.drop_first());
        if a.drop_first() == b.drop_first() {
            assert(a =~= seq![a[0]] + a.drop_first());
            assert(b =~= seq![b[0]] + b.drop_first());
        }
    }
}

/// The order is transitive.
pub proof fn lemma_lex_transitive(a: Seq<u8>, b: Seq<u8>, c: Seq<u8>)
    requires
        lex_lt(a, b),
        lex_lt(b, c),
    ensures
        lex_lt(a, c),
    decreases a.len(),
{
    if a.len() > 0 && b.len() > 0 && c.len() > 0 && a[0] == b[0] && b[0] == c[0] {
        lemma_lex_transitive(a.drop_first(), b.drop_first(), c.drop_first());
    }
}

/// A common prefix does not change the comparison.
pub proof fn lemma_lex_common_prefix(p: Seq<u8>, x: Seq<u8>, y: Seq<u8>)
    ensures
        lex_lt(p + x, p + y) == lex_lt(x, y),
    decreases p.len(),
{
    if p.len() > 0 {
        assert((p + x).drop_first() =~= p.drop_first() + x);
        assert((p + y).drop_first() =~= p.drop_first() + y);
        lemma_lex_common_prefix(p.drop_first(), x, y);
    } else {
        assert(p + x =~= x);
        assert(p + y =~= y);
    }
}

/// Two strings of one length that compare one way keep comparing that way
/// whatever follows them.
pub proof fn lemma_lex_extend(a: Seq<u8>, b: Seq<u8>, r1: Seq<u8>, r2: Seq<u8>)
    requires
        a.len() == b.len(),
        lex_lt(a, b),
    ensures
        lex_lt(a + r1, b + r2),
    decreases a.len(),
{
    if a.len() > 0 {
        assert((a + r1).drop_first() =~= a.drop_first() + r1);
        assert((b + r2).drop_first() =~= b.drop_first() + r2);
        if a[0] == b[0] {
            lemma_lex_extend(a.drop_first(), b.drop_first(), r1, r2);
        }
    }
}

/// Strings that differ at their first byte compare by that byte, whatever
/// follows.
pub proof fn lemma_lex_first_byte(x: u8, y: u8, r1: Seq<u8>, r2: Seq<u8>)
    requires
        x < y,
    ensures
        lex_lt(seq![x] + r1, seq![y] + r2),
{
    lemma_lex_extend(seq![x], seq![y], r1, r2);
}

/// A proper extension sorts after the string it extends.
pub proof fn lemma_lex_proper_prefix(a: Seq<u8>, r: Seq<u8>)
    requires
        r.len() > 0,
    ensures
        lex_lt(a, a + r),
    decreases a.len(),
{
    if a.len() > 0 {
        assert((a + r).drop_first() =~= a.drop_first() + r);
        lemma_lex_proper_prefix(a.drop_first(), r);
    }
}

/// 256 to the power `n`.
pub open spec fn pow256(n: nat) -> nat
    decreases n,
{
    if n == 0 {
        1
    } else {
        256 * pow256((n - 1) as nat)
    }
}

/// The `n` low-order base-256 digits of `x`, most significant first.
pub open spec fn be_bytes(x: nat, n: nat) -> Seq<u8>
    decreases n,
{
    if n == 0 {
        seq![]
    } else {
        be_bytes(x / 256, (n - 1) as nat).push((x % 256) as u8)
    }
}

/// `be_bytes` has the requested length.
pub proof fn lemma_be_len(x: nat, n: nat)
    ensures
        be_bytes(x, n).len() == n,
    decreases n,
{
    if n > 0 {
        lemma_be_len(x / 256, (n - 1) as nat);
    }
}

/// Big-endian digits are order-preserving on numbers that fit.
pub proof fn lemma_be_order(x: nat, y: nat, n: nat)
    requires
        x < y,
        y < pow256(n),
    ensures
        lex_lt(be_bytes(x, n), be_bytes(y, n)),
    decreases n,
{
    let m = (n - 1) as nat;
    lemma_be_len(x / 256, m);
    lemma_be_len(y / 256, m);
    if x / 256 < y / 256 {
        lemma_be_order(x / 256, y / 256, m);
        lemma_lex_extend(be_bytes(x / 256, m), be_bytes(y / 256, m), seq![(x % 256) as u8], seq![(y % 256) as u8]);
        assert(be_bytes(x, n) =~= be_bytes(x / 256, m) + seq![(x % 256) as u8]);
        assert(be_bytes(y, n) =~= be_bytes(y / 256, m) + seq![(y % 256) as u8]);
    } else {
        assert(x / 256 == y / 256);
        assert(x % 256 < y % 256);
        lemma_lex_first_byte((x % 256) as u8, (y % 256) as u8, seq![], seq![]);
        lemma_lex_common_prefix(be_bytes(x / 256, m), seq![(x % 256) as u8], seq![(y % 256) as u8]);
        assert(be_bytes(x, n) =~= be_bytes(x / 256, m) + seq![(x % 256) as u8]);
        assert(be_bytes(y, n) =~= be_bytes(y / 256, m) + seq![(y % 256) as u8]);
        assert(seq![(x % 256) as u8] + Seq::<u8>::empty() =~= seq![(x % 256) as u8]);
        assert(seq![(y % 256) as u8] + Seq::<u8>::empty() =~= seq![(y % 256) as u8]);
    }
}

/// The eight big-endian bytes of `x`.
pub fn u64_be_bytes(x: u64) -> (out: Vec<u8>)
    ensures
        out@ == be_bytes(x as nat, 8),
{
    let mut out: Vec<u8> = Vec::new();
    let mut v: u64 = x;
    let mut i: usize = 8;
    while i > 0
        invariant
            i <= 8,
            be_bytes(x as nat, 8) == be_bytes(v as nat, i as nat) + out@,
        decreases i,
    {
        let ghost old_out = out@;
        assert(be_bytes(v as nat, i as nat) == be_bytes((v / 256) as nat, (i - 1) as nat).push(
            (v % 256) as u8,
        ));
        out.insert(0, (v % 256) as u8);
        assert(be_bytes((v / 256) as nat, (i - 1) as nat) + out@ =~= be_bytes(v as nat, i as nat)
            + old_out);
        v = v / 256;
        i = i - 1;
    }
    assert(be_bytes(v as nat, 0) + out@ =~= out@);
    out
}

/// The four big-endian bytes of `x`.
pub fn u32_be_bytes(x: u32) -> (out: Vec<u8>)
    ensures
        out@ == be_bytes(x as nat, 4),
{
    let mut out: Vec<u8> = Vec::new();
    let mut v: u32 = x;
    let mut i: usize = 4;
    while i > 0
        invariant
            i <= 4,
            be_bytes(x as nat, 4) == be_bytes(v as nat, i as nat) + out@,
        decreases i,
    {
        let ghost old_out = out@;
        assert(be_bytes(v as nat, i as nat) == be_bytes((v / 256) as nat, (i - 1) as nat).push(
            (v % 256) as u8,
        ));
        out.insert(0, (v % 256) as u8);
        assert(be_bytes((v / 256) as nat, (i - 1) as nat) + out@ =~= be_bytes(v as nat, i as nat)
            + old_out);
        v = v / 256;
        i = i - 1;
    }
    assert(be_bytes(v as nat, 0) + out@ =~= out@);
    out
}

} // verus!

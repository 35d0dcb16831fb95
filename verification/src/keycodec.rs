//! Key layout of the table-data store.
//!
//! Surrogate `u64` row ids only. A data key is
//!
//! ```text
//! [ u32_be(table_id) ]   4 bytes
//! [ u64_be(row_id)   ]   8 bytes  (the single key component of a surrogate-keyed table)
//! [ reserved suffix  ]   8 bytes  always zero; reserved for future versioning
//! ```
//!
//! `surrogate_partial` returns the first 12 bytes (table id and key component);
//! the 8-byte zero suffix is appended when the write is flushed.
use byteorder::{BigEndian, ByteOrder};
use vstd::prelude::*;

use crate::order::{
    be_bytes, lemma_be_len, lemma_be_order, lemma_lex_common_prefix, lemma_lex_extend,
    lemma_lex_irreflexive, lex_lt, pow256,
};

verus! {

/// Per-row trailing byte count reserved for the future versioning system.
pub const SUFFIX_LEN: usize = 8;

/// `BigEndian::write_u32` into a fresh 4-byte buffer: the big-endian bytes of `n`.
#[verifier::external_body]
fn write_u32_be(n: u32) -> (out: [u8; 4])
    ensures
        out@ == be_bytes(n as nat, 4),
{
    let mut out = [0u8; 4];
    BigEndian::write_u32(&mut out, n);
    out
}

/// `BigEndian::write_u64` into a fresh 8-byte buffer: the big-endian bytes of `n`.
#[verifier::external_body]
fn write_u64_be(n: u64) -> (out: [u8; 8])
    ensures
        out@ == be_bytes(n as nat, 8),
{
    let mut out = [0u8; 8];
    BigEndian::write_u64(&mut out, n);
    out
}

/// `BigEndian::read_u64`: the number whose big-endian bytes are the first
/// eight bytes of `buf` (the crate panics on fewer, which `requires` rules out).
#[verifier::external_body]
fn read_u64_be(buf: &[u8]) -> (n: u64)
    requires
        buf@.len() >= 8,
    ensures
        be_bytes(n as nat, 8) == buf@.subrange(0, 8),
{
    BigEndian::read_u64(buf)
}

/// Build the table prefix `u32_be(table_id)` — the leading 4 bytes of every key in `table_id`.
pub fn table_prefix(table_id: u32) -> (out: [u8; 4])
    ensures
        out@ == be_bytes(table_id as nat, 4),
{
    write_u32_be(table_id)
}

/// The lex-successor of `table_prefix(table_id)`, used as the exclusive upper bound for
/// a table-wide range scan. Returns `[0,0,0,0]` if `table_id == u32::MAX` (the scan would
/// run to the end of the store anyway).
pub fn table_prefix_upper(table_id: u32) -> (out: [u8; 4])
    ensures
        table_id < u32::MAX ==> out@ == be_bytes(table_id as nat + 1, 4),
        table_id == u32::MAX ==> out@ == be_bytes(0, 4),
{
    write_u32_be(table_id.wrapping_add(1))
}

/// Surrogate composite-key body: `u32_be(table_id) || u64_be(row_id)`. 12 bytes.
///
/// This is the *partial* key — the flush appends the 8-byte zero suffix.
pub fn surrogate_partial(table_id: u32, row_id: u64) -> (out: Vec<u8>)
    ensures
        out@ == be_bytes(table_id as nat, 4) + be_bytes(row_id as nat, 8),
{
    let prefix = table_prefix(table_id);
    let body = write_u64_be(row_id);
    let mut out: Vec<u8> = Vec::new();
    let mut i: usize = 0;
    while i < 4
        invariant
            i <= 4,
            prefix@.len() == 4,
            out@ == prefix@.take(i as int),
        decreases 4 - i,
    {
        out.push(prefix[i]);
        assert(prefix@.take(i + 1) =~= prefix@.take(i as int).push(prefix@[i as int]));
        i = i + 1;
    }
    let mut j: usize = 0;
    while j < 8
        invariant
            j <= 8,
            prefix@.len() == 4,
            body@.len() == 8,
            out@ == prefix@ + body@.take(j as int),
        decreases 8 - j,
    {
        out.push(body[j]);
        assert(body@.take(j + 1) =~= body@.take(j as int).push(body@[j as int]));
        j = j + 1;
    }
    assert(prefix@.take(4) =~= prefix@);
    assert(body@.take(8) =~= body@);
    out
}

/// Decode the surrogate row id from a full data key.
///
/// Caller is responsible for confirming the key starts with the expected `table_prefix`
/// and is the right length for a surrogate-keyed table. Returns `None` if the key is
/// shorter than `4 + 8 + SUFFIX_LEN`.
pub fn surrogate_row_id(full_key: &[u8]) -> (res: Option<u64>)
    ensures
        res is None <==> full_key@.len() < 4 + 8 + SUFFIX_LEN,
        res matches Some(n) ==> be_bytes(n as nat, 8) == full_key@.subrange(4, 12),
{
    if full_key.len() < 4 + 8 + SUFFIX_LEN {
        return None;
    }
    let body = &full_key[4..4 + 8];
    let n = read_u64_be(body);
    assert(body@.subrange(0, 8) =~= body@);
    Some(n)
}

/// Two numbers below `pow256(n)` with equal `n`-byte big-endian forms are equal.
pub proof fn lemma_be_injective(x: nat, y: nat, n: nat)
    requires
        x < pow256(n),
        y < pow256(n),
        be_bytes(x, n) == be_bytes(y, n),
    ensures
        x == y,
{
    lemma_lex_irreflexive(be_bytes(x, n));
    if x < y {
        lemma_be_order(x, y, n);
    } else if y < x {
        lemma_be_order(y, x, n);
    }
}

/// 256^4 and 256^8.
proof fn lemma_pow256_4_8()
    ensures
        pow256(4) == 0x1_0000_0000,
        pow256(8) == 0x1_0000_0000_0000_0000,
{
    reveal_with_fuel(pow256, 9);
}

/// A row id written into a data key reads back unchanged, whatever suffix
/// the key carries.
pub proof fn law_surrogate_round_trip(table_id: u32, row_id: u64, suffix: Seq<u8>, n: u64)
    requires
        suffix.len() == SUFFIX_LEN,
        be_bytes(n as nat, 8) == (be_bytes(table_id as nat, 4) + be_bytes(row_id as nat, 8)
            + suffix).subrange(4, 12),
    ensures
        n == row_id,
{
    lemma_be_len(table_id as nat, 4);
    lemma_be_len(row_id as nat, 8);
    lemma_pow256_4_8();
    assert((be_bytes(table_id as nat, 4) + be_bytes(row_id as nat, 8) + suffix).subrange(4, 12)
        =~= be_bytes(row_id as nat, 8));
    lemma_be_injective(n as nat, row_id as nat, 8);
}

/// Data keys sort by table first, then by row id.
pub proof fn law_surrogate_keys_sort_by_table_then_row(t1: u32, r1: u64, t2: u32, r2: u64)
    requires
        t1 < t2 || (t1 == t2 && r1 < r2),
    ensures
        lex_lt(
            be_bytes(t1 as nat, 4) + be_bytes(r1 as nat, 8),
            be_bytes(t2 as nat, 4) + be_bytes(r2 as nat, 8),
        ),
{
    lemma_pow256_4_8();
    lemma_be_len(t1 as nat, 4);
    lemma_be_len(t2 as nat, 4);
    if t1 < t2 {
        lemma_be_order(t1 as nat, t2 as nat, 4);
        lemma_lex_extend(
            be_bytes(t1 as nat, 4),
            be_bytes(t2 as nat, 4),
            be_bytes(r1 as nat, 8),
            be_bytes(r2 as nat, 8),
        );
    } else {
        lemma_be_order(r1 as nat, r2 as nat, 8);
        lemma_lex_common_prefix(be_bytes(t1 as nat, 4), be_bytes(r1 as nat, 8), be_bytes(r2 as nat, 8));
    }
}

/// A table's keys lie in `[table_prefix, table_prefix_upper)` unless the table
/// id is the largest, whose upper bound wraps.
pub proof fn law_table_prefix_upper_bounds_table(table_id: u32, rest: Seq<u8>)
    requires
        table_id < u32::MAX,
    ensures
        lex_lt(be_bytes(table_id as nat, 4) + rest, be_bytes(table_id as nat + 1, 4)),
{
    lemma_pow256_4_8();
    lemma_be_len(table_id as nat, 4);
    lemma_be_len(table_id as nat + 1, 4);
    lemma_be_order(table_id as nat, table_id as nat + 1, 4);
    lemma_lex_extend(be_bytes(table_id as nat, 4), be_bytes(table_id as nat + 1, 4), rest, Seq::<u8>::empty());
    assert(be_bytes(table_id as nat + 1, 4) + Seq::<u8>::empty() =~= be_bytes(table_id as nat + 1, 4));
}

} // verus!

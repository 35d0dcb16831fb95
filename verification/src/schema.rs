//! Order-preserving binary key encoding.
//!
//! Turns logical key values into the byte strings the store keeps and ranges
//! over, so that lexicographic byte order matches logical sort order — the
//! property every point lookup, prefix scan, and `ORDER BY` relies on.
use vstd::prelude::*;
use vstd::utf8::encode_utf8;

use crate::error::Error;
use crate::ir::{Key, Type};
use crate::keys::{escape, escape_byte, flip, lemma_escape_front, lemma_escape_order, lemma_pow256_8};
use crate::order::{
    be_bytes, lemma_be_len, lemma_be_order, lemma_lex_asymmetric, lemma_lex_common_prefix,
    lemma_lex_extend,
    lemma_lex_irreflexive, lemma_lex_total, lex_lt, u64_be_bytes,
};
use crate::f64bits::{
    f64_of_i64, i64_to_f64_bits, is_finite, is_negative, order_bits, order_key_bits, saturate_i64, whole_to_i64, whole_value,
};
use crate::value::{spec_field, Value};

verus! {

/// The order-preserving bytes of an integer: big-endian with the sign bit
/// flipped.
pub open spec fn int_bytes(n: i64) -> Seq<u8> {
    be_bytes(flip(n), 8)
}

/// The order-preserving, self-delimiting bytes of a string: its UTF-8 bytes
/// with `00` escaped to `00 FF`, then the terminator `00 00`.
pub open spec fn str_key_bytes(s: Seq<char>) -> Seq<u8> {
    escape(encode_utf8(s)) + seq![0u8, 0u8]
}

/// Encodes a signed integer so raw byte order matches numeric order.
///
/// Flips the sign bit of the big-endian two's-complement, which maps the
/// signed range onto unsigned byte order (`i64::MIN` → all-zero high bit):
///
///   42_i64   two's-complement BE   00 00 00 00 00 00 00 2A
///            flip bit 63       ─▶  80 00 00 00 00 00 00 2A
pub fn encode_int(n: i64) -> (out: [u8; 8])
    ensures
        out@ == int_bytes(n),
{
    let u: u64 = if n < 0 {
        (n + 0x7fff_ffff_ffff_ffff + 1) as u64
    } else {
        (n as u64) + 0x8000_0000_0000_0000
    };
    let b = u64_be_bytes(u);
    proof {
        lemma_be_len(u as nat, 8);
    }
    let out = [b[0], b[1], b[2], b[3], b[4], b[5], b[6], b[7]];
    assert(out@ =~= b@);
    out
}

/// Encodes a string, order-preserving and self-delimiting.
///
/// Interior `00` bytes are escaped to `00 FF`; the string ends with `00 00`.
/// The terminator sorts before any escaped byte, so a prefix sorts before a
/// longer string (`"a" < "ab"`) even when more key components follow:
///
///   "ab"     ─▶  61 62 00 00           ('a' 'b' · terminator)
///   "a\0b"   ─▶  61 00 FF 62 00 00     ('a' · escaped-NUL · 'b' · terminator)
pub fn encode_str(s: &str) -> (out: Vec<u8>)
    ensures
        out@ == str_key_bytes(s@),
{
    let data = s.as_bytes();
    let mut out: Vec<u8> = Vec::new();
    let mut i: usize = 0;
    while i < data.len()
        invariant
            i <= data@.len(),
            out@ == escape(data@.take(i as int)),
        decreases data.len() - i,
    {
        let b = data[i];
        out.push(b);
        if b == 0x00 {
            out.push(0xFF);
        }
        assert(data@.take(i + 1).drop_last() =~= data@.take(i as int));
        assert(out@ =~= escape(data@.take(i + 1)));
        i = i + 1;
    }
    assert(data@.take(data.len() as int) =~= data@);
    out.push(0x00);
    out.push(0x00);
    assert(out@ =~= str_key_bytes(s@));
    out
}

} // verus!

verus! {

/// The message of a key field of the wrong type.
pub open spec fn must_be_text(name: Seq<char>, what: Seq<char>) -> Seq<char> {
    "key '"@ + name + "' must be "@ + what
}

/// What one key field encodes to against its column: its bytes, or the
/// message of the schema error (a missing field, a field of the wrong type, a
/// float that is not a finite whole number, or a column neither int nor
/// string).
pub open spec fn field_result(field: Option<Value>, col: Key) -> Result<Seq<u8>, Seq<char>> {
    match field {
        None => Err("missing key '"@ + col.name@ + "'"@),
        Some(v) => match col.ty {
            Type::Int => match v {
                Value::Int(i) => Ok(int_bytes(i)),
                Value::Float(b) => match whole_value(b) {
                    Some(w) => Ok(int_bytes(saturate_i64(w))),
                    None => Err(must_be_text(col.name@, "int"@)),
                },
                _ => Err(must_be_text(col.name@, "int"@)),
            },
            Type::String => match v {
                Value::String(s) => Ok(str_key_bytes(s@)),
                _ => Err(must_be_text(col.name@, "string"@)),
            },
            _ => Err(must_be_text(col.name@, "int or string"@)),
        },
    }
}

/// The encoding of fields against columns, pairwise up to the shorter list:
/// the concatenated bytes, or the message of the first field that fails.
pub open spec fn fields_result(fields: Seq<Option<Value>>, cols: Seq<Key>) -> Result<
    Seq<u8>,
    Seq<char>,
>
    decreases fields.len(),
{
    if fields.len() == 0 || cols.len() == 0 {
        Ok(seq![])
    } else {
        match field_result(fields[0], cols[0]) {
            Err(m) => Err(m),
            Ok(b) => match fields_result(fields.drop_first(), cols.drop_first()) {
                Ok(r) => Ok(b + r),
                Err(m) => Err(m),
            },
        }
    }
}

/// `p` put in front of a successful encoding.
pub open spec fn prepend_ok(p: Seq<u8>, r: Result<Seq<u8>, Seq<char>>) -> Result<
    Seq<u8>,
    Seq<char>,
> {
    match r {
        Ok(b) => Ok(p + b),
        Err(m) => Err(m),
    }
}

/// The fields a row supplies for the key columns, looked up by name.
pub open spec fn row_fields(row: Value, cols: Seq<Key>) -> Seq<Option<Value>> {
    Seq::new(cols.len(), |i: int| spec_field(row, cols[i].name@))
}

/// Literal key values as supplied fields.
pub open spec fn tuple_fields(vals: Seq<Value>) -> Seq<Option<Value>> {
    Seq::new(vals.len(), |i: int| Some(vals[i]))
}

/// `"key '<name>' must be <what>"`.
fn must_be(name: &str, what: &str) -> (m: String)
    ensures
        m@ == must_be_text(name@, what@),
{
    let mut m = String::from_str("key '");
    m.append(name);
    m.append("' must be ");
    m.append(what);
    m
}

/// Appends the bytes of `src` to `out`.
fn push_all(out: &mut Vec<u8>, src: &[u8])
    ensures
        final(out)@ == old(out)@ + src@,
{
    let mut i: usize = 0;
    while i < src.len()
        invariant
            i <= src@.len(),
            out@ == old(out)@ + src@.take(i as int),
        decreases src.len() - i,
    {
        out.push(src[i]);
        assert(src@.take(i + 1) =~= src@.take(i as int).push(src@[i as int]));
        i = i + 1;
    }
    assert(src@.take(src.len() as int) =~= src@);
}

/// Append the order-preserving encoding of one key field to `out`. Shared by
/// [`encode_key`] (field pulled by name from a row) and [`encode_key_tuple`]
/// (positional literal) so both produce identical bytes. Key columns are int
/// or string; a float counts as an int when it is a finite whole number.
fn encode_key_field(out: &mut Vec<u8>, field: &Value, col: &Key) -> (res: Result<(), Error>)
    ensures
        match field_result(Some(*field), *col) {
            Ok(b) => res is Ok && final(out)@ == old(out)@ + b,
            Err(m) => res matches Err(Error::Schema(e)) && e@ == m,
        },
{
    match col.ty {
        Type::Int => {
            let n: i64 = match field {
                Value::Int(i) => *i,
                Value::Float(b) => match whole_to_i64(*b) {
                    Some(i) => i,
                    None => {
                        return Err(Error::Schema(must_be(col.name.as_str(), "int")));
                    },
                },
                _ => {
                    return Err(Error::Schema(must_be(col.name.as_str(), "int")));
                },
            };
            let b = encode_int(n);
            push_all(out, &b);
        },
        Type::String => {
            match field {
                Value::String(s) => {
                    let b = encode_str(s.as_str());
                    push_all(out, b.as_slice());
                },
                _ => {
                    return Err(Error::Schema(must_be(col.name.as_str(), "string")));
                },
            }
        },
        _ => {
            return Err(Error::Schema(must_be(col.name.as_str(), "int or string")));
        },
    }
    Ok(())
}

/// Encodes a row's composite key — one self-delimiting component per key
/// column, concatenated in declaration order.
///
/// Returns an [`Error::Schema`] if a key field is missing or has the wrong
/// type. For `create table t (id int, name string)`, row `{id: 42, name: "ab"}`:
///
///   id   = 42    ─▶  80 00 00 00 00 00 00 2A       (encode_int)
///   name = "ab"  ─▶  61 62 00 00                   (encode_str)
///   key          =   80 00 00 00 00 00 00 2A 61 62 00 00
pub fn encode_key(val: &Value, keys: &[Key]) -> (res: Result<Vec<u8>, Error>)
    ensures
        match fields_result(row_fields(*val, keys@), keys@) {
            Ok(b) => res matches Ok(out) && out@ == b,
            Err(m) => res matches Err(Error::Schema(e)) && e@ == m,
        },
{
    let ghost fields = row_fields(*val, keys@);
    let mut out: Vec<u8> = Vec::new();
    let mut i: usize = 0;
    assert(fields.skip(0) =~= fields);
    assert(keys@.skip(0) =~= keys@);
    assert(out@ + Seq::<u8>::empty() =~= out@);
    while i < keys.len()
        invariant
            i <= keys@.len(),
            fields == row_fields(*val, keys@),
            fields_result(fields, keys@) == prepend_ok(
                out@,
                fields_result(fields.skip(i as int), keys@.skip(i as int)),
            ),
        decreases keys.len() - i,
    {
        let col = &keys[i];
        let ghost before = out@;
        proof {
            assert(fields.skip(i as int)[0] == spec_field(*val, col.name@));
            assert(fields.skip(i as int).drop_first() =~= fields.skip(i + 1));
            assert(keys@.skip(i as int).drop_first() =~= keys@.skip(i + 1));
        }
        match val.get_field(col.name.as_str()) {
            None => {
                let mut m = String::from_str("missing key '");
                m.append(col.name.as_str());
                m.append("'");
                return Err(Error::Schema(m));
            },
            Some(field) => {
                match encode_key_field(&mut out, field, col) {
                    Err(e) => {
                        return Err(e);
                    },
                    Ok(()) => {},
                }
            },
        }
        proof {
            let rest = fields_result(fields.skip(i + 1), keys@.skip(i + 1));
            let fr = field_result(fields.skip(i as int)[0], keys@.skip(i as int)[0]);
            let b = fr->Ok_0;
            assert(out@ == before + b);
            assert(fields_result(fields.skip(i as int), keys@.skip(i as int)) == prepend_ok(b, rest));
            if rest is Ok {
                assert(before + (b + rest->Ok_0) =~= out@ + rest->Ok_0);
            }
        }
        i = i + 1;
    }
    proof {
        assert(fields.skip(i as int).len() == 0);
        assert(out@ + Seq::<u8>::empty() =~= out@);
    }
    Ok(out)
}

/// Encodes literal key values positionally against the **leading** key
/// columns. For a full key `vals.len() == keys.len()`; a shorter `vals` is a
/// leading prefix (used by partial-key range reads). The per-column encoding
/// is byte-identical to [`encode_key`], so a `get` reproduces exactly the key
/// an `insert` of the same logical row would store.
pub fn encode_key_tuple(vals: &[Value], keys: &[Key]) -> (res: Result<Vec<u8>, Error>)
    ensures
        match fields_result(tuple_fields(vals@), keys@) {
            Ok(b) => res matches Ok(out) && out@ == b,
            Err(m) => res matches Err(Error::Schema(e)) && e@ == m,
        },
{
    let ghost fields = tuple_fields(vals@);
    let mut out: Vec<u8> = Vec::new();
    let mut i: usize = 0;
    assert(fields.skip(0) =~= fields);
    assert(keys@.skip(0) =~= keys@);
    assert(out@ + Seq::<u8>::empty() =~= out@);
    while i < vals.len() && i < keys.len()
        invariant
            i <= vals@.len(),
            i <= keys@.len(),
            fields == tuple_fields(vals@),
            fields_result(fields, keys@) == prepend_ok(
                out@,
                fields_result(fields.skip(i as int), keys@.skip(i as int)),
            ),
        decreases keys.len() - i,
    {
        let ghost before = out@;
        proof {
            assert(fields.skip(i as int)[0] == Some(vals@[i as int]));
            assert(fields.skip(i as int).drop_first() =~= fields.skip(i + 1));
            assert(keys@.skip(i as int).drop_first() =~= keys@.skip(i + 1));
        }
        match encode_key_field(&mut out, &vals[i], &keys[i]) {
            Err(e) => {
                return Err(e);
            },
            Ok(()) => {},
        }
        proof {
            let rest = fields_result(fields.skip(i + 1), keys@.skip(i + 1));
            let fr = field_result(fields.skip(i as int)[0], keys@.skip(i as int)[0]);
            let b = fr->Ok_0;
            assert(out@ == before + b);
            assert(fields_result(fields.skip(i as int), keys@.skip(i as int)) == prepend_ok(b, rest));
            if rest is Ok {
                assert(before + (b + rest->Ok_0) =~= out@ + rest->Ok_0);
            }
        }
        i = i + 1;
    }
    proof {
        assert(fields.skip(i as int).len() == 0 || keys@.skip(i as int).len() == 0);
        assert(out@ + Seq::<u8>::empty() =~= out@);
    }
    Ok(out)
}

} // verus!

verus! {

/// `encode_int` preserves and reflects numeric order.
pub proof fn law_int_encoding_order(a: i64, b: i64)
    ensures
        a < b <==> lex_lt(int_bytes(a), int_bytes(b)),
{
    lemma_pow256_8();
    if a < b {
        lemma_be_order(flip(a), flip(b), 8);
    } else if b < a {
        lemma_be_order(flip(b), flip(a), 8);
        lemma_lex_asymmetric(int_bytes(b), int_bytes(a));
    } else {
        lemma_lex_irreflexive(int_bytes(a));
    }
}

/// String keys are order-preserving and prefix-safe: when one string's
/// bytes sort before another's, its encoding sorts first whatever key
/// components follow either.
pub proof fn law_str_encoding_order(s1: Seq<char>, s2: Seq<char>, r1: Seq<u8>, r2: Seq<u8>)
    requires
        lex_lt(encode_utf8(s1), encode_utf8(s2)),
    ensures
        lex_lt(str_key_bytes(s1) + r1, str_key_bytes(s2) + r2),
{
    let t1 = seq![0u8, 0u8] + r1;
    let t2 = seq![0u8, 0u8] + r2;
    lemma_escape_order(encode_utf8(s1), encode_utf8(s2), t1, t2);
    assert(str_key_bytes(s1) + r1 =~= escape(encode_utf8(s1)) + t1);
    assert(str_key_bytes(s2) + r2 =~= escape(encode_utf8(s2)) + t2);
}

/// A positional key tuple encodes byte-identically to a row holding the same
/// values under the key columns' names — so `get` finds what `insert` stored.
pub proof fn law_tuple_matches_row(row: Value, vals: Seq<Value>, keys: Seq<Key>)
    requires
        vals.len() == keys.len(),
        forall|i: int| 0 <= i < keys.len() ==> spec_field(row, #[trigger] keys[i].name@) == Some(
            vals[i],
        ),
    ensures
        fields_result(row_fields(row, keys), keys) == fields_result(tuple_fields(vals), keys),
{
    assert(row_fields(row, keys) =~= tuple_fields(vals));
}

/// Key components of one column are prefix-free: when two differ, the first
/// difference decides the order of whole keys, whatever components follow.
pub proof fn law_key_field_prefix_free(
    x: Value,
    y: Value,
    col: Key,
    r1: Seq<u8>,
    r2: Seq<u8>,
)
    requires
        field_result(Some(x), col) is Ok,
        field_result(Some(y), col) is Ok,
        lex_lt(field_result(Some(x), col)->Ok_0, field_result(Some(y), col)->Ok_0),
    ensures
        lex_lt(field_result(Some(x), col)->Ok_0 + r1, field_result(Some(y), col)->Ok_0 + r2),
{
    let b1 = field_result(Some(x), col)->Ok_0;
    let b2 = field_result(Some(y), col)->Ok_0;
    match col.ty {
        Type::Int => {
            lemma_be_len(flip(saturate_int_field(x)), 8);
            lemma_be_len(flip(saturate_int_field(y)), 8);
            lemma_lex_extend(b1, b2, r1, r2);
        },
        _ => {
            let (s1, s2) = (x->String_0, y->String_0);
            if lex_lt(encode_utf8(s1@), encode_utf8(s2@)) {
                law_str_encoding_order(s1@, s2@, r1, r2);
            } else {
                lemma_lex_total(encode_utf8(s1@), encode_utf8(s2@));
                if encode_utf8(s1@) == encode_utf8(s2@) {
                    lemma_lex_irreflexive(b1);
                } else {
                    law_str_encoding_order(s2@, s1@, Seq::<u8>::empty(), Seq::<u8>::empty());
                    assert(b1 + Seq::<u8>::empty() =~= b1);
                    assert(b2 + Seq::<u8>::empty() =~= b2);
                    lemma_lex_asymmetric(b1, b2);
                }
            }
        },
    }
}

/// The integer an int-column field encodes (meaningful when it encodes).
pub open spec fn saturate_int_field(v: Value) -> i64 {
    match v {
        Value::Int(i) => i,
        Value::Float(b) => saturate_i64(whole_value(b)->0),
        _ => 0,
    }
}

} // verus!

verus! {

/// One value's order-preserving encoding: a type tag fixing the cross-type
/// order, then a body. Ints widen to the nearest float so that ints and
/// floats sort together; `null`'s tag is the highest, so it sorts last.
///
///   tag   type           body
///   01    Bool           00 | 01
///   02    Int / Float    order-preserving float bits (8 bytes)
///   03    String         `encode_str` bytes
///   FE    Oid/Bytes/…    (none — composites share one bucket)
///   FF    Null           (none)
pub open spec fn order_value_bytes(v: Value) -> Seq<u8> {
    match v {
        Value::Bool(b) => seq![0x01u8, if b { 1u8 } else { 0u8 }],
        Value::Int(i) => seq![0x02u8] + be_bytes(order_key_bits(f64_of_i64(i)) as nat, 8),
        Value::Float(b) => seq![0x02u8] + be_bytes(order_key_bits(b) as nat, 8),
        Value::String(s) => seq![0x03u8] + str_key_bytes(s@),
        Value::Null => seq![0xFFu8],
        _ => seq![0xFEu8],
    }
}

/// Every byte bit-complemented (which reverses the order).
pub open spec fn complement(s: Seq<u8>) -> Seq<u8> {
    Seq::new(s.len(), |i: int| !s[i])
}

/// The sort key of a row: each value's encoding, complemented where its
/// direction is descending, concatenated most significant first.
pub open spec fn order_key_bytes(vals: Seq<Value>, desc: Seq<bool>) -> Seq<u8>
    decreases vals.len(),
{
    if vals.len() == 0 {
        Seq::empty()
    } else {
        let c = order_value_bytes(vals.last());
        order_key_bytes(vals.drop_last(), desc.drop_last()) + if desc.last() {
            complement(c)
        } else {
            c
        }
    }
}

/// Appends the eight big-endian bytes of `x`.
fn push_u64(out: &mut Vec<u8>, x: u64)
    ensures
        final(out)@ == old(out)@ + be_bytes(x as nat, 8),
{
    let b = u64_be_bytes(x);
    push_all(out, b.as_slice());
}

/// Appends one value's order-preserving encoding (`[tag] [body]`) to `out`.
fn encode_order_value(out: &mut Vec<u8>, val: &Value)
    ensures
        final(out)@ == old(out)@ + order_value_bytes(*val),
{
    let ghost before = out@;
    match val {
        Value::Bool(b) => {
            out.push(0x01);
            out.push(if *b {
                1
            } else {
                0
            });
        },
        Value::Int(i) => {
            out.push(0x02);
            push_u64(out, order_bits(i64_to_f64_bits(*i)));
        },
        Value::Float(f) => {
            out.push(0x02);
            push_u64(out, order_bits(*f));
        },
        Value::String(s) => {
            out.push(0x03);
            let b = encode_str(s.as_str());
            push_all(out, b.as_slice());
        },
        Value::Null => {
            out.push(0xFF);
        },
        _ => {
            out.push(0xFE);
        },
    }
    assert(out@ =~= before + order_value_bytes(*val));
}

/// Encodes `ORDER BY` sort-key values, order-preserving and typeless.
///
/// Unlike [`encode_key`]/[`encode_key_tuple`] (which require declared
/// int/string key columns and error otherwise), this is total: every value
/// encodes and byte order matches sort order. Each component is `[type tag]
/// [body]`; `null`'s tag is the highest, so `null` sorts last in ascending
/// order. A `desc` component is bit-complemented, which reverses its order —
/// and flips `null` to first. Each component's encoding is prefix-free, so
/// concatenated multi-keys tie-break left-to-right.
pub fn encode_order_key(vals: &[Value], desc: &[bool]) -> (out: Vec<u8>)
    requires
        vals@.len() == desc@.len(),
    ensures
        out@ == order_key_bytes(vals@, desc@),
{
    let mut out: Vec<u8> = Vec::new();
    let mut i: usize = 0;
    while i < vals.len()
        invariant
            i <= vals@.len(),
            vals@.len() == desc@.len(),
            out@ == order_key_bytes(vals@.take(i as int), desc@.take(i as int)),
        decreases vals.len() - i,
    {
        let ghost before = out@;
        let mut comp: Vec<u8> = Vec::new();
        encode_order_value(&mut comp, &vals[i]);
        assert(comp@ =~= order_value_bytes(vals@[i as int]));
        if desc[i] {
            let mut k: usize = 0;
            let ghost c = comp@;
            let mut flipped: Vec<u8> = Vec::new();
            while k < comp.len()
                invariant
                    k <= c.len(),
                    comp@ == c,
                    flipped@ == complement(c).take(k as int),
                decreases comp.len() - k,
            {
                flipped.push(!comp[k]);
                assert(complement(c).take(k + 1) =~= complement(c).take(k as int).push(!c[k as int]));
                k = k + 1;
            }
            assert(complement(c).take(k as int) =~= complement(c));
            push_all(&mut out, flipped.as_slice());
        } else {
            push_all(&mut out, comp.as_slice());
        }
        proof {
            assert(vals@.take(i + 1).drop_last() =~= vals@.take(i as int));
            assert(desc@.take(i + 1).drop_last() =~= desc@.take(i as int));
            assert(vals@.take(i + 1).last() == vals@[i as int]);
            assert(desc@.take(i + 1).last() == desc@[i as int]);
        }
        i = i + 1;
    }
    proof {
        assert(vals@.take(i as int) =~= vals@);
        assert(desc@.take(i as int) =~= desc@);
    }
    out
}

} // verus!

verus! {

/// `a` is a proper prefix of `b`.
pub open spec fn proper_prefix(a: Seq<u8>, b: Seq<u8>) -> bool {
    a.len() < b.len() && b.take(a.len() as int) == a
}

/// Complementing every byte reverses the order of two byte strings when
/// neither is a proper prefix of the other.
pub proof fn law_complement_reverses(a: Seq<u8>, b: Seq<u8>)
    requires
        lex_lt(a, b),
        !proper_prefix(a, b),
    ensures
        lex_lt(complement(b), complement(a)),
    decreases a.len(),
{
    if a.len() == 0 {
        assert(b.take(0) =~= a);
    } else {
        let (x, y) = (a[0], b[0]);
        let (ca, cb) = (complement(a), complement(b));
        assert(ca[0] == !x && cb[0] == !y);
        if x != y {
            assert(x < y);
            assert(!y < !x) by (bit_vector)
                requires
                    x < y,
            ;
        } else {
            assert(!x == !y);
            let (a1, b1) = (a.drop_first(), b.drop_first());
            if proper_prefix(a1, b1) {
                assert(b.take(a.len() as int) =~= seq![y] + b1.take(a1.len() as int));
                assert(a =~= seq![x] + a1);
            }
            law_complement_reverses(a1, b1);
            assert(cb.drop_first() =~= complement(b1));
            assert(ca.drop_first() =~= complement(a1));
        }
    }
}

/// Two escaped, terminated strings: neither is a proper prefix of the
/// other, since an escaped `00` is always followed by `FF`.
proof fn lemma_escaped_prefix_free(d1: Seq<u8>, d2: Seq<u8>)
    ensures
        !proper_prefix(escape(d1) + seq![0u8, 0u8], escape(d2) + seq![0u8, 0u8]),
    decreases d1.len(),
{
    let t = seq![0u8, 0u8];
    let (e1, e2) = (escape(d1) + t, escape(d2) + t);
    if d2.len() == 0 {
        assert(escape(d2) =~= Seq::<u8>::empty());
        assert(e2 =~= t);
        if d1.len() > 0 {
            lemma_escape_front(d1);
            assert(e1.len() >= 3);
        }
    } else {
        lemma_escape_front(d2);
        if d1.len() == 0 {
            assert(escape(d1) =~= Seq::<u8>::empty());
            assert(e1 =~= t);
            if proper_prefix(e1, e2) {
                assert(e2[0] == e1[0]);
                assert(e2[1] == e1[1]);
            }
        } else {
            lemma_escape_front(d1);
            if d1[0] == d2[0] {
                lemma_escaped_prefix_free(d1.drop_first(), d2.drop_first());
                let p = escape_byte(d1[0]);
                let r1 = escape(d1.drop_first()) + t;
                let r2 = escape(d2.drop_first()) + t;
                assert(e1 =~= p + r1);
                assert(e2 =~= p + r2);
                if proper_prefix(e1, e2) {
                    assert(r2.take(r1.len() as int) =~= e2.take(e1.len() as int).skip(p.len() as int));
                    assert(r1 =~= e1.skip(p.len() as int));
                }
            } else if proper_prefix(e1, e2) {
                assert(e2[0] == e1[0]);
            }
        }
    }
}

/// One value's order encoding is never a proper prefix of another's.
proof fn lemma_order_value_prefix_free(v: Value, w: Value)
    ensures
        !proper_prefix(order_value_bytes(v), order_value_bytes(w)),
{
    let (a, b) = (order_value_bytes(v), order_value_bytes(w));
    if proper_prefix(a, b) {
        assert(b[0] == a[0]);
        match (v, w) {
            (Value::String(s1), Value::String(s2)) => {
                lemma_escaped_prefix_free(encode_utf8(s1@), encode_utf8(s2@));
                let (k1, k2) = (str_key_bytes(s1@), str_key_bytes(s2@));
                assert(a =~= seq![0x03u8] + k1);
                assert(b =~= seq![0x03u8] + k2);
                assert(k2.take(k1.len() as int) =~= b.take(a.len() as int).skip(1));
                assert(k1 =~= a.skip(1));
            },
            _ => {
                lemma_be_len(order_key_bits(match v {
                    Value::Int(i) => f64_of_i64(i),
                    Value::Float(x) => x,
                    _ => 0u64,
                }) as nat, 8);
                lemma_be_len(order_key_bits(match w {
                    Value::Int(i) => f64_of_i64(i),
                    Value::Float(x) => x,
                    _ => 0u64,
                }) as nat, 8);
            },
        }
    }
}

/// A descending order-key component is the ascending one with every byte
/// complemented, and so reverses the order: where `v` sorts before `w`
/// ascending, `w` sorts before `v` descending.
pub proof fn law_order_key_desc_reverses(v: Value, w: Value)
    ensures
        order_key_bytes(seq![v], seq![true]) == complement(order_key_bytes(seq![v], seq![false])),
        lex_lt(order_key_bytes(seq![v], seq![false]), order_key_bytes(seq![w], seq![false]))
            ==> lex_lt(
            order_key_bytes(seq![w], seq![true]),
            order_key_bytes(seq![v], seq![true]),
        ),
{
    lemma_single_order_key(v);
    lemma_single_order_key(w);
    lemma_order_value_prefix_free(v, w);
    if lex_lt(order_value_bytes(v), order_value_bytes(w)) {
        law_complement_reverses(order_value_bytes(v), order_value_bytes(w));
    }
}

/// `null` sorts last in ascending order and first in descending order: its
/// component is `FF` ascending and `00` descending, and every other value's
/// sorts before the one and after the other.
pub proof fn law_order_key_null_last_asc_first_desc(v: Value)
    requires
        !(v is Null),
    ensures
        order_key_bytes(seq![Value::Null], seq![false]) == seq![0xFFu8],
        order_key_bytes(seq![Value::Null], seq![true]) == seq![0x00u8],
        lex_lt(
            order_key_bytes(seq![v], seq![false]),
            order_key_bytes(seq![Value::Null], seq![false]),
        ),
        lex_lt(
            order_key_bytes(seq![Value::Null], seq![true]),
            order_key_bytes(seq![v], seq![true]),
        ),
{
    lemma_single_order_key(v);
    lemma_single_order_key(Value::Null);
    let a = order_value_bytes(v);
    let x = a[0];
    assert(x < 0xFFu8);
    assert(!0xFFu8 == 0u8) by (bit_vector);
    assert(complement(seq![0xFFu8]) =~= seq![0x00u8]);
    assert(complement(a)[0] == !x);
    assert(0u8 < !x) by (bit_vector)
        requires
            x < 0xFFu8,
    ;
}

/// A one-component order key is that value's encoding, complemented when
/// descending.
proof fn lemma_single_order_key(v: Value)
    ensures
        order_key_bytes(seq![v], seq![false]) == order_value_bytes(v),
        order_key_bytes(seq![v], seq![true]) == complement(order_value_bytes(v)),
        order_value_bytes(v).len() >= 1,
{
    let (s, d0, d1) = (seq![v], seq![false], seq![true]);
    assert(s.drop_last() =~= Seq::<Value>::empty());
    assert(d0.drop_last() =~= Seq::<bool>::empty());
    assert(d1.drop_last() =~= Seq::<bool>::empty());
    assert(order_key_bytes(Seq::<Value>::empty(), Seq::<bool>::empty()) == Seq::<u8>::empty());
    assert(order_key_bytes(s, d0) =~= order_value_bytes(v));
    assert(order_key_bytes(s, d1) =~= complement(order_value_bytes(v)));
}

} // verus!

verus! {

/// A float's bits with negative zero read as zero.
pub open spec fn zero_folded(b: u64) -> u64 {
    if b == 0x8000_0000_0000_0000 {
        0
    } else {
        b
    }
}

/// The numeric order of two finite floats, read off their bits (the two
/// zeros are equal): a negative number is below a non-negative one; among
/// non-negative numbers the larger bit pattern is the larger number, among
/// negative ones the smaller.
pub open spec fn float_lt(a: u64, b: u64) -> bool {
    let (x, y) = (zero_folded(a), zero_folded(b));
    if is_negative(x) != is_negative(y) {
        is_negative(x)
    } else if is_negative(x) {
        y < x
    } else {
        x < y
    }
}

/// Numbers sort numerically in ascending order keys: where one finite float
/// is below another, its key sorts first; an integer sorts as the float it
/// widens to, so integers and floats interleave.
pub proof fn law_order_key_numbers_ascend(a: u64, b: u64, i: i64)
    ensures
        is_finite(a) && is_finite(b) && float_lt(a, b) ==> lex_lt(
            order_key_bytes(seq![Value::Float(a)], seq![false]),
            order_key_bytes(seq![Value::Float(b)], seq![false]),
        ),
        order_key_bytes(seq![Value::Int(i)], seq![false]) == order_key_bytes(
            seq![Value::Float(f64_of_i64(i))],
            seq![false],
        ),
{
    lemma_single_order_key(Value::Float(a));
    lemma_single_order_key(Value::Float(b));
    lemma_single_order_key(Value::Int(i));
    lemma_single_order_key(Value::Float(f64_of_i64(i)));
    if is_finite(a) && is_finite(b) && float_lt(a, b) {
        let (ka, kb) = (order_key_bits(a), order_key_bits(b));
        assert(ka < kb);
        lemma_pow256_8();
        lemma_be_order(ka as nat, kb as nat, 8);
        lemma_lex_common_prefix(seq![0x02u8], be_bytes(ka as nat, 8), be_bytes(kb as nat, 8));
    }
}

} // verus!

verus! {

/// Encoding a leading part of some fields gives a byte prefix of encoding
/// them all, when both succeed.
proof fn lemma_fields_prefix(fields: Seq<Option<Value>>, cols: Seq<Key>, j: int)
    requires
        0 <= j <= fields.len(),
        fields_result(fields.take(j), cols) is Ok,
        fields_result(fields, cols) is Ok,
    ensures
        fields_result(fields.take(j), cols)->Ok_0.is_prefix_of(fields_result(fields, cols)->Ok_0),
    decreases j,
{
    let t = fields.take(j);
    if j == 0 || cols.len() == 0 {
        assert(fields_result(t, cols)->Ok_0 =~= Seq::<u8>::empty());
    } else {
        assert(t[0] == fields[0]);
        assert(t.drop_first() =~= fields.drop_first().take(j - 1));
        lemma_fields_prefix(fields.drop_first(), cols.drop_first(), j - 1);
        let x = field_result(fields[0], cols[0])->Ok_0;
        let r1 = fields_result(fields.drop_first().take(j - 1), cols.drop_first())->Ok_0;
        let r2 = fields_result(fields.drop_first(), cols.drop_first())->Ok_0;
        assert((x + r1) =~= (x + r2).subrange(0, (x + r1).len() as int));
    }
}

/// A key tuple of leading columns encodes to a byte prefix of the full
/// key: when both encode, the first `j` values' bytes begin the bytes of
/// all the values.
pub proof fn law_leading_columns_are_a_key_prefix(vals: Seq<Value>, keys: Seq<Key>, j: int)
    requires
        0 <= j <= vals.len(),
        fields_result(tuple_fields(vals.take(j)), keys) is Ok,
        fields_result(tuple_fields(vals), keys) is Ok,
    ensures
        fields_result(tuple_fields(vals.take(j)), keys)->Ok_0.is_prefix_of(
            fields_result(tuple_fields(vals), keys)->Ok_0,
        ),
{
    assert(tuple_fields(vals.take(j)) =~= tuple_fields(vals).take(j));
    lemma_fields_prefix(tuple_fields(vals), keys, j);
}

} // verus!

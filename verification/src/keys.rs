//! Order-preserving key codec: document keys <-> lexicographically comparable
//! bytes.
//!
//!   tag   payload
//!   0x01  8 bytes   int    i64 big-endian, sign bit flipped
//!   0x02  var       str    UTF-8, 0x00-terminated, 0x00 escaped as 0x00 0xFF
//!   0x03  var       bytes  raw, same termination and escaping
//!
//!   tuple  = components concatenated in order
//!   scalar = a 1-component tuple
//!
//! The store compares `&[u8]` keys lexicographically, so encoded order *is*
//! iteration order. The tag byte makes the encoding self-describing, letting a
//! stored key decode back to the exact value that was written.
use vstd::prelude::*;
use vstd::utf8::*;

use crate::order::{
    be_bytes, lemma_be_len, lemma_be_order, lemma_lex_asymmetric, lemma_lex_common_prefix,
    lemma_lex_extend, lemma_lex_first_byte, lemma_lex_irreflexive, lemma_lex_proper_prefix,
    lemma_lex_total, lex_le, lex_lt, pow256, u64_be_bytes,
};

verus! {

broadcast use {encode_utf8_valid_utf8, encode_utf8_decode_utf8};

/// Tag byte of an integer component.
pub const TAG_INT: u8 = 0x01;

/// Tag byte of a string component.
pub const TAG_STR: u8 = 0x02;

/// Tag byte of a byte-string component.
pub const TAG_BYTES: u8 = 0x03;

/// A single key component.
///
/// Variant order matches tag order, so the derived `Ord` on `KeyPart` — and on
/// `Vec<KeyPart>` — is the order [`key_lt`] describes and [`encode`] preserves.
#[derive(Clone, Debug, PartialEq, Eq, PartialOrd, Ord)]
pub enum KeyPart {
    Int(i64),
    Str(String),
    Bytes(Vec<u8>),
}

//------------------------------
// The model: equality and order of keys
//------------------------------

/// The UTF-8 bytes of a string (how `String`'s `Ord` compares strings).
pub open spec fn str_bytes(s: String) -> Seq<u8> {
    encode_utf8(s@)
}

/// Two components are the same key component.
pub open spec fn part_eq(x: KeyPart, y: KeyPart) -> bool {
    match (x, y) {
        (KeyPart::Int(a), KeyPart::Int(b)) => a == b,
        (KeyPart::Str(a), KeyPart::Str(b)) => a@ == b@,
        (KeyPart::Bytes(a), KeyPart::Bytes(b)) => a@ == b@,
        _ => false,
    }
}

/// The derived component order: ints before strings before byte strings;
/// ints numerically, strings and byte strings by their bytes.
pub open spec fn part_lt(x: KeyPart, y: KeyPart) -> bool {
    match (x, y) {
        (KeyPart::Int(a), KeyPart::Int(b)) => a < b,
        (KeyPart::Int(_), _) => true,
        (KeyPart::Str(a), KeyPart::Str(b)) => lex_lt(str_bytes(a), str_bytes(b)),
        (KeyPart::Str(_), KeyPart::Bytes(_)) => true,
        (KeyPart::Bytes(a), KeyPart::Bytes(b)) => lex_lt(a@, b@),
        _ => false,
    }
}

/// Two keys (component tuples) are the same key.
pub open spec fn key_eq(a: Seq<KeyPart>, b: Seq<KeyPart>) -> bool {
    a.len() == b.len() && forall|i: int| 0 <= i < a.len() ==> part_eq(#[trigger] a[i], b[i])
}

/// The derived tuple order: lexicographic over components, a proper prefix
/// first.
pub open spec fn key_lt(a: Seq<KeyPart>, b: Seq<KeyPart>) -> bool
    decreases a.len(),
{
    if a.len() == 0 {
        b.len() > 0
    } else if b.len() == 0 {
        false
    } else if part_lt(a[0], b[0]) {
        true
    } else if part_eq(a[0], b[0]) {
        key_lt(a.drop_first(), b.drop_first())
    } else {
        false
    }
}

//------------------------------
// The encoding
//------------------------------

/// One byte, escaped: `0x00` becomes `0x00 0xFF`.
pub open spec fn escape_byte(b: u8) -> Seq<u8> {
    if b == 0 {
        seq![0u8, 0xFFu8]
    } else {
        seq![b]
    }
}

/// A payload with every `0x00` escaped (no terminator).
pub open spec fn escape(data: Seq<u8>) -> Seq<u8>
    decreases data.len(),
{
    if data.len() == 0 {
        seq![]
    } else {
        escape(data.drop_last()) + escape_byte(data.last())
    }
}

/// An `i64` mapped onto the unsigned range, order-preserving.
pub open spec fn flip(i: i64) -> nat {
    (i + 0x8000_0000_0000_0000) as nat
}

/// The encoding of one component: tag, then payload.
pub open spec fn part_enc(p: KeyPart) -> Seq<u8> {
    match p {
        KeyPart::Int(i) => seq![TAG_INT] + be_bytes(flip(i), 8),
        KeyPart::Str(s) => seq![TAG_STR] + escape(str_bytes(s)) + seq![0u8],
        KeyPart::Bytes(b) => seq![TAG_BYTES] + escape(b@) + seq![0u8],
    }
}

/// The encoding of a key: its components' encodings, concatenated in order.
pub open spec fn key_enc(parts: Seq<KeyPart>) -> Seq<u8>
    decreases parts.len(),
{
    if parts.len() == 0 {
        seq![]
    } else {
        key_enc(parts.drop_last()) + part_enc(parts.last())
    }
}

/// `i` mapped onto the unsigned range.
fn flip_int(i: i64) -> (u: u64)
    ensures
        u as nat == flip(i),
{
    if i < 0 {
        (i + 0x7fff_ffff_ffff_ffff + 1) as u64
    } else {
        (i as u64) + 0x8000_0000_0000_0000
    }
}

/// Encodes a key (a tuple of components) to order-preserving bytes.
pub fn encode(parts: &[KeyPart]) -> (out: Vec<u8>)
    ensures
        out@ == key_enc(parts@),
{
    let mut out: Vec<u8> = Vec::new();
    let mut i: usize = 0;
    while i < parts.len()
        invariant
            i <= parts.len(),
            out@ == key_enc(parts@.take(i as int)),
        decreases parts.len() - i,
    {
        let ghost before = out@;
        match &parts[i] {
            KeyPart::Int(v) => {
                out.push(TAG_INT);
                let bytes = u64_be_bytes(flip_int(*v));
                let mut k: usize = 0;
                while k < 8
                    invariant
                        k <= 8,
                        bytes@ == be_bytes(flip(*v), 8),
                        out@ == before + seq![TAG_INT] + bytes@.take(k as int),
                    decreases 8 - k,
                {
                    proof {
                        lemma_be_len(flip(*v), 8);
                    }
                    out.push(bytes[k]);
                    assert(bytes@.take(k + 1) =~= bytes@.take(k as int).push(bytes@[k as int]));
                    k = k + 1;
                }
                proof {
                    lemma_be_len(flip(*v), 8);
                    assert(bytes@.take(8) =~= bytes@);
                }
            },
            KeyPart::Str(s) => {
                out.push(TAG_STR);
                escape_into(s.as_str().as_bytes(), &mut out);
            },
            KeyPart::Bytes(b) => {
                out.push(TAG_BYTES);
                escape_into(b.as_slice(), &mut out);
            },
        }
        assert(parts@.take(i + 1).drop_last() =~= parts@.take(i as int));
        assert(out@ =~= before + part_enc(parts@[i as int]));
        i = i + 1;
    }
    assert(parts@.take(parts.len() as int) =~= parts@);
    out
}

/// Appends `data` with `0x00` -> `0x00 0xFF` escaping, then the `0x00` terminator.
///
/// Escaping keeps the terminator unambiguous while preserving order: a real
/// `0x00` byte becomes `0x00 0xFF`, which sorts after the bare terminator, so a
/// shorter component still sorts before any component extending it.
fn escape_into(data: &[u8], out: &mut Vec<u8>)
    ensures
        final(out)@ == old(out)@ + escape(data@) + seq![0u8],
{
    escape_no_term(data, out);
    out.push(0x00);
}

/// Appends `data` with `0x00` -> `0x00 0xFF` escaping and no terminator.
fn escape_no_term(data: &[u8], out: &mut Vec<u8>)
    ensures
        final(out)@ == old(out)@ + escape(data@),
{
    let ghost start = out@;
    let mut i: usize = 0;
    while i < data.len()
        invariant
            i <= data.len(),
            out@ == start + escape(data@.take(i as int)),
        decreases data.len() - i,
    {
        let b = data[i];
        out.push(b);
        if b == 0x00 {
            out.push(0xFF);
        }
        assert(data@.take(i + 1).drop_last() =~= data@.take(i as int));
        assert(out@ =~= start + escape(data@.take(i + 1)));
        i = i + 1;
    }
    assert(data@.take(data.len() as int) =~= data@);
}

//------------------------------
// Decoding
//------------------------------

/// Splits an escaped, `0x00`-terminated run into its payload and what follows
/// the terminator; `None` when the run is unterminated.
pub open spec fn unescape_spec(b: Seq<u8>) -> Option<(Seq<u8>, Seq<u8>)>
    decreases b.len(),
{
    if b.len() == 0 {
        None
    } else if b[0] == 0 && b.len() > 1 && b[1] == 0xFF {
        match unescape_spec(b.subrange(2, b.len() as int)) {
            Some((d, r)) => Some((seq![0u8] + d, r)),
            None => None,
        }
    } else if b[0] == 0 {
        Some((seq![], b.drop_first()))
    } else {
        match unescape_spec(b.drop_first()) {
            Some((d, r)) => Some((seq![b[0]] + d, r)),
            None => None,
        }
    }
}

/// Whether a byte string is a well-formed key encoding (what [`decode`]
/// accepts).
pub open spec fn parses(b: Seq<u8>) -> bool
    decreases b.len(),
{
    if b.len() == 0 {
        true
    } else if b[0] == TAG_INT {
        b.len() >= 9 && parses(b.subrange(9, b.len() as int))
    } else if b[0] == TAG_STR || b[0] == TAG_BYTES {
        match unescape_spec(b.drop_first()) {
            Some((d, r)) => (b[0] == TAG_BYTES || valid_utf8(d)) && r.len() < b.len() && parses(r),
            None => false,
        }
    } else {
        false
    }
}

/// The message [`decode`] gives for malformed bytes: that of the first
/// component that fails — a truncated int, an unterminated string or byte
/// string, a string that is not UTF-8, or an unknown tag; `None` for a
/// well-formed encoding.
pub open spec fn decode_error(b: Seq<u8>) -> Option<Seq<char>>
    decreases b.len(),
{
    if b.len() == 0 {
        None
    } else if b[0] == TAG_INT {
        if b.len() >= 9 {
            decode_error(b.subrange(9, b.len() as int))
        } else {
            Some("truncated int key"@)
        }
    } else if b[0] == TAG_STR || b[0] == TAG_BYTES {
        match unescape_spec(b.drop_first()) {
            Some((d, r)) => if b[0] == TAG_STR && !valid_utf8(d) {
                Some(utf8_error_text(d))
            } else if r.len() < b.len() {
                decode_error(r)
            } else {
                None
            },
            None => Some("unterminated key component"@),
        }
    } else {
        Some("bad key tag 0x"@ + hex_text(b[0] as nat))
    }
}

} // verus!

verus! {

//------------------------------
// Laws of the encoding
//------------------------------

/// The tag byte a component's encoding starts with.
pub open spec fn part_tag(p: KeyPart) -> u8 {
    match p {
        KeyPart::Int(_) => TAG_INT,
        KeyPart::Str(_) => TAG_STR,
        KeyPart::Bytes(_) => TAG_BYTES,
    }
}

/// `escape` distributes over concatenation.
pub proof fn lemma_escape_concat(x: Seq<u8>, y: Seq<u8>)
    ensures
        escape(x + y) == escape(x) + escape(y),
    decreases y.len(),
{
    if y.len() == 0 {
        assert(x + y =~= x);
        assert(escape(x) + escape(y) =~= escape(x));
    } else {
        lemma_escape_concat(x, y.drop_last());
        assert((x + y).drop_last() =~= x + y.drop_last());
        assert((x + y).last() == y.last());
        assert(escape(x + y) =~= escape(x) + escape(y));
    }
}

/// `escape` read from the front.
pub proof fn lemma_escape_front(d: Seq<u8>)
    requires
        d.len() > 0,
    ensures
        escape(d) == escape_byte(d[0]) + escape(d.drop_first()),
{
    lemma_escape_concat(seq![d[0]], d.drop_first());
    assert(seq![d[0]] + d.drop_first() =~= d);
    let one = seq![d[0]];
    assert(one.drop_last() =~= Seq::<u8>::empty());
    assert(one.last() == d[0]);
    assert(escape(Seq::<u8>::empty()) =~= Seq::<u8>::empty());
    assert(escape(one) == escape(one.drop_last()) + escape_byte(one.last()));
    assert(escape(one) =~= escape_byte(d[0]));
}

/// Escaped payloads followed by a terminator compare like the payloads,
/// whatever follows, as long as the terminator is not followed by `0xFF`.
pub proof fn lemma_escape_order(d1: Seq<u8>, d2: Seq<u8>, t1: Seq<u8>, t2: Seq<u8>)
    requires
        lex_lt(d1, d2),
        t1.len() > 0,
        t1[0] == 0,
        t1.len() == 1 || t1[1] < 0xFF,
    ensures
        lex_lt(escape(d1) + t1, escape(d2) + t2),
    decreases d1.len(),
{
    lemma_escape_front(d2);
    let c = d2[0];
    let e2rest = escape(d2.drop_first()) + t2;
    assert(escape(d2) + t2 =~= escape_byte(c) + e2rest);
    if d1.len() == 0 {
        assert(escape(d1) =~= Seq::<u8>::empty());
        assert(escape(d1) + t1 =~= t1);
        assert(t1 =~= seq![0u8] + t1.drop_first());
        if c != 0 {
            assert(escape_byte(c) + e2rest =~= seq![c] + e2rest);
            lemma_lex_first_byte(0, c, t1.drop_first(), e2rest);
        } else {
            assert(escape_byte(c) + e2rest =~= seq![0u8] + (seq![0xFFu8] + e2rest));
            if t1.len() > 1 {
                assert(t1.drop_first() =~= seq![t1[1]] + t1.drop_first().drop_first());
                lemma_lex_first_byte(t1[1], 0xFF, t1.drop_first().drop_first(), e2rest);
            }
            lemma_lex_common_prefix(seq![0u8], t1.drop_first(), seq![0xFFu8] + e2rest);
        }
    } else {
        lemma_escape_front(d1);
        let a = d1[0];
        let e1rest = escape(d1.drop_first()) + t1;
        assert(escape(d1) + t1 =~= escape_byte(a) + e1rest);
        if a != c {
            let ta = escape_byte(a).drop_first();
            let tc = escape_byte(c).drop_first();
            assert(escape_byte(a) + e1rest =~= seq![a] + (ta + e1rest));
            assert(escape_byte(c) + e2rest =~= seq![c] + (tc + e2rest));
            lemma_lex_first_byte(a, c, ta + e1rest, tc + e2rest);
        } else {
            lemma_escape_order(d1.drop_first(), d2.drop_first(), t1, t2);
            lemma_lex_common_prefix(escape_byte(a), e1rest, e2rest);
        }
    }
}

/// 256^8 is 2^64.
pub proof fn lemma_pow256_8()
    ensures
        pow256(8) == 0x1_0000_0000_0000_0000,
{
    reveal_with_fuel(pow256, 9);
}

/// A component's encoding is its tag followed by its body.
proof fn lemma_part_enc_tag(p: KeyPart)
    ensures
        part_enc(p).len() > 0,
        part_enc(p)[0] == part_tag(p),
        part_enc(p) == seq![part_tag(p)] + part_enc(p).drop_first(),
{
    assert(part_enc(p) =~= seq![part_tag(p)] + part_enc(p).drop_first());
}

/// Components in order encode in order, whatever follows each, provided what
/// follows the first does not start with `0xFF`.
proof fn lemma_part_order(x: KeyPart, y: KeyPart, r1: Seq<u8>, r2: Seq<u8>)
    requires
        part_lt(x, y),
        r1.len() == 0 || r1[0] < 0xFF,
    ensures
        lex_lt(part_enc(x) + r1, part_enc(y) + r2),
{
    lemma_part_enc_tag(x);
    lemma_part_enc_tag(y);
    let bx = part_enc(x).drop_first();
    let by = part_enc(y).drop_first();
    assert(part_enc(x) + r1 =~= seq![part_tag(x)] + (bx + r1));
    assert(part_enc(y) + r2 =~= seq![part_tag(y)] + (by + r2));
    if part_tag(x) != part_tag(y) {
        lemma_lex_first_byte(part_tag(x), part_tag(y), bx + r1, by + r2);
    } else {
        match (x, y) {
            (KeyPart::Int(a), KeyPart::Int(b)) => {
                lemma_pow256_8();
                lemma_be_order(flip(a), flip(b), 8);
                lemma_be_len(flip(a), 8);
                lemma_be_len(flip(b), 8);
                assert(bx =~= be_bytes(flip(a), 8));
                assert(by =~= be_bytes(flip(b), 8));
                lemma_lex_extend(bx, by, r1, r2);
            },
            (KeyPart::Str(a), KeyPart::Str(b)) => {
                let t1 = seq![0u8] + r1;
                let t2 = seq![0u8] + r2;
                lemma_escape_order(str_bytes(a), str_bytes(b), t1, t2);
                assert(bx + r1 =~= escape(str_bytes(a)) + t1);
                assert(by + r2 =~= escape(str_bytes(b)) + t2);
            },
            (KeyPart::Bytes(a), KeyPart::Bytes(b)) => {
                let t1 = seq![0u8] + r1;
                let t2 = seq![0u8] + r2;
                lemma_escape_order(a@, b@, t1, t2);
                assert(bx + r1 =~= escape(a@) + t1);
                assert(by + r2 =~= escape(b@) + t2);
            },
            _ => {},
        }
        lemma_lex_common_prefix(seq![part_tag(x)], bx + r1, by + r2);
    }
}

/// Equal components encode identically.
proof fn lemma_part_eq_enc(x: KeyPart, y: KeyPart)
    requires
        part_eq(x, y),
    ensures
        part_enc(x) == part_enc(y),
{
}

/// Any two components are equal or one sorts before the other.
proof fn lemma_part_total(x: KeyPart, y: KeyPart)
    ensures
        part_eq(x, y) || part_lt(x, y) || part_lt(y, x),
{
    match (x, y) {
        (KeyPart::Str(a), KeyPart::Str(b)) => {
            lemma_lex_total(str_bytes(a), str_bytes(b));
            if str_bytes(a) == str_bytes(b) {
                assert(decode_utf8(encode_utf8(a@)) == a@);
                assert(decode_utf8(encode_utf8(b@)) == b@);
            }
        },
        (KeyPart::Bytes(a), KeyPart::Bytes(b)) => {
            lemma_lex_total(a@, b@);
        },
        _ => {},
    }
}

/// No component sorts before a component equal to it.
proof fn lemma_part_eq_not_lt(x: KeyPart, y: KeyPart)
    requires
        part_eq(x, y),
    ensures
        !part_lt(x, y),
        !part_lt(y, x),
{
    match (x, y) {
        (KeyPart::Str(a), KeyPart::Str(b)) => {
            lemma_lex_irreflexive(str_bytes(a));
        },
        (KeyPart::Bytes(a), KeyPart::Bytes(b)) => {
            lemma_lex_irreflexive(a@);
        },
        _ => {},
    }
}

/// A key's encoding read from the front.
pub proof fn lemma_key_enc_front(k: Seq<KeyPart>)
    requires
        k.len() > 0,
    ensures
        key_enc(k) == part_enc(k[0]) + key_enc(k.drop_first()),
    decreases k.len(),
{
    if k.len() == 1 {
        assert(k.drop_last() =~= Seq::<KeyPart>::empty());
        assert(k.drop_first() =~= Seq::<KeyPart>::empty());
        assert(key_enc(k) =~= part_enc(k[0]) + key_enc(k.drop_first()));
    } else {
        lemma_key_enc_front(k.drop_last());
        assert(k.drop_last().drop_first() =~= k.drop_first().drop_last());
        assert(k.drop_first().last() == k.last());
        assert(key_enc(k) =~= part_enc(k[0]) + key_enc(k.drop_first()));
    }
}

/// A nonempty key's encoding starts with a tag byte.
proof fn lemma_key_enc_first(k: Seq<KeyPart>)
    ensures
        key_enc(k).len() == 0 <==> k.len() == 0,
        k.len() > 0 ==> key_enc(k)[0] == part_tag(k[0]) && key_enc(k)[0] < 0xFF,
{
    if k.len() > 0 {
        lemma_key_enc_front(k);
        lemma_part_enc_tag(k[0]);
    }
}

/// Keys in order encode in order.
proof fn lemma_key_order(a: Seq<KeyPart>, b: Seq<KeyPart>)
    requires
        key_lt(a, b),
    ensures
        lex_lt(key_enc(a), key_enc(b)),
    decreases a.len(),
{
    lemma_key_enc_first(a);
    lemma_key_enc_first(b);
    if a.len() > 0 {
        lemma_key_enc_front(a);
        lemma_key_enc_front(b);
        lemma_key_enc_first(a.drop_first());
        if part_lt(a[0], b[0]) {
            lemma_part_order(a[0], b[0], key_enc(a.drop_first()), key_enc(b.drop_first()));
        } else {
            lemma_part_eq_enc(a[0], b[0]);
            lemma_key_order(a.drop_first(), b.drop_first());
            lemma_lex_common_prefix(
                part_enc(a[0]),
                key_enc(a.drop_first()),
                key_enc(b.drop_first()),
            );
        }
    }
}

/// Equal keys encode identically.
proof fn lemma_key_eq_enc(a: Seq<KeyPart>, b: Seq<KeyPart>)
    requires
        key_eq(a, b),
    ensures
        key_enc(a) == key_enc(b),
    decreases a.len(),
{
    if a.len() > 0 {
        lemma_key_enc_front(a);
        lemma_key_enc_front(b);
        assert(part_eq(a[0], b[0]));
        assert forall|i: int| 0 <= i < a.drop_first().len() implies part_eq(
            #[trigger] a.drop_first()[i],
            b.drop_first()[i],
        ) by {
            assert(part_eq(a[i + 1], b[i + 1]));
        }
        lemma_key_eq_enc(a.drop_first(), b.drop_first());
    }
}

/// Any two keys are equal or one sorts before the other.
proof fn lemma_key_total(a: Seq<KeyPart>, b: Seq<KeyPart>)
    ensures
        key_eq(a, b) || key_lt(a, b) || key_lt(b, a),
    decreases a.len(),
{
    if a.len() > 0 && b.len() > 0 {
        lemma_part_total(a[0], b[0]);
        if part_eq(a[0], b[0]) {
            lemma_part_eq_not_lt(a[0], b[0]);
            lemma_key_total(a.drop_first(), b.drop_first());
            if key_eq(a.drop_first(), b.drop_first()) {
                assert forall|i: int| 0 <= i < a.len() implies part_eq(#[trigger] a[i], b[i]) by {
                    if i > 0 {
                        assert(part_eq(a.drop_first()[i - 1], b.drop_first()[i - 1]));
                    }
                }
            }
        }
    }
}

/// Encoding preserves and reflects key order and key equality: one key's
/// bytes sort before another's exactly when the key sorts before it, and two
/// keys have the same bytes exactly when they are the same key.
pub proof fn law_encode_preserves_order(a: Seq<KeyPart>, b: Seq<KeyPart>)
    ensures
        lex_lt(key_enc(a), key_enc(b)) <==> key_lt(a, b),
        key_enc(a) == key_enc(b) <==> key_eq(a, b),
{
    lemma_key_total(a, b);
    if key_lt(a, b) {
        lemma_key_order(a, b);
    }
    if key_lt(b, a) {
        lemma_key_order(b, a);
    }
    if key_eq(a, b) {
        lemma_key_eq_enc(a, b);
    }
    lemma_lex_irreflexive(key_enc(a));
    if lex_lt(key_enc(a), key_enc(b)) {
        lemma_lex_asymmetric(key_enc(a), key_enc(b));
    }
}

} // verus!

verus! {

//------------------------------
// Decoding, implemented
//------------------------------

/// `p` put in front of the payload of an unescaped run.
pub open spec fn prepend_payload(
    p: Seq<u8>,
    o: Option<(Seq<u8>, Seq<u8>)>,
) -> Option<(Seq<u8>, Seq<u8>)> {
    match o {
        Some((d, r)) => Some((p + d, r)),
        None => None,
    }
}

/// Text of the error `String::from_utf8` reports for invalid bytes.
pub uninterp spec fn utf8_error_text(bytes: Seq<u8>) -> Seq<char>;

/// The digit of a nibble in lower-case hexadecimal.
pub open spec fn hex_digit(d: nat) -> char {
    if d < 10 {
        (('0' as nat) + d) as char
    } else {
        (('a' as nat) + d - 10) as char
    }
}

/// A number in lower-case hexadecimal, without leading zeros.
pub open spec fn hex_text(n: nat) -> Seq<char>
    decreases n,
{
    if n < 16 {
        seq![hex_digit(n)]
    } else {
        hex_text(n / 16).push(hex_digit(n % 16))
    }
}

/// `String::from_utf8`: the bytes as a `String` when they are valid UTF-8,
/// else the text of the error.
#[verifier::external_body]
pub(crate) fn string_from_utf8(data: Vec<u8>) -> (r: Result<String, String>)
    ensures
        r is Ok <==> valid_utf8(data@),
        r matches Ok(s) ==> encode_utf8(s@) == data@,
        r matches Err(m) ==> m@ == utf8_error_text(data@),
{
    match String::from_utf8(data) {
        Ok(s) => Ok(s),
        Err(e) => Err(e.to_string()),
    }
}

/// The lower-case hexadecimal digit of a nibble, as text.
fn hex_digit_text(d: u8) -> (t: &'static str)
    requires
        d < 16,
    ensures
        t@ == seq![hex_digit(d as nat)],
{
    let t: &str = match d {
        0 => "0",
        1 => "1",
        2 => "2",
        3 => "3",
        4 => "4",
        5 => "5",
        6 => "6",
        7 => "7",
        8 => "8",
        9 => "9",
        10 => "a",
        11 => "b",
        12 => "c",
        13 => "d",
        14 => "e",
        _ => "f",
    };
    proof {
        reveal_strlit("0");
        reveal_strlit("1");
        reveal_strlit("2");
        reveal_strlit("3");
        reveal_strlit("4");
        reveal_strlit("5");
        reveal_strlit("6");
        reveal_strlit("7");
        reveal_strlit("8");
        reveal_strlit("9");
        reveal_strlit("a");
        reveal_strlit("b");
        reveal_strlit("c");
        reveal_strlit("d");
        reveal_strlit("e");
        reveal_strlit("f");
    }
    assert(t@ =~= seq![hex_digit(d as nat)]);
    t
}

/// The message for an unknown tag byte: `bad key tag ` and the byte in
/// lower-case hexadecimal after `0x`.
fn bad_tag_message(t: u8) -> (m: String)
    ensures
        m@ == "bad key tag 0x"@ + hex_text(t as nat),
{
    let m = String::from_str("bad key tag 0x");
    if t < 16 {
        let r = m.concat(hex_digit_text(t));
        assert(r@ =~= "bad key tag 0x"@ + hex_text(t as nat));
        r
    } else {
        let hi = t / 16;
        let lo = t % 16;
        assert(hex_text(hi as nat) == seq![hex_digit(hi as nat)]);
        let r = m.concat(hex_digit_text(hi)).concat(hex_digit_text(lo));
        assert(r@ =~= "bad key tag 0x"@ + hex_text(t as nat));
        r
    }
}

/// 256^a <= 256^b for a <= b.
proof fn lemma_pow256_mono(a: nat, b: nat)
    requires
        a <= b,
    ensures
        pow256(a) <= pow256(b),
    decreases b,
{
    if a < b {
        lemma_pow256_mono(a, (b - 1) as nat);
    }
}

/// Reads eight big-endian bytes at `start`.
fn be_u64_at(bytes: &[u8], start: usize) -> (v: u64)
    requires
        start + 8 <= bytes@.len(),
    ensures
        be_bytes(v as nat, 8) == bytes@.subrange(start as int, start + 8),
{
    let mut v: u64 = 0;
    let mut k: usize = 0;
    while k < 8
        invariant
            k <= 8,
            start + 8 <= bytes.len(),
            (v as nat) < pow256(k as nat),
            be_bytes(v as nat, k as nat) == bytes@.subrange(start as int, start + k),
        decreases 8 - k,
    {
        let b = bytes[start + k];
        let ghost p = pow256(k as nat);
        proof {
            lemma_pow256_8();
            lemma_pow256_mono((k + 1) as nat, 8);
            assert(pow256((k + 1) as nat) == 256 * p);
            assert((v as nat) * 256 + (b as nat) < 256 * p) by (nonlinear_arith)
                requires
                    (v as nat) < p,
                    (b as nat) < 256,
            ;
        }
        let nv: u64 = v * 256 + b as u64;
        proof {
            assert((nv as nat) / 256 == v as nat && (nv as nat) % 256 == b as nat) by (nonlinear_arith)
                requires
                    nv as nat == (v as nat) * 256 + (b as nat),
                    (b as nat) < 256,
            ;
            assert(be_bytes(nv as nat, (k + 1) as nat) == be_bytes(v as nat, k as nat).push(b));
            assert(bytes@.subrange(start as int, start + k + 1) =~= bytes@.subrange(
                start as int,
                start + k,
            ).push(b));
        }
        v = nv;
        k = k + 1;
    }
    v
}

/// The `i64` that `flip` maps to `u`.
fn unflip(u: u64) -> (i: i64)
    ensures
        flip(i) == u as nat,
{
    if u >= 0x8000_0000_0000_0000 {
        (u - 0x8000_0000_0000_0000) as i64
    } else {
        (u as i64) - 0x7fff_ffff_ffff_ffff - 1
    }
}

/// Reads an escaped, `0x00`-terminated run starting at `start`.
///
/// Returns the payload and the index just past the terminator.
fn unescape_from(bytes: &[u8], start: usize) -> (res: Result<(Vec<u8>, usize), String>)
    requires
        start <= bytes@.len(),
    ensures
        match res {
            Ok((data, next)) => {
                &&& start < next <= bytes@.len()
                &&& unescape_spec(bytes@.skip(start as int)) == Some(
                    (data@, bytes@.skip(next as int)),
                )
            },
            Err(m) => {
                &&& unescape_spec(bytes@.skip(start as int)) is None
                &&& m@ == "unterminated key component"@
            },
        },
{
    let mut data: Vec<u8> = Vec::new();
    let mut i: usize = start;
    while i < bytes.len()
        invariant
            start <= i <= bytes@.len(),
            unescape_spec(bytes@.skip(start as int)) == prepend_payload(
                data@,
                unescape_spec(bytes@.skip(i as int)),
            ),
        decreases bytes.len() - i,
    {
        let ghost b = bytes@.skip(i as int);
        let ghost before = data@;
        let c = bytes[i];
        if c == 0x00 && i + 1 < bytes.len() && bytes[i + 1] == 0xFF {
            proof {
                assert(b.subrange(2, b.len() as int) =~= bytes@.skip(i + 2));
                let inner = unescape_spec(bytes@.skip(i + 2));
                if inner is Some {
                    let (d, r) = inner->0;
                    assert(before + (seq![0u8] + d) =~= before.push(0u8) + d);
                }
            }
            data.push(0x00);
            i = i + 2;
        } else if c == 0x00 {
            proof {
                assert(b.drop_first() =~= bytes@.skip(i + 1));
                assert(data@ + Seq::<u8>::empty() =~= data@);
            }
            return Ok((data, i + 1));
        } else {
            proof {
                assert(b.drop_first() =~= bytes@.skip(i + 1));
                let inner = unescape_spec(bytes@.skip(i + 1));
                if inner is Some {
                    let (d, r) = inner->0;
                    assert(before + (seq![c] + d) =~= before.push(c) + d);
                }
            }
            data.push(c);
            i = i + 1;
        }
    }
    proof {
        assert(bytes@.skip(i as int) =~= Seq::<u8>::empty());
    }
    Err(String::from_str("unterminated key component"))
}

/// Decodes key bytes back to components — the exact inverse of [`encode`].
///
/// `Ok` exactly on well-formed encodings; the components then encode back to
/// the very bytes given.
#[verifier::rlimit(60)]
pub fn decode(bytes: &[u8]) -> (res: Result<Vec<KeyPart>, String>)
    ensures
        res is Ok <==> parses(bytes@),
        res matches Ok(parts) ==> key_enc(parts@) == bytes@,
        res matches Err(m) ==> decode_error(bytes@) == Some(m@),
{
    let mut parts: Vec<KeyPart> = Vec::new();
    let mut i: usize = 0;
    assert(bytes@.skip(0) =~= bytes@);
    assert(bytes@.take(0) =~= Seq::<u8>::empty());
    while i < bytes.len()
        invariant
            i <= bytes@.len(),
            key_enc(parts@) == bytes@.take(i as int),
            parses(bytes@) == parses(bytes@.skip(i as int)),
            decode_error(bytes@) == decode_error(bytes@.skip(i as int)),
        decreases bytes.len() - i,
    {
        let ghost at = i;
        let ghost b = bytes@.skip(i as int);
        let ghost before = parts@;
        let tag = bytes[i];
        i = i + 1;
        if tag == TAG_INT {
            if bytes.len() - i < 8 {
                return Err(String::from_str("truncated int key"));
            }
            let v = be_u64_at(bytes, i);
            let n = unflip(v);
            parts.push(KeyPart::Int(n));
            i = i + 8;
            proof {
                assert(b.subrange(9, b.len() as int) =~= bytes@.skip(i as int));
                assert(parts@.drop_last() =~= before);
                assert(bytes@.take(i as int) =~= bytes@.take(at as int) + seq![TAG_INT]
                    + bytes@.subrange(at + 1, at + 9));
                assert(key_enc(parts@) =~= bytes@.take(i as int));
            }
        } else if tag == TAG_STR || tag == TAG_BYTES {
            proof {
                assert(b.drop_first() =~= bytes@.skip(i as int));
            }
            match unescape_from(bytes, i) {
                Err(e) => {
                    return Err(e);
                },
                Ok((data, next)) => {
                    let ghost d = data@;
                    if tag == TAG_STR {
                        match string_from_utf8(data) {
                            Ok(s) => {
                                parts.push(KeyPart::Str(s));
                            },
                            Err(e) => {
                                return Err(e);
                            },
                        }
                    } else {
                        parts.push(KeyPart::Bytes(data));
                    }
                    proof {
                        let r = bytes@.skip(next as int);
                        assert(parts@.drop_last() =~= before);
                        assert(part_enc(parts@.last()) == seq![tag] + escape(d) + seq![0u8]);
                        lemma_unescape_spec_shape(b.drop_first());
                        assert(b.drop_first() =~= escape(d) + seq![0u8] + r);
                        assert(bytes@ =~= bytes@.take(at as int) + b);
                        assert(bytes@.take(next as int) =~= bytes@.take(at as int) + seq![tag]
                            + escape(d) + seq![0u8]) by {
                            assert(b =~= seq![tag] + b.drop_first());
                            assert(bytes@ =~= bytes@.take(next as int) + r);
                        }
                        assert(key_enc(parts@) =~= bytes@.take(next as int));
                    }
                    i = next;
                },
            }
        } else {
            return Err(bad_tag_message(tag));
        }
    }
    proof {
        assert(bytes@.take(i as int) =~= bytes@);
    }
    Ok(parts)
}

/// A successful unescape splits its input into the escaped payload, the
/// terminator and the rest.
proof fn lemma_unescape_spec_shape(b: Seq<u8>)
    requires
        unescape_spec(b) is Some,
    ensures
        ({
            let (d, r) = unescape_spec(b)->0;
            b == escape(d) + seq![0u8] + r
        }),
    decreases b.len(),
{
    let (d, r) = unescape_spec(b)->0;
    if b[0] == 0 && b.len() > 1 && b[1] == 0xFF {
        let tail = b.subrange(2, b.len() as int);
        lemma_unescape_spec_shape(tail);
        let (d2, r2) = unescape_spec(tail)->0;
        lemma_escape_front(d);
        assert(d.drop_first() =~= d2);
        assert(r == r2);
        assert(b =~= seq![b[0], b[1]] + tail);
        assert(b =~= escape(d) + seq![0u8] + r);
    } else if b[0] == 0 {
        assert(escape(d) =~= Seq::<u8>::empty());
        assert(b =~= escape(d) + seq![0u8] + r);
    } else {
        let tail = b.drop_first();
        lemma_unescape_spec_shape(tail);
        let (d2, r2) = unescape_spec(tail)->0;
        lemma_escape_front(d);
        assert(d.drop_first() =~= d2);
        assert(r == r2);
        assert(b =~= seq![b[0]] + tail);
        assert(b =~= escape(d) + seq![0u8] + r);
    }
}

} // verus!

verus! {

/// Unescaping an escaped payload and its terminator gives the payload back,
/// when what follows does not start with `0xFF`.
proof fn lemma_unescape_escape(d: Seq<u8>, r: Seq<u8>)
    requires
        r.len() == 0 || r[0] != 0xFF,
    ensures
        unescape_spec(escape(d) + seq![0u8] + r) == Some((d, r)),
    decreases d.len(),
{
    let b = escape(d) + seq![0u8] + r;
    if d.len() == 0 {
        assert(escape(d) =~= Seq::<u8>::empty());
        assert(b =~= seq![0u8] + r);
        assert(b.drop_first() =~= r);
    } else {
        lemma_escape_front(d);
        lemma_unescape_escape(d.drop_first(), r);
        let tail = escape(d.drop_first()) + seq![0u8] + r;
        if d[0] == 0 {
            assert(b =~= seq![0u8, 0xFFu8] + tail);
            assert(b.subrange(2, b.len() as int) =~= tail);
        } else {
            assert(b =~= seq![d[0]] + tail);
            assert(b.drop_first() =~= tail);
        }
        assert(seq![d[0]] + d.drop_first() =~= d);
    }
}

/// Every key's encoding is well formed.
proof fn lemma_parses_key_enc(k: Seq<KeyPart>)
    ensures
        parses(key_enc(k)),
    decreases k.len(),
{
    lemma_key_enc_first(k);
    if k.len() > 0 {
        lemma_key_enc_front(k);
        lemma_key_enc_first(k.drop_first());
        lemma_parses_key_enc(k.drop_first());
        let b = key_enc(k);
        let rest = key_enc(k.drop_first());
        match k[0] {
            KeyPart::Int(n) => {
                lemma_be_len(flip(n), 8);
                assert(b.subrange(9, b.len() as int) =~= rest);
            },
            KeyPart::Str(s) => {
                lemma_unescape_escape(str_bytes(s), rest);
                assert(b.drop_first() =~= escape(str_bytes(s)) + seq![0u8] + rest);
            },
            KeyPart::Bytes(v) => {
                lemma_unescape_escape(v@, rest);
                assert(b.drop_first() =~= escape(v@) + seq![0u8] + rest);
            },
        }
    }
}

/// Decoding inverts encoding: every key's encoding decodes, and whatever
/// decodes to the same bytes is that same key.
pub proof fn law_decode_inverts_encode(k: Seq<KeyPart>, v: Seq<KeyPart>)
    ensures
        parses(key_enc(k)),
        key_enc(v) == key_enc(k) ==> key_eq(v, k),
{
    lemma_parses_key_enc(k);
    law_encode_preserves_order(v, k);
}

//------------------------------
// Prefix ranges
//------------------------------

/// The smallest byte string above every extension of `p`: drop trailing
/// `0xFF` bytes and increment the last remaining one; `None` when `p` is all
/// `0xFF`.
pub open spec fn successor_spec(p: Seq<u8>) -> Option<Seq<u8>>
    decreases p.len(),
{
    if p.len() == 0 {
        None
    } else if p.last() < 0xFF {
        Some(p.drop_last().push((p.last() + 1) as u8))
    } else {
        successor_spec(p.drop_last())
    }
}

/// Smallest byte string greater than every string prefixed by `prefix`.
///
/// `None` when `prefix` is all `0xFF` — there is no such bound, and the range
/// is then open-ended above.
pub fn successor(prefix: &[u8]) -> (res: Option<Vec<u8>>)
    ensures
        res is None <==> (forall|i: int| 0 <= i < prefix@.len() ==> prefix@[i] == 0xFF),
        res is None <==> successor_spec(prefix@) is None,
        res matches Some(s) ==> successor_spec(prefix@) == Some(s@),
{
    let mut out: Vec<u8> = vstd::slice::slice_to_vec(prefix);
    while out.len() > 0
        invariant
            successor_spec(prefix@) == successor_spec(out@),
            out@.len() <= prefix@.len(),
            forall|i: int| out@.len() <= i < prefix@.len() ==> prefix@[i] == 0xFF,
            out@ == prefix@.take(out@.len() as int),
        decreases out.len(),
    {
        let ghost before = out@;
        let last = out.pop().unwrap();
        if last < 0xFF {
            out.push(last + 1);
            assert(before.drop_last() =~= out@.drop_last());
            proof {
                lemma_successor_none_all_ff(prefix@);
            }
            return Some(out);
        }
        assert(before.drop_last() =~= out@);
    }
    proof {
        lemma_successor_none_all_ff(prefix@);
        assert(successor_spec(out@) is None);
    }
    None
}

/// `successor_spec` is `None` exactly on all-`0xFF` strings.
proof fn lemma_successor_none_all_ff(p: Seq<u8>)
    ensures
        successor_spec(p) is None <==> (forall|i: int| 0 <= i < p.len() ==> p[i] == 0xFF),
    decreases p.len(),
{
    if p.len() > 0 {
        lemma_successor_none_all_ff(p.drop_last());
        if p.last() == 0xFF {
            assert forall|i: int|
                0 <= i < p.drop_last().len() && (forall|j: int|
                    0 <= j < p.drop_last().len() ==> p.drop_last()[j] == 0xFF) implies p[i]
                == 0xFF by {
                assert(p.drop_last()[i] == 0xFF);
            }
            if forall|j: int| 0 <= j < p.drop_last().len() ==> p.drop_last()[j] == 0xFF {
                assert forall|i: int| 0 <= i < p.len() implies p[i] == 0xFF by {
                    if i < p.len() - 1 {
                        assert(p.drop_last()[i] == 0xFF);
                    }
                }
            }
        }
    }
}

} // verus!

verus! {

/// Every extension of `p` lies in the half-open range `[p, successor(p))`,
/// unbounded above when `p` has no successor.
pub proof fn law_successor_bounds_extensions(p: Seq<u8>, rest: Seq<u8>)
    ensures
        lex_le(p, p + rest),
        successor_spec(p) matches Some(s) ==> lex_lt(p + rest, s),
    decreases p.len(),
{
    if rest.len() == 0 {
        assert(p + rest =~= p);
    } else {
        lemma_lex_proper_prefix(p, rest);
    }
    if p.len() > 0 {
        let q = p.drop_last();
        let last = p.last();
        assert(p + rest =~= q + (seq![last] + rest));
        if last < 0xFF {
            let s = q.push((last + 1) as u8);
            assert(s =~= q + (seq![(last + 1) as u8] + Seq::<u8>::empty()));
            lemma_lex_first_byte(last, (last + 1) as u8, rest, Seq::<u8>::empty());
            lemma_lex_common_prefix(q, seq![last] + rest, seq![(last + 1) as u8] + Seq::<u8>::empty());
        } else {
            law_successor_bounds_extensions(q, seq![last] + rest);
        }
    }
}

/// The successor of a string with one more leading byte, in terms of the
/// successor of the rest.
proof fn lemma_successor_cons(b: u8, p: Seq<u8>)
    ensures
        successor_spec(seq![b] + p) == (match successor_spec(p) {
            Some(s) => Some(seq![b] + s),
            None => if b < 0xFF {
                Some(seq![(b + 1) as u8])
            } else {
                None
            },
        }),
    decreases p.len(),
{
    let bp = seq![b] + p;
    if p.len() == 0 {
        assert(bp =~= seq![b]);
        assert(bp.last() == b);
        assert(bp.drop_last() =~= Seq::<u8>::empty());
        if b < 0xFF {
            assert(bp.drop_last().push((b + 1) as u8) =~= seq![(b + 1) as u8]);
        } else {
            assert(successor_spec(bp) == successor_spec(bp.drop_last()));
        }
    } else {
        let q = p.drop_last();
        lemma_successor_cons(b, q);
        assert(bp.drop_last() =~= seq![b] + q);
        assert(bp.last() == p.last());
        if p.last() < 0xFF {
            assert(bp.drop_last().push((p.last() + 1) as u8) =~= seq![b] + q.push(
                (p.last() + 1) as u8,
            ));
        } else {
            assert(successor_spec(bp) == successor_spec(seq![b] + q));
            assert(successor_spec(p) == successor_spec(q));
        }
    }
}

/// Conversely, every string in `[p, successor(p))` (unbounded above when
/// `p` has no successor) extends `p`: the range holds exactly the
/// extensions of `p`.
pub proof fn law_successor_range_is_extensions(p: Seq<u8>, x: Seq<u8>)
    requires
        lex_le(p, x),
        successor_spec(p) matches Some(s) ==> lex_lt(x, s),
    ensures
        p.is_prefix_of(x),
    decreases p.len(),
{
    if p.len() == 0 {
        assert(p =~= x.subrange(0, 0));
    } else if x.len() == 0 {
        assert(x =~= Seq::<u8>::empty());
    } else {
        let b = p[0];
        let c = x[0];
        let p1 = p.drop_first();
        let x1 = x.drop_first();
        assert(p =~= seq![b] + p1);
        assert(x =~= seq![c] + x1);
        lemma_successor_cons(b, p1);
        if c != b {
            assert(b < c);
            match successor_spec(p1) {
                Some(s1) => {
                    let s = seq![b] + s1;
                    lemma_lex_first_byte(b, c, s1, x1);
                    lemma_lex_asymmetric(s, x);
                },
                None => {
                    if b < 0xFF {
                        let s = seq![(b + 1) as u8];
                        if c == b + 1 {
                            if x1.len() == 0 {
                                assert(x =~= s);
                                lemma_lex_irreflexive(s);
                            } else {
                                assert(x =~= s + x1);
                                lemma_lex_proper_prefix(s, x1);
                                lemma_lex_asymmetric(s, x);
                            }
                        } else {
                            assert(s =~= seq![(b + 1) as u8] + Seq::<u8>::empty());
                            lemma_lex_first_byte((b + 1) as u8, c, Seq::<u8>::empty(), x1);
                            lemma_lex_asymmetric(s, x);
                        }
                    }
                },
            }
        } else {
            if p != x {
                assert(lex_lt(p1, x1));
            } else {
                assert(p1 =~= x1);
            }
            match successor_spec(p1) {
                Some(s1) => {
                    assert((seq![b] + s1).drop_first() =~= s1);
                },
                None => {},
            }
            law_successor_range_is_extensions(p1, x1);
            assert(p =~= x.subrange(0, p.len() as int));
        }
    }
}

/// The payload bytes of a component: its UTF-8 bytes, its raw bytes, or the
/// eight big-endian bytes of an int.
pub open spec fn payload(p: KeyPart) -> Seq<u8> {
    match p {
        KeyPart::Int(i) => be_bytes(flip(i), 8),
        KeyPart::Str(s) => str_bytes(s),
        KeyPart::Bytes(b) => b@,
    }
}

/// The raw lower bound of a prefix scan over one component: tag and escaped
/// payload with no terminator; `None` for an int, which has no prefix form.
pub open spec fn part_prefix(p: KeyPart) -> Option<Seq<u8>> {
    match p {
        KeyPart::Int(_) => None,
        _ => Some(seq![part_tag(p)] + escape(payload(p))),
    }
}

/// Encodes a string or byte-string `prefix()` argument to the raw lower bound
/// of its range: tag plus escaped payload with **no terminator**, so it
/// matches every key of that type extending it. An int has no prefix form.
pub fn prefix_bytes(part: &KeyPart) -> (res: Option<Vec<u8>>)
    ensures
        res matches Some(v) ==> part_prefix(*part) == Some(v@),
        res is None <==> part_prefix(*part) is None,
{
    let mut out: Vec<u8> = Vec::new();
    match part {
        KeyPart::Str(s) => {
            out.push(TAG_STR);
            escape_no_term(s.as_str().as_bytes(), &mut out);
        },
        KeyPart::Bytes(b) => {
            out.push(TAG_BYTES);
            escape_no_term(b.as_slice(), &mut out);
        },
        KeyPart::Int(_) => {
            return None;
        },
    }
    Some(out)
}

/// A string or byte-string prefix bound starts the encoding of every key whose
/// first component, of the same type, extends the prefix's payload.
pub proof fn law_prefix_matches_extensions(p: KeyPart, x: KeyPart, t: Seq<u8>, rest: Seq<KeyPart>)
    requires
        part_prefix(p) is Some,
        part_tag(x) == part_tag(p),
        payload(x) == payload(p) + t,
    ensures
        key_enc(seq![x] + rest) == part_prefix(p)->0 + (escape(t) + seq![0u8] + key_enc(rest)),
{
    let k = seq![x] + rest;
    lemma_key_enc_front(k);
    assert(k.drop_first() =~= rest);
    lemma_escape_concat(payload(p), t);
    assert(key_enc(k) =~= part_prefix(p)->0 + (escape(t) + seq![0u8] + key_enc(rest)));
}

} // verus!

//! IEEE-754 binary64 numbers held as their bit patterns.
//!
//! The engine keeps a float as its 64-bit pattern: sign (bit 63), biased
//! exponent (bits 52..62) and fraction (bits 0..51). What the key encoders
//! need of a float — whether it is finite, whether it is a whole number and
//! which, and where it sorts — is integer arithmetic on that pattern.
use vstd::prelude::*;

verus! {

/// 2 to the power `e`.
pub open spec fn two_pow(e: nat) -> nat
    decreases e,
{
    if e == 0 {
        1
    } else {
        2 * two_pow((e - 1) as nat)
    }
}

/// The biased exponent field.
pub open spec fn exponent_field(bits: u64) -> nat {
    ((bits as nat) / 0x10_0000_0000_0000) % 2048
}

/// The fraction field.
pub open spec fn fraction_field(bits: u64) -> nat {
    (bits as nat) % 0x10_0000_0000_0000
}

/// The sign bit.
pub open spec fn is_negative(bits: u64) -> bool {
    (bits as nat) >= 0x8000_0000_0000_0000
}

/// Neither an infinity nor a NaN.
pub open spec fn is_finite(bits: u64) -> bool {
    exponent_field(bits) != 2047
}

/// The value of a finite float that is a whole number (either zero counts);
/// `None` for a non-finite or fractional one.
pub open spec fn whole_value(bits: u64) -> Option<int> {
    let e = exponent_field(bits);
    let f = fraction_field(bits);
    let sign: int = if is_negative(bits) {
        -1
    } else {
        1
    };
    let m = 0x10_0000_0000_0000 + f;
    if e == 2047 {
        None
    } else if e == 0 {
        if f == 0 {
            Some(0)
        } else {
            None
        }
    } else if e >= 1075 {
        Some(sign * (m * two_pow((e - 1075) as nat)))
    } else if m % two_pow((1075 - e) as nat) == 0 {
        Some(sign * (m / two_pow((1075 - e) as nat)) as int)
    } else {
        None
    }
}

/// An integer clamped to the `i64` range (how Rust casts a float to `i64`).
pub open spec fn saturate_i64(v: int) -> i64 {
    if v > i64::MAX {
        i64::MAX
    } else if v < i64::MIN {
        i64::MIN
    } else {
        v as i64
    }
}

/// `two_pow` grows with its exponent.
pub proof fn lemma_two_pow_mono(a: nat, b: nat)
    requires
        a <= b,
    ensures
        two_pow(a) <= two_pow(b),
    decreases b,
{
    if a < b {
        lemma_two_pow_mono(a, (b - 1) as nat);
    }
}

/// Some powers of two.
pub proof fn lemma_two_pow_values()
    ensures
        two_pow(11) == 2048,
        two_pow(52) == 0x10_0000_0000_0000,
        two_pow(53) == 0x20_0000_0000_0000,
        two_pow(63) == 0x8000_0000_0000_0000,
{
    reveal_with_fuel(two_pow, 64);
}

/// `2^s` for `s <= 63`.
fn two_pow_exec(s: u64) -> (p: u64)
    requires
        s <= 63,
    ensures
        p as nat == two_pow(s as nat),
        p >= 1,
{
    proof {
        lemma_two_pow_mono(0, s as nat);
    }
    let mut p: u64 = 1;
    let mut k: u64 = 0;
    while k < s
        invariant
            k <= s <= 63,
            p as nat == two_pow(k as nat),
        decreases s - k,
    {
        proof {
            lemma_two_pow_mono((k + 1) as nat, 63);
            lemma_two_pow_values();
        }
        p = p * 2;
        k = k + 1;
    }
    p
}

/// `q` with the given sign.
fn signed_small(neg: bool, q: u64) -> (r: i64)
    requires
        q < 0x20_0000_0000_0000,
    ensures
        r == saturate_i64(if neg { -1 * (q as int) } else { 1 * (q as int) }),
{
    let qs: i64 = q as i64;
    if neg {
        0 - qs
    } else {
        qs
    }
}

/// The `i64` a float converts to when it is a finite whole number (clamped to
/// the `i64` range, as Rust's cast does); `None` for an infinity, a NaN or a
/// number with a fractional part.
#[verifier::rlimit(40)]
pub fn whole_to_i64(bits: u64) -> (r: Option<i64>)
    ensures
        match whole_value(bits) {
            Some(v) => r == Some(saturate_i64(v)),
            None => r is None,
        },
{
    let e: u64 = (bits / 0x10_0000_0000_0000) % 2048;
    let f: u64 = bits % 0x10_0000_0000_0000;
    let neg: bool = bits >= 0x8000_0000_0000_0000;
    proof {
        lemma_two_pow_values();
    }
    if e == 2047 {
        return None;
    }
    if e == 0 {
        if f == 0 {
            return Some(0);
        }
        return None;
    }
    let m: u64 = 0x10_0000_0000_0000 + f;
    if e >= 1075 {
        let s: u64 = e - 1075;
        if s >= 11 {
            proof {
                lemma_two_pow_mono(11, s as nat);
                assert((m as nat) * two_pow(s as nat) >= 0x10_0000_0000_0000 * 2048) by (
                nonlinear_arith)
                    requires
                        m >= 0x10_0000_0000_0000,
                        two_pow(s as nat) >= 2048,
                ;
            }
            let ghost v = (m as nat) * two_pow(s as nat);
            assert(exponent_field(bits) == e as nat);
            assert(fraction_field(bits) == f as nat);
            if neg {
                assert(whole_value(bits) == Some(-1 * (v as int)));
                assert(-1 * (v as int) <= i64::MIN);
                assert(saturate_i64(-1 * (v as int)) == i64::MIN);
                return Some(i64::MIN);
            } else {
                assert(whole_value(bits) == Some(1 * (v as int)));
                return Some(i64::MAX);
            }
        }
        let p = two_pow_exec(s);
        proof {
            lemma_two_pow_mono(s as nat, 10);
            reveal_with_fuel(two_pow, 11);
            assert((m as nat) * (p as nat) < 0x20_0000_0000_0000 * 1024) by (nonlinear_arith)
                requires
                    m < 0x20_0000_0000_0000,
                    p <= 1024,
            ;
        }
        let v: u64 = m * p;
        assert(exponent_field(bits) == e as nat);
        assert(fraction_field(bits) == f as nat);
        if neg {
            assert(whole_value(bits) == Some(-1 * (v as int)));
            assert(saturate_i64(-1 * (v as int)) == -(v as i64));
            return Some(-(v as i64));
        } else {
            return Some(v as i64);
        }
    }
    let s: u64 = 1075 - e;
    if s >= 53 {
        proof {
            lemma_two_pow_mono(53, s as nat);
            assert((m as nat) % two_pow(s as nat) == m as nat) by (nonlinear_arith)
                requires
                    (m as nat) < two_pow(s as nat),
            ;
        }
        return None;
    }
    let d = two_pow_exec(s);
    if m % d != 0 {
        return None;
    }
    let q: u64 = m / d;
    proof {
        assert(exponent_field(bits) == e as nat);
        assert(fraction_field(bits) == f as nat);
        assert((q as nat) <= (m as nat)) by (nonlinear_arith)
            requires
                q as nat == (m as nat) / (d as nat),
                d >= 1,
        ;
    }
    assert((q as nat) < 0x20_0000_0000_0000);
    let r = signed_small(neg, q);
    proof {
        if neg {
            assert(whole_value(bits) == Some(-1 * (q as int)));
        } else {
            assert(whole_value(bits) == Some(1 * (q as int)));
        }
    }
    Some(r)
}

/// The order-preserving big-endian key of a float's total order: flip the
/// sign bit of a non-negative number, all bits of a negative one; `-0.0`
/// counts as `0.0`.
pub open spec fn order_key_bits(bits: u64) -> u64 {
    let b: u64 = if bits == 0x8000_0000_0000_0000 {
        0
    } else {
        bits
    };
    if (b as nat) >= 0x8000_0000_0000_0000 {
        (0xFFFF_FFFF_FFFF_FFFF - b) as u64
    } else {
        (b + 0x8000_0000_0000_0000) as u64
    }
}

/// The number whose big-endian bytes order a float's value: see
/// [`order_key_bits`].
pub fn order_bits(bits: u64) -> (r: u64)
    ensures
        r == order_key_bits(bits),
{
    let b: u64 = if bits == 0x8000_0000_0000_0000 {
        0
    } else {
        bits
    };
    if b >= 0x8000_0000_0000_0000 {
        0xFFFF_FFFF_FFFF_FFFF - b
    } else {
        b + 0x8000_0000_0000_0000
    }
}

} // verus!

verus! {

/// The `usize` a non-negative whole float converts to (clamped to the
/// `usize` range, as Rust's cast does); `None` for a negative, fractional or
/// non-finite one. (Negative zero counts as zero.)
pub fn whole_to_usize(bits: u64) -> (r: Option<usize>)
    ensures
        match whole_value(bits) {
            Some(v) => if v >= 0 {
                r == Some(
                    if v > usize::MAX {
                        usize::MAX
                    } else {
                        v as usize
                    },
                )
            } else {
                r is None
            },
            None => r is None,
        },
{
    let e: u64 = (bits / 0x10_0000_0000_0000) % 2048;
    let f: u64 = bits % 0x10_0000_0000_0000;
    let neg: bool = bits >= 0x8000_0000_0000_0000;
    proof {
        lemma_two_pow_values();
        assert(exponent_field(bits) == e as nat);
        assert(fraction_field(bits) == f as nat);
    }
    if e == 2047 {
        return None;
    }
    if e == 0 {
        if f == 0 {
            return Some(0);
        }
        return None;
    }
    let m: u64 = 0x10_0000_0000_0000 + f;
    let mut v: u64 = 0;
    if e >= 1075 {
        let s: u64 = e - 1075;
        if s > 11 {
            proof {
                lemma_two_pow_mono(12, s as nat);
                reveal_with_fuel(two_pow, 13);
                assert((m as nat) * two_pow(s as nat) >= 0x10_0000_0000_0000 * 4096) by (
                nonlinear_arith)
                    requires
                        m >= 0x10_0000_0000_0000,
                        two_pow(s as nat) >= 4096,
                ;
            }
            if neg {
                proof {
                    let x = ((m as nat) * two_pow(s as nat)) as int;
                    assert(x > 0);
                    assert(whole_value(bits) == Some(-1 * x));
                    assert(-1 * x < 0);
                }
                return None;
            }
            proof {
                assert(whole_value(bits) == Some(1 * ((m as nat) * two_pow(s as nat)) as int));
            }
            return Some(usize::MAX);
        }
        let p = two_pow_exec(s);
        proof {
            lemma_two_pow_mono(s as nat, 11);
            reveal_with_fuel(two_pow, 12);
            assert((m as nat) * (p as nat) < 0x20_0000_0000_0000 * 2048) by (nonlinear_arith)
                requires
                    m < 0x20_0000_0000_0000,
                    p <= 2048,
            ;
        }
        v = m * p;
        proof {
            assert(whole_value(bits) == Some((if neg { -1int } else { 1int }) * (v as int)));
            assert(v > 0) by (nonlinear_arith)
                requires
                    v == m * p,
                    m >= 1,
                    p >= 1,
            ;
        }
    } else {
        let s: u64 = 1075 - e;
        if s >= 53 {
            proof {
                lemma_two_pow_mono(53, s as nat);
                assert((m as nat) % two_pow(s as nat) == m as nat) by (nonlinear_arith)
                    requires
                        (m as nat) < two_pow(s as nat),
                ;
            }
            return None;
        }
        let d = two_pow_exec(s);
        proof {
            lemma_two_pow_mono(s as nat, 52);
        }
        if m % d != 0 {
            return None;
        }
        v = m / d;
        proof {
            assert(whole_value(bits) == Some((if neg { -1int } else { 1int }) * (v as int)));
            assert(v > 0) by (nonlinear_arith)
                requires
                    v == m / d,
                    m >= d,
                    d >= 1,
            ;
        }
    }
    if neg {
        if v == 0 {
            return Some(0);
        }
        assert(whole_value(bits) == Some(-1 * (v as int)));
        assert(-1 * (v as int) < 0);
        return None;
    }
    assert(whole_value(bits) == Some(1 * (v as int)));
    if v > usize::MAX as u64 {
        Some(usize::MAX)
    } else {
        Some(v as usize)
    }
}

} // verus!

verus! {

/// The number of binary digits of `m` (zero has none).
pub open spec fn bit_len(m: nat) -> nat
    decreases m,
{
    if m == 0 {
        0
    } else {
        1 + bit_len(m / 2)
    }
}

/// `m` rounded to 53 significant bits, ties to even — the magnitude of the
/// nearest binary64 number.
pub open spec fn round53(m: nat) -> nat {
    if bit_len(m) <= 53 {
        m
    } else {
        let s = (bit_len(m) - 53) as nat;
        let q = m / two_pow(s);
        let r = m % two_pow(s);
        let h = two_pow((s - 1) as nat);
        let up: nat = if r > h || (r == h && q % 2 == 1) {
            1
        } else {
            0
        };
        (q + up) * two_pow(s)
    }
}

/// The integer an `i64` converts to as a binary64 number (rounded to nearest,
/// ties to even).
pub open spec fn i64_as_f64_value(i: i64) -> int {
    if i < 0 {
        -(round53((-i) as nat) as int)
    } else {
        round53(i as nat) as int
    }
}

/// A positive number's leading digit sits at `bit_len(m) - 1`.
pub proof fn lemma_bit_len_bounds(m: nat)
    requires
        m > 0,
    ensures
        bit_len(m) >= 1,
        two_pow((bit_len(m) - 1) as nat) <= m < two_pow(bit_len(m)),
    decreases m,
{
    if m == 1 {
        assert(bit_len(0) == 0);
        assert(bit_len(1) == 1);
        assert(two_pow(0) == 1);
        assert(two_pow(1) == 2);
    } else {
        let h = m / 2;
        lemma_bit_len_bounds(h);
        let b = bit_len(h);
        assert(bit_len(m) == 1 + b);
        assert(two_pow(b) == 2 * two_pow((b - 1) as nat));
        assert(two_pow(b + 1) == 2 * two_pow(b));
        assert(((bit_len(m) - 1) as nat) == b);
        assert(2 * h <= m <= 2 * h + 1);
    }
}

/// Numbers below `2^k` have at most `k` digits.
pub proof fn lemma_bit_len_le(m: nat, k: nat)
    requires
        m < two_pow(k),
    ensures
        bit_len(m) <= k,
    decreases m,
{
    if m > 0 {
        if k == 0 {
            assert(two_pow(0) == 1);
        } else {
            lemma_bit_len_le(m / 2, (k - 1) as nat);
        }
    }
}

/// `two_pow(a + b) == two_pow(a) * two_pow(b)`.
pub proof fn lemma_two_pow_add(a: nat, b: nat)
    ensures
        two_pow(a + b) == two_pow(a) * two_pow(b),
    decreases b,
{
    if b == 0 {
        assert(a + b == a);
        assert(two_pow(0) == 1);
        assert(two_pow(a) * 1 == two_pow(a));
    } else {
        lemma_two_pow_add(a, (b - 1) as nat);
        assert(a + b == (a + (b - 1) as nat) + 1);
        assert(two_pow(a + b) == 2 * two_pow((a + (b - 1) as nat) as nat));
        assert(two_pow(b) == 2 * two_pow((b - 1) as nat));
        assert(two_pow(a) * (2 * two_pow((b - 1) as nat)) == 2 * (two_pow(a) * two_pow(
            (b - 1) as nat,
        ))) by (nonlinear_arith);
    }
}

} // verus!

verus! {

/// The fields of a packed finite, normal binary64 number read back.
proof fn lemma_pack(neg: bool, e: nat, f: nat, bits: u64)
    requires
        1 <= e < 2047,
        f < 0x10_0000_0000_0000,
        bits as nat == (if neg { 0x8000_0000_0000_0000nat } else { 0nat }) + e
            * 0x10_0000_0000_0000 + f,
    ensures
        exponent_field(bits) == e,
        fraction_field(bits) == f,
        is_negative(bits) == neg,
        is_finite(bits),
{
    let k: nat = if neg {
        2048
    } else {
        0
    };
    assert(bits as nat == (k + e) * 0x10_0000_0000_0000 + f) by (nonlinear_arith)
        requires
            bits as nat == (if neg { 0x8000_0000_0000_0000nat } else { 0nat }) + e
                * 0x10_0000_0000_0000 + f,
            k == (if neg { 2048nat } else { 0nat }),
    ;
    assert((bits as nat) / 0x10_0000_0000_0000 == k + e && (bits as nat) % 0x10_0000_0000_0000
        == f) by (nonlinear_arith)
        requires
            bits as nat == (k + e) * 0x10_0000_0000_0000 + f,
            f < 0x10_0000_0000_0000,
    ;
    assert(e * 0x10_0000_0000_0000 + f < 0x8000_0000_0000_0000) by (nonlinear_arith)
        requires
            e < 2047,
            f < 0x10_0000_0000_0000,
    ;
}

/// The significand and exponent of a magnitude `m` rounded to 53 bits: `q`
/// in `[2^52, 2^53)` with `q * 2^(e - 52)` (or `q / 2^(52 - e)`, exactly)
/// equal to the rounded magnitude.
pub open spec fn normalized(m: nat, q: nat, e: nat) -> bool {
    &&& 0x10_0000_0000_0000 <= q < 0x20_0000_0000_0000
    &&& e <= 64
    &&& e >= 52 ==> q * two_pow((e - 52) as nat) == round53(m)
    &&& e < 52 ==> q % two_pow((52 - e) as nat) == 0 && q / two_pow((52 - e) as nat) == round53(m)
}

/// Normalizes a magnitude of at most 53 digits (exact).
fn normalize_short(m: u64, p: u64) -> (r: (u64, u64))
    requires
        m > 0,
        p as nat == bit_len(m as nat),
        p <= 53,
    ensures
        normalized(m as nat, r.0 as nat, r.1 as nat),
{
    proof {
        lemma_two_pow_values();
        lemma_bit_len_bounds(m as nat);
    }
    let sh: u64 = 53 - p;
    let mult = two_pow_exec(sh);
    proof {
        lemma_two_pow_add((p - 1) as nat, sh as nat);
        lemma_two_pow_add(p as nat, sh as nat);
        assert(((p - 1) as nat + sh as nat) == 52);
        assert((p as nat + sh as nat) == 53);
        assert((m as nat) * (mult as nat) < 0x20_0000_0000_0000) by (nonlinear_arith)
            requires
                (m as nat) < two_pow(p as nat),
                two_pow(p as nat) * (mult as nat) == 0x20_0000_0000_0000,
                mult >= 1,
        ;
        assert((m as nat) * (mult as nat) >= 0x10_0000_0000_0000) by (nonlinear_arith)
            requires
                two_pow((p - 1) as nat) <= (m as nat),
                two_pow((p - 1) as nat) * (mult as nat) == 0x10_0000_0000_0000,
        ;
    }
    let q: u64 = m * mult;
    let e: u64 = p - 1;
    proof {
        assert(round53(m as nat) == m as nat);
        assert((q as nat) % (mult as nat) == 0 && (q as nat) / (mult as nat) == m as nat) by (
        nonlinear_arith)
            requires
                q as nat == (m as nat) * (mult as nat),
                mult >= 1,
        ;
        if e == 52 {
            assert(two_pow(0) == 1);
            assert(mult == 1);
            assert(q == m) by (nonlinear_arith)
                requires
                    q as nat == (m as nat) * (mult as nat),
                    mult == 1,
            ;
            assert((e - 52) as nat == 0nat);
            assert(two_pow((e - 52) as nat) == 1);
            assert((q as nat) * two_pow((e - 52) as nat) == round53(m as nat));
        } else {
            assert((52 - e) as nat == sh as nat);
        }
    }
    (q, e)
}

/// Normalizes a magnitude of more than 53 digits, rounding to nearest, ties
/// to even.
fn normalize_long(m: u64, p: u64) -> (r: (u64, u64))
    requires
        p as nat == bit_len(m as nat),
        53 < p <= 64,
    ensures
        normalized(m as nat, r.0 as nat, r.1 as nat),
{
    proof {
        lemma_two_pow_values();
        lemma_bit_len_bounds(m as nat);
    }
    let s: u64 = p - 53;
    let d = two_pow_exec(s);
    let q0: u64 = m / d;
    let rem: u64 = m % d;
    let h: u64 = d / 2;
    proof {
        lemma_two_pow_add(52, s as nat);
        lemma_two_pow_add(53, s as nat);
        assert((p - 1) as nat == 52 + s);
        assert(p as nat == 53 + s);
        assert(0x10_0000_0000_0000 <= (m as nat) / (d as nat) < 0x20_0000_0000_0000) by (
        nonlinear_arith)
            requires
                0x10_0000_0000_0000 * (d as nat) <= (m as nat),
                (m as nat) < 0x20_0000_0000_0000 * (d as nat),
                d >= 1,
        ;
        assert(two_pow(s as nat) == 2 * two_pow((s - 1) as nat));
        assert(h as nat == two_pow((s - 1) as nat));
    }
    let up: bool = rem > h || (rem == h && q0 % 2 == 1);
    let q1: u64 = if up {
        q0 + 1
    } else {
        q0
    };
    proof {
        assert(round53(m as nat) == (q1 as nat) * two_pow(s as nat));
    }
    if q1 == 0x20_0000_0000_0000 {
        proof {
            assert(two_pow((s + 1) as nat) == 2 * two_pow(s as nat));
            assert((q1 as nat) * two_pow(s as nat) == 0x10_0000_0000_0000 * two_pow((s + 1) as nat))
                by (nonlinear_arith)
                requires
                    q1 == 0x20_0000_0000_0000,
                    two_pow((s + 1) as nat) == 2 * two_pow(s as nat),
            ;
            assert((p - 52) as nat == s + 1);
        }
        (0x10_0000_0000_0000, p)
    } else {
        proof {
            assert((p - 1 - 52) as nat == s);
        }
        (q1, p - 1)
    }
}

/// The value of a packed normal number.
proof fn lemma_packed_value(r: u64, neg: bool, q: nat, e: nat, m: nat)
    requires
        normalized(m, q, e),
        exponent_field(r) == e + 1023,
        fraction_field(r) == q - 0x10_0000_0000_0000,
        is_negative(r) == neg,
    ensures
        whole_value(r) == Some(if neg { -(round53(m) as int) } else { round53(m) as int }),
{
    let big_e = e + 1023;
    let sign: int = if neg {
        -1
    } else {
        1
    };
    assert(0x10_0000_0000_0000 + fraction_field(r) == q);
    assert(big_e != 2047 && big_e != 0);
    if big_e >= 1075 {
        assert((big_e - 1075) as nat == (e - 52) as nat);
        assert(whole_value(r) == Some(sign * (q * two_pow((e - 52) as nat))));
    } else {
        assert((1075 - big_e) as nat == (52 - e) as nat);
        assert(whole_value(r) == Some(sign * (q / two_pow((52 - e) as nat)) as int));
    }
}

/// The binary64 bit pattern of the number nearest to `i` (ties to even) —
/// what `i as f64` gives.
pub fn int_to_f64_bits(i: i64) -> (r: u64)
    ensures
        is_finite(r),
        whole_value(r) == Some(i64_as_f64_value(i)),
        i == 0 ==> r == 0,
{
    proof {
        lemma_two_pow_values();
    }
    if i == 0 {
        proof {
            assert(exponent_field(0) == 0 && fraction_field(0) == 0);
            assert(bit_len(0) == 0);
        }
        return 0;
    }
    let neg: bool = i < 0;
    let m: u64 = if neg {
        if i == i64::MIN {
            0x8000_0000_0000_0000
        } else {
            (-i) as u64
        }
    } else {
        i as u64
    };
    assert(m as nat == if neg { (-i) as nat } else { i as nat });
    proof {
        reveal_with_fuel(two_pow, 65);
        lemma_bit_len_le(m as nat, 64);
    }
    let mut p: u64 = 0;
    let mut t: u64 = m;
    while t > 0
        invariant
            bit_len(m as nat) == p + bit_len(t as nat),
            bit_len(m as nat) <= 64,
        decreases t,
    {
        proof {
            lemma_bit_len_bounds(t as nat);
        }
        t = t / 2;
        p = p + 1;
    }
    let (q, e) = if p <= 53 {
        normalize_short(m, p)
    } else {
        normalize_long(m, p)
    };
    let sign: u64 = if neg {
        0x8000_0000_0000_0000
    } else {
        0
    };
    proof {
        assert((e + 1023) * 0x10_0000_0000_0000 <= 1087 * 0x10_0000_0000_0000);
    }
    let r: u64 = sign + (e + 1023) * 0x10_0000_0000_0000 + (q - 0x10_0000_0000_0000);
    proof {
        lemma_pack(neg, (e + 1023) as nat, (q - 0x10_0000_0000_0000) as nat, r);
        lemma_packed_value(r, neg, q as nat, e as nat, m as nat);
    }
    r
}

} // verus!

verus! {

/// The magnitude of a whole float with a nonzero exponent field.
pub open spec fn whole_magnitude(b: u64) -> nat {
    let e = exponent_field(b);
    let m: nat = 0x10_0000_0000_0000 + fraction_field(b);
    if e >= 1075 {
        m * two_pow((e - 1075) as nat)
    } else {
        m / two_pow((1075 - e) as nat)
    }
}

/// A whole float with a nonzero exponent field is nonzero, signed by its
/// sign bit, and its magnitude lies in the binade its exponent names.
proof fn lemma_whole_binade(b: u64)
    requires
        whole_value(b) is Some,
        exponent_field(b) != 0,
    ensures
        exponent_field(b) >= 1023,
        exponent_field(b) < 2047,
        whole_magnitude(b) >= 1,
        whole_value(b) == Some(
            if is_negative(b) {
                -(whole_magnitude(b) as int)
            } else {
                whole_magnitude(b) as int
            },
        ),
        two_pow((exponent_field(b) - 1023) as nat) <= whole_magnitude(b) < two_pow(
            (exponent_field(b) - 1022) as nat,
        ),
        exponent_field(b) < 1075 ==> (0x10_0000_0000_0000 + fraction_field(b)) % two_pow(
            (1075 - exponent_field(b)) as nat,
        ) == 0,
{
    let e = exponent_field(b);
    let f = fraction_field(b);
    let m: nat = 0x10_0000_0000_0000 + f;
    let mag = whole_magnitude(b);
    lemma_two_pow_values();
    if e >= 1075 {
        let k = (e - 1075) as nat;
        lemma_two_pow_add(52, k);
        lemma_two_pow_add(53, k);
        lemma_two_pow_mono(0, k);
        assert((e - 1023) as nat == 52 + k);
        assert((e - 1022) as nat == 53 + k);
        assert(0x10_0000_0000_0000 * two_pow(k) <= m * two_pow(k) < 0x20_0000_0000_0000 * two_pow(k))
            by (nonlinear_arith)
            requires
                0x10_0000_0000_0000 <= m < 0x20_0000_0000_0000,
                two_pow(k) >= 1,
        ;
    } else {
        let j = (1075 - e) as nat;
        let d = two_pow(j);
        lemma_two_pow_mono(0, j);
        assert(m % d == 0);
        assert(mag * d == m) by (nonlinear_arith)
            requires
                mag == m / d,
                m % d == 0,
                d >= 1,
        ;
        assert(mag >= 1) by (nonlinear_arith)
            requires
                mag * d == m,
                m >= 1,
        ;
        if j > 52 {
            lemma_two_pow_mono(53, j);
            assert(mag * d >= d) by (nonlinear_arith)
                requires
                    mag >= 1,
                    d >= 1,
            ;
            assert(false);
        }
        assert(e >= 1023);
        let lo = (e - 1023) as nat;
        lemma_two_pow_add(lo, j);
        lemma_two_pow_add(lo + 1, j);
        assert(lo + j == 52);
        assert(((e - 1022) as nat) == lo + 1);
        assert(two_pow(lo) <= mag < two_pow(lo + 1)) by (nonlinear_arith)
            requires
                mag * d == m,
                0x10_0000_0000_0000 <= m < 0x20_0000_0000_0000,
                two_pow(lo) * d == 0x10_0000_0000_0000,
                two_pow(lo + 1) * d == 0x20_0000_0000_0000,
                d >= 1,
        ;
    }
    if is_negative(b) {
        assert(whole_value(b) == Some(-1 * (mag as int)));
    } else {
        assert(whole_value(b) == Some(1 * (mag as int)));
    }
}

/// A bit pattern is its sign, exponent and fraction fields put together.
proof fn lemma_fields_determine(b: u64)
    ensures
        b as nat == (if is_negative(b) { 0x8000_0000_0000_0000nat } else { 0nat })
            + exponent_field(b) * 0x10_0000_0000_0000 + fraction_field(b),
{
    let x = b as nat;
    let hi = x / 0x10_0000_0000_0000;
    vstd::arithmetic::div_mod::lemma_fundamental_div_mod(x as int, 0x10_0000_0000_0000);
    assert(hi < 4096) by (nonlinear_arith)
        requires
            x < 0x1_0000_0000_0000_0000,
            hi == x / 0x10_0000_0000_0000,
    ;
    assert(x >= 0x8000_0000_0000_0000 <==> hi >= 2048) by (nonlinear_arith)
        requires
            hi == x / 0x10_0000_0000_0000,
    ;
}

/// Two finite floats with the same whole value, neither a negative zero,
/// are the same bit pattern.
pub proof fn lemma_whole_value_unique(b1: u64, b2: u64)
    requires
        whole_value(b1) is Some,
        whole_value(b1) == whole_value(b2),
        !(whole_value(b1) == Some(0int) && (is_negative(b1) || is_negative(b2))),
    ensures
        b1 == b2,
{
    lemma_fields_determine(b1);
    lemma_fields_determine(b2);
    lemma_two_pow_values();
    let v = whole_value(b1)->0;
    if exponent_field(b1) != 0 {
        lemma_whole_binade(b1);
    }
    if exponent_field(b2) != 0 {
        lemma_whole_binade(b2);
    }
    if v != 0 {
        let e1 = exponent_field(b1);
        let e2 = exponent_field(b2);
        if e1 < e2 {
            lemma_two_pow_mono((e1 - 1022) as nat, (e2 - 1023) as nat);
        } else if e2 < e1 {
            lemma_two_pow_mono((e2 - 1022) as nat, (e1 - 1023) as nat);
        }
        assert(e1 == e2);
        let m1: nat = 0x10_0000_0000_0000 + fraction_field(b1);
        let m2: nat = 0x10_0000_0000_0000 + fraction_field(b2);
        assert(whole_magnitude(b1) == whole_magnitude(b2));
        if e1 >= 1075 {
            let p = two_pow((e1 - 1075) as nat);
            lemma_two_pow_mono(0, (e1 - 1075) as nat);
            assert(m1 == m2) by (nonlinear_arith)
                requires
                    m1 * p == m2 * p,
                    p >= 1,
            ;
        } else {
            let d = two_pow((1075 - e1) as nat);
            lemma_two_pow_mono(0, (1075 - e1) as nat);
            assert(m1 == m2) by (nonlinear_arith)
                requires
                    m1 / d == m2 / d,
                    m1 % d == 0,
                    m2 % d == 0,
                    d >= 1,
            ;
        }
    }
}

/// The binary64 bit pattern of the number nearest to `i` (ties to even),
/// zero being the positive zero: what `i as f64` gives.
pub open spec fn f64_of_i64(i: i64) -> u64 {
    choose|b: u64|
        is_finite(b) && whole_value(b) == Some(i64_as_f64_value(i)) && !(i64_as_f64_value(i) == 0
            && is_negative(b))
}

} // verus!

verus! {

/// Any positive-zero-respecting finite encoding of `i`'s value is `f64_of_i64(i)`.
proof fn lemma_f64_of_i64(i: i64, r: u64)
    requires
        is_finite(r),
        whole_value(r) == Some(i64_as_f64_value(i)),
        !(i64_as_f64_value(i) == 0 && is_negative(r)),
    ensures
        r == f64_of_i64(i),
{
    let b = f64_of_i64(i);
    assert(is_finite(b) && whole_value(b) == Some(i64_as_f64_value(i)) && !(i64_as_f64_value(i) == 0
        && is_negative(b)));
    lemma_whole_value_unique(r, b);
}

/// `i as f64`, as a bit pattern.
pub fn i64_to_f64_bits(i: i64) -> (r: u64)
    ensures
        r == f64_of_i64(i),
        is_finite(r),
        whole_value(r) == Some(i64_as_f64_value(i)),
{
    let r = int_to_f64_bits(i);
    proof {
        if i64_as_f64_value(i) == 0 && is_negative(r) {
            if i != 0 {
                let m: nat = if i < 0 { (-i) as nat } else { i as nat };
                lemma_round53_positive(m);
            }
        }
        lemma_f64_of_i64(i, r);
    }
    r
}

/// Rounding keeps a positive magnitude positive.
proof fn lemma_round53_positive(m: nat)
    requires
        m > 0,
    ensures
        round53(m) > 0,
{
    lemma_bit_len_bounds(m);
    if bit_len(m) > 53 {
        let s = (bit_len(m) - 53) as nat;
        let d = two_pow(s);
        lemma_two_pow_mono(0, s);
        lemma_two_pow_add(52, s);
        assert((bit_len(m) - 1) as nat == 52 + s);
        lemma_two_pow_values();
        assert(m / d >= 1) by (nonlinear_arith)
            requires
                m >= 0x10_0000_0000_0000 * d,
                d >= 1,
        ;
        let q = m / d;
        let h = two_pow((s - 1) as nat);
        let rem = m % d;
        let up: nat = if rem > h || (rem == h && q % 2 == 1) {
            1
        } else {
            0
        };
        assert(round53(m) == (q + up) * d);
        assert((q + up) * d >= 1) by (nonlinear_arith)
            requires
                q >= 1,
                d >= 1,
        ;
    }
}

} // verus!

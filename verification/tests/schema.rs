use monadb::error::Error;
use monadb::ir::{Key, Type};
use monadb::schema::{encode_int, encode_key, encode_key_tuple, encode_order_key, encode_str};
use monadb::value::{Field, Value};

fn col(name: &str, ty: Type) -> Key {
    Key { name: name.to_string(), ty }
}

fn obj(members: Vec<(&str, Value)>) -> Value {
    Value::Object(members.into_iter().map(|(k, v)| Field { key: k.to_string(), value: v }).collect())
}

fn s(text: &str) -> Value {
    Value::String(text.to_string())
}

fn float(f: f64) -> Value {
    Value::Float(f.to_bits())
}

#[test]
fn int_encoding_is_order_preserving() {
    let xs = [i64::MIN, -5, -1, 0, 1, 5, i64::MAX];
    for w in xs.windows(2) {
        assert!(encode_int(w[0]) < encode_int(w[1]), "{} should encode before {}", w[0], w[1]);
    }
}

#[test]
fn int_encoding_flips_the_sign_bit() {
    assert_eq!(encode_int(42), [0x80, 0, 0, 0, 0, 0, 0, 0x2A]);
    assert_eq!(encode_int(i64::MIN), [0; 8]);
    assert_eq!(encode_int(-1), [0x7F, 0xFF, 0xFF, 0xFF, 0xFF, 0xFF, 0xFF, 0xFF]);
}

#[test]
fn str_encoding_is_order_preserving_and_prefix_safe() {
    assert!(encode_str("") < encode_str("a"));
    assert!(encode_str("a") < encode_str("ab"));
    assert!(encode_str("ab") < encode_str("b"));
    // A prefix sorts before the same string extended with a NUL.
    assert!(encode_str("a") < encode_str("a\0"));
}

#[test]
fn str_encoding_escapes_nul_and_terminates() {
    assert_eq!(encode_str("ab"), vec![0x61, 0x62, 0x00, 0x00]);
    assert_eq!(encode_str("a\0b"), vec![0x61, 0x00, 0xFF, 0x62, 0x00, 0x00]);
}

#[test]
fn composite_key_tie_breaks_on_later_columns() {
    let keys = [col("a", Type::Int), col("b", Type::String)];
    let k = |a: i64, b: &str| encode_key(&obj(vec![("a", Value::Int(a)), ("b", s(b))]), &keys).unwrap();
    assert!(k(1, "x") < k(1, "y"), "tie on a, break on b");
    assert!(k(1, "y") < k(2, "a"), "first column dominates");
}

#[test]
fn string_first_component_is_delimited() {
    let keys = [col("a", Type::String), col("b", Type::String)];
    let k = |a: &str, b: &str| encode_key(&obj(vec![("a", s(a)), ("b", s(b))]), &keys).unwrap();
    // ("a","z") < ("ab","a") despite "z" > "a" in the second component.
    assert!(k("a", "z") < k("ab", "a"));
}

#[test]
fn tuple_single_int_key_matches_encode_int() {
    let keys = [col("id", Type::Int)];
    let got = encode_key_tuple(&[Value::Int(1)], &keys).unwrap();
    assert_eq!(got, encode_int(1));
}

#[test]
fn tuple_composite_string_int_concatenates_components() {
    let keys = [col("a", Type::String), col("b", Type::Int)];
    let got = encode_key_tuple(&[s("x"), Value::Int(7)], &keys).unwrap();
    let mut want = encode_str("x");
    want.extend_from_slice(&encode_int(7));
    assert_eq!(got, want);
}

#[test]
fn tuple_matches_object_encoding_for_same_logical_key() {
    let keys = [col("a", Type::String), col("b", Type::Int)];
    let tuple = encode_key_tuple(&[s("x"), Value::Int(7)], &keys).unwrap();
    let object = encode_key(&obj(vec![("a", s("x")), ("b", Value::Int(7))]), &keys).unwrap();
    assert_eq!(tuple, object);
}

#[test]
fn tuple_wrong_type_is_schema_error() {
    let keys = [col("id", Type::Int)];
    assert!(matches!(encode_key_tuple(&[s("a")], &keys), Err(Error::Schema(_))));
}

#[test]
fn large_int_key_encodes_without_precision_loss() {
    let keys = [col("id", Type::Int)];
    // 2^53 + 1 is representable as i64 but not as f64 (rounds to 2^53).
    let n: i64 = (1i64 << 53) + 1;
    let m: i64 = 1i64 << 53;
    let enc_n = encode_key_tuple(&[Value::Int(n)], &keys).unwrap();
    let enc_m = encode_key_tuple(&[Value::Int(m)], &keys).unwrap();
    assert_ne!(enc_n, enc_m, "2^53 and 2^53+1 must encode differently");
    assert_eq!(enc_n, encode_int(n).to_vec());
    assert_eq!(enc_m, encode_int(m).to_vec());
}

#[test]
fn float_infinity_key_is_schema_error() {
    let keys = [col("id", Type::Int)];
    assert!(
        matches!(encode_key_tuple(&[float(f64::INFINITY)], &keys), Err(Error::Schema(_))),
        "positive infinity must be rejected as a non-integer key"
    );
    assert!(
        matches!(encode_key_tuple(&[float(f64::NEG_INFINITY)], &keys), Err(Error::Schema(_))),
        "negative infinity must be rejected as a non-integer key"
    );
}

#[test]
fn whole_float_key_encodes_as_its_int() {
    let keys = [col("id", Type::Int)];
    assert_eq!(encode_key_tuple(&[float(7.0)], &keys).unwrap(), encode_int(7).to_vec());
    assert_eq!(encode_key_tuple(&[float(-3.0)], &keys).unwrap(), encode_int(-3).to_vec());
    assert_eq!(encode_key_tuple(&[float(1e300)], &keys).unwrap(), encode_int(i64::MAX).to_vec());
}

#[test]
fn missing_key_is_schema_error() {
    let keys = [col("x", Type::Int)];
    let row = obj(vec![("z", Value::Int(1))]);
    match encode_key(&row, &keys) {
        Err(Error::Schema(m)) => assert_eq!(m, "missing key 'x'"),
        other => panic!("unexpected {other:?}"),
    }
}

#[test]
fn wrong_type_key_is_schema_error() {
    let int_keys = [col("x", Type::Int)];
    assert!(matches!(encode_key(&obj(vec![("x", s("a"))]), &int_keys), Err(Error::Schema(_))));
    assert!(matches!(encode_key(&obj(vec![("x", float(1.5))]), &int_keys), Err(Error::Schema(_))));
    let str_keys = [col("x", Type::String)];
    match encode_key(&obj(vec![("x", Value::Int(1))]), &str_keys) {
        Err(Error::Schema(m)) => assert_eq!(m, "key 'x' must be string"),
        other => panic!("unexpected {other:?}"),
    }
    let any_keys = [col("x", Type::Any)];
    match encode_key(&obj(vec![("x", Value::Int(1))]), &any_keys) {
        Err(Error::Schema(m)) => assert_eq!(m, "key 'x' must be int or string"),
        other => panic!("unexpected {other:?}"),
    }
}

#[test]
fn order_key_asc_is_ascending_desc_reverses() {
    let a = encode_order_key(&[Value::Int(1)], &[false]);
    let b = encode_order_key(&[Value::Int(2)], &[false]);
    assert!(a < b, "asc: 1 before 2");
    let a = encode_order_key(&[Value::Int(1)], &[true]);
    let b = encode_order_key(&[Value::Int(2)], &[true]);
    assert!(a > b, "desc: 2 before 1");
}

#[test]
fn order_key_null_sorts_last_asc_first_desc() {
    let v = encode_order_key(&[Value::Int(5)], &[false]);
    let n = encode_order_key(&[Value::Null], &[false]);
    assert!(v < n, "null sorts after values in asc");
    let v = encode_order_key(&[Value::Int(5)], &[true]);
    let n = encode_order_key(&[Value::Null], &[true]);
    assert!(n < v, "null sorts before values in desc");
}

#[test]
fn order_key_ints_and_floats_interleave_numerically() {
    let one = encode_order_key(&[Value::Int(1)], &[false]);
    let half = encode_order_key(&[float(1.5)], &[false]);
    let two = encode_order_key(&[Value::Int(2)], &[false]);
    assert!(one < half && half < two, "1 < 1.5 < 2 across int/float");
}

#[test]
fn order_key_int_equals_float_of_same_value() {
    assert_eq!(
        encode_order_key(&[Value::Int(1)], &[false]),
        encode_order_key(&[float(1.0)], &[false]),
        "Int(1) and Float(1.0) encode identically",
    );
}

#[test]
fn order_key_negatives_and_zero_order_correctly() {
    let xs = [Value::Int(-5), Value::Int(-1), Value::Int(0), Value::Int(1), float(2.5)];
    for w in xs.windows(2) {
        let a = encode_order_key(&w[0..1], &[false]);
        let b = encode_order_key(&w[1..2], &[false]);
        assert!(a < b, "values must encode in ascending order");
    }
}

#[test]
fn order_key_strings_sort_lexicographically() {
    let a = encode_order_key(&[s("apple")], &[false]);
    let b = encode_order_key(&[s("banana")], &[false]);
    assert!(a < b);
}

#[test]
fn order_key_multi_key_tie_breaks_with_mixed_directions() {
    let dirs = [false, true];
    let k = |a: i64, b: i64| encode_order_key(&[Value::Int(a), Value::Int(b)], &dirs);
    assert!(k(1, 2) < k(1, 1), "within a=1, b desc puts 2 before 1");
    assert!(k(1, 1) < k(2, 5), "a asc dominates b");
}

#[test]
fn order_key_int_widens_like_a_float_cast() {
    for i in [0i64, 1, -1, 42, -7, 1 << 53, (1 << 53) + 1, i64::MAX, i64::MIN, 12345678901234567] {
        assert_eq!(
            encode_order_key(&[Value::Int(i)], &[false]),
            encode_order_key(&[float(i as f64)], &[false]),
            "{i}"
        );
    }
}

#[test]
fn order_key_negative_zero_is_zero() {
    assert_eq!(
        encode_order_key(&[float(-0.0)], &[false]),
        encode_order_key(&[float(0.0)], &[false])
    );
}

#[test]
fn order_key_tags_bools_and_composites() {
    assert_eq!(encode_order_key(&[Value::Bool(true)], &[false]), vec![0x01, 0x01]);
    assert_eq!(encode_order_key(&[Value::Bool(false)], &[true]), vec![0xFE, 0xFF]);
    assert_eq!(encode_order_key(&[Value::Oid(3)], &[false]), vec![0xFE]);
    assert_eq!(encode_order_key(&[Value::Null], &[false]), vec![0xFF]);
}

#[test]
fn order_key_desc_is_the_ascending_key_complemented() {
    let make = |i: usize| match i {
        0 => Value::Int(7),
        1 => Value::String("ab".to_string()),
        2 => Value::Null,
        3 => Value::Bool(true),
        _ => Value::Float((-2.5f64).to_bits()),
    };
    for i in 0..5 {
        let asc = encode_order_key(&[make(i)], &[false]);
        let desc = encode_order_key(&[make(i)], &[true]);
        let flipped: Vec<u8> = asc.iter().map(|b| !b).collect();
        assert_eq!(desc, flipped);
    }
}

#[test]
fn order_key_desc_reverses_strings_of_different_lengths() {
    let a = encode_order_key(&[Value::String("ab".to_string())], &[false]);
    let b = encode_order_key(&[Value::String("abc".to_string())], &[false]);
    assert!(a < b);
    let a = encode_order_key(&[Value::String("ab".to_string())], &[true]);
    let b = encode_order_key(&[Value::String("abc".to_string())], &[true]);
    assert!(b < a);
    assert_eq!(encode_order_key(&[Value::Null], &[false]), vec![0xFF]);
    assert_eq!(encode_order_key(&[Value::Null], &[true]), vec![0x00]);
}

#[test]
fn order_key_numbers_ascend_across_signs_and_kinds() {
    let keys: Vec<Vec<u8>> = vec![
        encode_order_key(&[Value::Float((-2.5f64).to_bits())], &[false]),
        encode_order_key(&[Value::Int(-1)], &[false]),
        encode_order_key(&[Value::Float((-0.0f64).to_bits())], &[false]),
        encode_order_key(&[Value::Float(0.5f64.to_bits())], &[false]),
        encode_order_key(&[Value::Int(3)], &[false]),
    ];
    for w in keys.windows(2) {
        assert!(w[0] < w[1]);
    }
    assert_eq!(
        encode_order_key(&[Value::Float((-0.0f64).to_bits())], &[false]),
        encode_order_key(&[Value::Int(0)], &[false])
    );
}

#[test]
fn leading_key_columns_encode_to_a_prefix() {
    let keys = vec![
        Key { name: "a".to_string(), ty: Type::Int },
        Key { name: "b".to_string(), ty: Type::String },
    ];
    let full = encode_key_tuple(&[Value::Int(4), Value::String("z".to_string())], &keys).unwrap();
    let lead = encode_key_tuple(&[Value::Int(4)], &keys).unwrap();
    assert!(full.starts_with(&lead));
    assert!(lead.len() < full.len());
}

use monadb::doc::{
    doc_to_fields, doc_to_py, value_to_bson, DocError, DocValue, PyEntry, PyValue,
};

fn entry(key: &str, value: PyValue) -> PyEntry {
    PyEntry { key: Some(key.to_string()), value }
}

fn dict(entries: Vec<PyEntry>) -> PyValue {
    PyValue::Dict(entries)
}

/// Structural equality of the Python-side model, for the round-trip checks.
fn same(a: &PyValue, b: &PyValue) -> bool {
    match (a, b) {
        (PyValue::NoneValue, PyValue::NoneValue) => true,
        (PyValue::Bool(x), PyValue::Bool(y)) => x == y,
        (PyValue::Int(x), PyValue::Int(y)) => x == y,
        (PyValue::Float(x), PyValue::Float(y)) => x == y,
        (PyValue::Str(x), PyValue::Str(y)) => x == y,
        (PyValue::Bytes(x), PyValue::Bytes(y)) => x == y,
        (PyValue::DateTime(x), PyValue::DateTime(y)) => x == y,
        (PyValue::Dict(x), PyValue::Dict(y)) => {
            x.len() == y.len()
                && x.iter().zip(y.iter()).all(|(p, q)| p.key == q.key && same(&p.value, &q.value))
        },
        (PyValue::List(x), PyValue::List(y)) => {
            x.len() == y.len() && x.iter().zip(y.iter()).all(|(p, q)| same(p, q))
        },
        _ => false,
    }
}

fn roundtrip(v: &PyValue) -> PyValue {
    let d = value_to_bson(v, "$").unwrap();
    doc_to_py(&d)
}

#[test]
fn bson_roundtrip() {
    let cases = vec![
        dict(vec![]),
        dict(vec![entry("a", PyValue::Int(1))]),
        dict(vec![
            entry("a", PyValue::NoneValue),
            entry("b", PyValue::Bool(true)),
            entry("c", PyValue::Bool(false)),
        ]),
        dict(vec![
            entry("i32", PyValue::Int(7)),
            entry("i64", PyValue::Int(1 << 40)),
            entry("neg", PyValue::Int(-(1 << 40))),
            entry("f", PyValue::Float(1.5f64.to_bits())),
        ]),
        dict(vec![
            entry("s", PyValue::Str("héllo".to_string())),
            entry("b", PyValue::Bytes(vec![0x00, 0xff])),
        ]),
        dict(vec![entry(
            "l",
            PyValue::List(vec![
                PyValue::Int(1),
                PyValue::Str("two".into()),
                PyValue::NoneValue,
                PyValue::List(vec![PyValue::Int(3), dict(vec![entry("x", PyValue::Int(1))])]),
            ]),
        )]),
        dict(vec![entry("n", dict(vec![entry("deep", dict(vec![entry("er", PyValue::List(vec![]))]))]))]),
        dict(vec![entry("at", PyValue::DateTime(1_785_672_000_123))]),
    ];
    for v in &cases {
        assert!(same(&roundtrip(v), v), "round trip changed {v:?}");
    }
}

#[test]
fn rejections() {
    let non_mapping = PyValue::List(vec![PyValue::Int(1), PyValue::Int(2)]);
    assert!(matches!(doc_to_fields(&non_mapping), Err(DocError::Type(m)) if m == "document must be a mapping, got list"));
    let bad_nested = dict(vec![entry(
        "a",
        dict(vec![entry("b", PyValue::List(vec![PyValue::Int(1), PyValue::Other("set".into())]))]),
    )]);
    match doc_to_fields(&bad_nested) {
        Err(DocError::Type(m)) => {
            assert!(m.contains("a.b[1]"), "path missing: {m}");
            assert_eq!(m, "unsupported type set at $.a.b[1]");
        },
        other => panic!("expected a type error, found {other:?}"),
    }
    let too_big = dict(vec![entry("x", PyValue::BigInt)]);
    assert!(matches!(doc_to_fields(&too_big), Err(DocError::Value(m)) if m == "int out of 64-bit range at $.x"));
}

#[test]
fn ints_take_the_narrowest_width() {
    assert!(matches!(value_to_bson(&PyValue::Int(7), "$"), Ok(DocValue::Int32(7))));
    assert!(matches!(value_to_bson(&PyValue::Int(i32::MIN as i64), "$"), Ok(DocValue::Int32(i32::MIN))));
    assert!(matches!(value_to_bson(&PyValue::Int(1 << 31), "$"), Ok(DocValue::Int64(2147483648))));
}

#[test]
fn non_string_key_is_type_error() {
    let v = dict(vec![PyEntry { key: None, value: PyValue::Int(1) }]);
    assert!(matches!(doc_to_fields(&v), Err(DocError::Type(m)) if m == "non-string field name at $"));
}

#[test]
fn repeated_key_keeps_its_place() {
    let v = dict(vec![
        entry("a", PyValue::Int(1)),
        entry("b", PyValue::Int(2)),
        entry("a", PyValue::Int(3)),
    ]);
    let fields = doc_to_fields(&v).unwrap();
    assert_eq!(fields.len(), 2);
    assert_eq!(fields[0].key, "a");
    assert!(matches!(fields[0].value, DocValue::Int32(3)));
    assert_eq!(fields[1].key, "b");
}

#[test]
fn stored_bytes_read_back_as_a_document() {
    let mut inner = bson::Document::new();
    inner.insert("x", true);
    let mut d = bson::Document::new();
    d.insert("a", 30i32);
    d.insert("b", "hi");
    d.insert("c", inner);
    d.insert("l", vec![bson::Bson::Int64(7), bson::Bson::Null]);
    let bytes = d.to_vec().unwrap();
    let v = monadb::doc::doc_from_bytes(&bytes).unwrap();
    let DocValue::Document(fs) = v else { panic!("not a document") };
    assert_eq!(fs.len(), 4);
    assert_eq!(fs[0].key, "a");
    assert!(matches!(fs[0].value, DocValue::Int32(30)));
    assert!(matches!(&fs[1].value, DocValue::String(s) if s == "hi"));
    let DocValue::Document(inner_fs) = &fs[2].value else { panic!("not a document") };
    assert_eq!(inner_fs[0].key, "x");
    assert!(matches!(inner_fs[0].value, DocValue::Boolean(true)));
    let DocValue::Array(items) = &fs[3].value else { panic!("not an array") };
    assert!(matches!(items[0], DocValue::Int64(7)));
    assert!(matches!(items[1], DocValue::Null));
}

#[test]
fn stored_element_of_another_kind_is_refused() {
    let mut d = bson::Document::new();
    d.insert("a", 1i32);
    d.insert("m", bson::Bson::MaxKey);
    let bytes = d.to_vec().unwrap();
    let r = monadb::doc::doc_from_bytes(&bytes);
    assert_eq!(r.err(), Some("unexpected BSON element MaxKey in stored document".to_string()));
}

#[test]
fn truncated_stored_bytes_are_refused() {
    let mut d = bson::Document::new();
    d.insert("a", 1i32);
    let bytes = d.to_vec().unwrap();
    assert!(monadb::doc::doc_from_bytes(&bytes[..bytes.len() - 1]).is_err());
}

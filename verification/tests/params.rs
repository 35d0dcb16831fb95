use monadb::params::{IntoParams, Params};
use monadb::value::{Field, Value};

#[test]
fn unit_is_empty() {
    let p = <() as IntoParams>::into_params(());
    assert!(p.get_numbered(1).is_none());
}

#[test]
fn tuple_positional() {
    let p = (1i64, "x").into_params();
    assert!(matches!(p.get_numbered(1), Some(Value::Int(1))));
    assert!(matches!(p.get_numbered(2), Some(Value::String(s)) if s == "x"));
}

#[test]
fn macro_builds_positional() {
    let p = Params::positional(vec![Value::from(1i64), Value::from(2i64)]);
    assert!(matches!(p.get_numbered(1), Some(Value::Int(1))));
    assert!(matches!(p.get_numbered(2), Some(Value::Int(2))));
}

#[test]
fn numbered_is_one_based() {
    let p = Params::positional(vec![Value::Int(10)]);
    assert!(p.get_numbered(0).is_none());
    assert!(matches!(p.get_numbered(1), Some(Value::Int(10))));
    assert!(p.get_numbered(2).is_none());
}

#[test]
fn named_lookup() {
    let p = Params::named(vec![
        Field { key: "a".to_string(), value: Value::Bool(true) },
        Field { key: "b".to_string(), value: Value::Null },
    ]);
    assert!(matches!(p.get_named("a"), Some(Value::Bool(true))));
    assert!(matches!(p.get_named("b"), Some(Value::Null)));
    assert!(p.get_named("c").is_none());
    assert!(p.get_numbered(1).is_none());
}

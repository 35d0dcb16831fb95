use monadb::error::Error;
use monadb::functions::{call, lookup};
use monadb::value::{Field, Value};

/// A value's text for type errors: the test's own short rendering.
fn show(v: &Value) -> String {
    match v {
        Value::Null => "null".to_string(),
        Value::Bool(b) => b.to_string(),
        Value::Int(i) => i.to_string(),
        Value::String(s) => format!("\"{s}\""),
        Value::Array(_) => "[...]".to_string(),
        Value::Object(_) => "{...}".to_string(),
        _ => "?".to_string(),
    }
}

/// Stands for the builtins the library hands on; answers with a marker.
fn handed_on(id: usize, args: &Vec<Value>) -> Result<Value, Error> {
    Ok(Value::String(format!("other {id} {}", args.len())))
}

fn id(name: &str) -> usize {
    lookup(name).unwrap()
}

fn run(name: &str, args: Vec<Value>) -> Result<Value, Error> {
    call(id(name), &args, show, handed_on)
}

fn text(s: &str) -> Value {
    Value::String(s.to_string())
}

fn ints(xs: &[i64]) -> Value {
    Value::Array(xs.iter().map(|&i| Value::Int(i)).collect())
}

fn as_ints(v: &Value) -> Vec<i64> {
    match v {
        Value::Array(xs) => xs
            .iter()
            .map(|x| match x {
                Value::Int(i) => *i,
                other => panic!("not an int: {other:?}"),
            })
            .collect(),
        other => panic!("not an array: {other:?}"),
    }
}

fn internal(r: Result<Value, Error>) -> String {
    match r {
        Err(Error::InternalError(m)) => m,
        other => panic!("expected an internal error, got {other:?}"),
    }
}

#[test]
fn strict_builtin_with_null_argument_is_null() {
    assert!(matches!(run("abs", vec![Value::Null]), Ok(Value::Null)));
    assert!(matches!(run("upper", vec![Value::Null]), Ok(Value::Null)));
    assert!(matches!(run("starts_with", vec![text("a"), Value::Null]), Ok(Value::Null)));
    assert!(matches!(run("array_append", vec![ints(&[1]), Value::Null]), Ok(Value::Null)));
}

#[test]
fn coalesce_and_ifnull_see_nulls() {
    assert!(matches!(run("coalesce", vec![Value::Null, Value::Int(2), Value::Int(3)]), Ok(Value::Int(2))));
    assert!(matches!(run("coalesce", vec![Value::Null, Value::Null]), Ok(Value::Null)));
    assert!(matches!(run("ifnull", vec![Value::Null, Value::Int(7)]), Ok(Value::Int(7))));
    assert!(matches!(run("nvl", vec![Value::Int(1), Value::Int(7)]), Ok(Value::Int(1))));
}

#[test]
fn abs_of_ints_floats_and_others() {
    assert!(matches!(run("abs", vec![Value::Int(-5)]), Ok(Value::Int(5))));
    assert!(matches!(run("abs", vec![Value::Int(4)]), Ok(Value::Int(4))));
    assert_eq!(internal(run("abs", vec![Value::Int(i64::MIN)])), "integer overflow in abs()");
    let minus = (-1.5f64).to_bits();
    assert!(matches!(run("abs", vec![Value::Float(minus)]), Ok(Value::Float(b)) if b == 1.5f64.to_bits()));
    assert_eq!(internal(run("abs", vec![text("x")])), "abs() requires a number, got \"x\"");
}

#[test]
fn length_counts_characters_elements_and_members() {
    assert!(matches!(run("length", vec![text("héllo")]), Ok(Value::Int(5))));
    assert!(matches!(run("length", vec![ints(&[1, 2, 3])]), Ok(Value::Int(3))));
    let obj = Value::Object(vec![Field { key: "a".to_string(), value: Value::Int(1) }]);
    assert!(matches!(run("length", vec![obj]), Ok(Value::Int(1))));
    assert_eq!(
        internal(run("length", vec![Value::Int(3)])),
        "length() requires a string, array, or object, got 3"
    );
}

#[test]
fn reverse_of_strings_and_arrays() {
    assert!(matches!(run("reverse", vec![text("abç")]), Ok(Value::String(s)) if s == "çba"));
    assert_eq!(as_ints(&run("reverse", vec![ints(&[1, 2, 3])]).unwrap()), vec![3, 2, 1]);
    assert_eq!(as_ints(&run("array_reverse", vec![ints(&[1, 2])]).unwrap()), vec![2, 1]);
}

#[test]
fn strpos_counts_characters_from_one() {
    assert!(matches!(run("strpos", vec![text("hello"), text("l")]), Ok(Value::Int(3))));
    assert!(matches!(run("instr", vec![text("héllo"), text("llo")]), Ok(Value::Int(3))));
    assert!(matches!(run("strpos", vec![text("hello"), text("z")]), Ok(Value::Int(0))));
    assert!(matches!(run("strpos", vec![text("hello"), text("")]), Ok(Value::Int(1))));
    assert_eq!(internal(run("strpos", vec![text("a"), Value::Int(1)])), "strpos() requires a string, got 1");
}

#[test]
fn prefix_suffix_and_substring_tests() {
    assert!(matches!(run("starts_with", vec![text("hello"), text("he")]), Ok(Value::Bool(true))));
    assert!(matches!(run("starts_with", vec![text("he"), text("hello")]), Ok(Value::Bool(false))));
    assert!(matches!(run("ends_with", vec![text("hello"), text("llo")]), Ok(Value::Bool(true))));
    assert!(matches!(run("ends_with", vec![text("hello"), text("he")]), Ok(Value::Bool(false))));
    assert!(matches!(run("contains", vec![text("hello"), text("ell")]), Ok(Value::Bool(true))));
    assert!(matches!(run("contains", vec![text("hello"), text("")]), Ok(Value::Bool(true))));
    assert!(matches!(run("contains", vec![text("hello"), text("x")]), Ok(Value::Bool(false))));
    assert_eq!(
        internal(run("contains", vec![Value::Int(1), text("x")])),
        "contains() requires a string or array, got 1"
    );
}

#[test]
fn array_builtins_build_new_arrays() {
    assert!(matches!(run("array_length", vec![ints(&[4, 5])]), Ok(Value::Int(2))));
    assert_eq!(as_ints(&run("array_append", vec![ints(&[1]), Value::Int(2)]).unwrap()), vec![1, 2]);
    assert_eq!(as_ints(&run("array_prepend", vec![Value::Int(0), ints(&[1])]).unwrap()), vec![0, 1]);
    assert_eq!(as_ints(&run("array_concat", vec![ints(&[1]), ints(&[2, 3])]).unwrap()), vec![1, 2, 3]);
    assert_eq!(
        internal(run("array_concat", vec![ints(&[1]), text("x")])),
        "array_concat() requires an array, got \"x\""
    );
    assert_eq!(internal(run("array_length", vec![text("x")])), "array_length() requires an array, got \"x\"");
}

#[test]
fn object_keys_and_values_keep_insertion_order() {
    let obj = Value::Object(vec![
        Field { key: "b".to_string(), value: Value::Int(2) },
        Field { key: "a".to_string(), value: Value::Int(1) },
    ]);
    let keys = run("object_keys", vec![Value::Object(vec![
        Field { key: "b".to_string(), value: Value::Int(2) },
        Field { key: "a".to_string(), value: Value::Int(1) },
    ])])
    .unwrap();
    match keys {
        Value::Array(ks) => {
            assert!(matches!(&ks[0], Value::String(s) if s == "b"));
            assert!(matches!(&ks[1], Value::String(s) if s == "a"));
            assert_eq!(ks.len(), 2);
        }
        other => panic!("not an array: {other:?}"),
    }
    assert_eq!(as_ints(&run("object_values", vec![obj]).unwrap()), vec![2, 1]);
    assert_eq!(internal(run("object_keys", vec![Value::Int(1)])), "object_keys() requires an object, got 1");
}

#[test]
fn other_builtins_are_handed_on() {
    assert!(matches!(run("int", vec![text("1")]), Ok(Value::String(s)) if s == format!("other {} 1", id("int"))));
    assert!(matches!(run("contains", vec![ints(&[1]), Value::Int(1)]), Ok(Value::String(s)) if s.starts_with("other")));
    assert!(matches!(run("typeof", vec![Value::Null]), Ok(Value::String(s)) if s.starts_with("other")));
}

#[test]
fn case_trim_and_replace_of_strings() {
    assert!(matches!(run("upper", vec![text("abé")]), Ok(Value::String(s)) if s == "ABÉ"));
    assert!(matches!(run("lower", vec![text("AbC")]), Ok(Value::String(s)) if s == "abc"));
    assert!(matches!(run("trim", vec![text("  a b \t")]), Ok(Value::String(s)) if s == "a b"));
    assert!(matches!(run("ltrim", vec![text("  a ")]), Ok(Value::String(s)) if s == "a "));
    assert!(matches!(run("rtrim", vec![text("  a ")]), Ok(Value::String(s)) if s == "  a"));
    assert_eq!(internal(run("upper", vec![Value::Int(1)])), "upper() requires a string, got 1");
    assert!(matches!(run("replace", vec![text("aXbXc"), text("X"), text("--")]), Ok(Value::String(s)) if s == "a--b--c"));
    assert!(matches!(run("replace", vec![text("abc"), text(""), text("-")]), Ok(Value::String(s)) if s == "abc"));
    assert!(matches!(run("replace", vec![text("aaa"), text("aa"), text("b")]), Ok(Value::String(s)) if s == "ba"));
    assert_eq!(
        internal(run("replace", vec![text("a"), text("b"), Value::Int(2)])),
        "replace() requires a string, got 2"
    );
}

#[test]
fn substr_and_array_slice_with_integer_bounds() {
    assert!(matches!(run("substr", vec![text("héllo"), Value::Int(2)]), Ok(Value::String(s)) if s == "éllo"));
    assert!(matches!(run("substring", vec![text("hello"), Value::Int(2), Value::Int(3)]), Ok(Value::String(s)) if s == "ell"));
    assert!(matches!(run("substr", vec![text("hello"), Value::Int(0), Value::Int(2)]), Ok(Value::String(s)) if s == "he"));
    assert!(matches!(run("substr", vec![text("hello"), Value::Int(9)]), Ok(Value::String(s)) if s.is_empty()));
    assert!(matches!(run("substr", vec![text("hello"), Value::Int(2), Value::Int(0)]), Ok(Value::String(s)) if s.is_empty()));
    assert!(matches!(run("substr", vec![text("hello"), Value::Int(4), Value::Int(i64::MAX)]), Ok(Value::String(s)) if s == "lo"));
    assert_eq!(internal(run("substr", vec![Value::Int(5), Value::Int(1)])), "substr() requires a string, got 5");
    assert!(matches!(run("substr", vec![text("hello"), text("2")]), Ok(Value::String(s)) if s.starts_with("other")));
    assert_eq!(as_ints(&run("array_slice", vec![ints(&[1, 2, 3, 4]), Value::Int(2), Value::Int(3)]).unwrap()), vec![2, 3]);
    assert_eq!(as_ints(&run("array_slice", vec![ints(&[1, 2, 3]), Value::Int(0), Value::Int(9)]).unwrap()), vec![1, 2, 3]);
    assert_eq!(as_ints(&run("array_slice", vec![ints(&[1, 2, 3]), Value::Int(3), Value::Int(2)]).unwrap()), Vec::<i64>::new());
    assert_eq!(
        internal(run("array_slice", vec![text("x"), Value::Int(1), Value::Int(2)])),
        "array_slice() requires an array, got \"x\""
    );
}

#[test]
fn padding_to_a_width_and_member_lookup() {
    assert!(matches!(run("lpad", vec![text("7"), Value::Int(3), text("0")]), Ok(Value::String(s)) if s == "007"));
    assert!(matches!(run("rpad", vec![text("ab"), Value::Int(5), text("xy")]), Ok(Value::String(s)) if s == "abxyx"));
    assert!(matches!(run("lpad", vec![text("ab"), Value::Int(4)]), Ok(Value::String(s)) if s == "  ab"));
    assert!(matches!(run("rpad", vec![text("hello"), Value::Int(2)]), Ok(Value::String(s)) if s == "he"));
    assert!(matches!(run("lpad", vec![text("ab"), Value::Int(0)]), Ok(Value::String(s)) if s.is_empty()));
    assert!(matches!(run("lpad", vec![text("ab"), Value::Int(5), text("")]), Ok(Value::String(s)) if s == "ab"));
    assert_eq!(internal(run("lpad", vec![text("ab"), Value::Int(1 << 31)])), "lpad() result is too large");
    assert_eq!(internal(run("rpad", vec![text("ab"), Value::Int(4), Value::Int(1)])), "rpad() requires a string, got 1");
    let obj = || Value::Object(vec![Field { key: "a".to_string(), value: Value::Null }]);
    assert!(matches!(run("object_has_key", vec![obj(), text("a")]), Ok(Value::Bool(true))));
    assert!(matches!(run("object_has_key", vec![obj(), text("b")]), Ok(Value::Bool(false))));
    assert_eq!(internal(run("object_has_key", vec![obj(), Value::Int(1)])), "object_has_key() requires a string, got 1");
}

#[test]
fn concat_and_joins_skip_nulls() {
    assert!(matches!(
        run("concat", vec![text("a"), Value::Null, Value::Int(1), Value::Bool(true)]),
        Ok(Value::String(s)) if s == "a1true"
    ));
    assert!(matches!(run("concat", vec![Value::Null]), Ok(Value::String(s)) if s.is_empty()));
    assert!(matches!(
        run("concat_ws", vec![text("-"), text("a"), Value::Null, Value::Int(2)]),
        Ok(Value::String(s)) if s == "a-2"
    ));
    assert!(matches!(run("concat_ws", vec![Value::Null, text("a")]), Ok(Value::Null)));
    assert_eq!(internal(run("concat_ws", vec![Value::Int(1), text("a")])), "concat_ws() requires a string, got 1");
    let items = Value::Array(vec![text("x"), Value::Null, Value::Int(3)]);
    assert!(matches!(run("array_to_string", vec![items, text(", ")]), Ok(Value::String(s)) if s == "x, 3"));
    assert_eq!(
        internal(run("array_to_string", vec![text("x"), text(",")])),
        "array_to_string() requires an array, got \"x\""
    );
}

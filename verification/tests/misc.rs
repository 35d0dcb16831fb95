use monadb::compiler::{assign_table_slots, Program, Vop};
use monadb::config::Config;
use monadb::cursor::ValueIter;
use monadb::decimal::decimal;
use monadb::error::Error;
use monadb::f64bits::{i64_to_f64_bits, whole_to_i64, whole_to_usize};
use monadb::functions::{arity_ok, builtin_name, is_strict, lookup};
use monadb::ir::{
    delete, expr_between, expr_in_list, expr_not, from_item, Call, Expr, Source, Var,
};
use monadb::query_options::QueryOptions;
use monadb::same::{copy_expr, copy_value, expr_eq, value_eq};
use monadb::value::{Field, Value};

fn ints(xs: &[i64]) -> Value {
    Value::Array(xs.iter().map(|&n| Value::Int(n)).collect())
}

#[test]
fn value_iter_walks_an_array() {
    let mut it = ValueIter::new(ints(&[10, 20]));
    assert!(matches!(it.load(), Err(Error::InternalError(m)) if m == "load on unpositioned cursor"));
    assert!(it.next());
    assert!(matches!(it.load(), Ok(Value::Int(10))));
    assert!(it.next());
    assert!(matches!(it.load(), Ok(Value::Int(20))));
    assert!(!it.next());
    assert!(it.load().is_err());
}

#[test]
fn value_iter_over_a_scalar_yields_nothing() {
    let mut it = ValueIter::new(Value::Int(3));
    assert!(!it.next());
}

#[test]
fn table_slots_dedupe_in_first_open_order() {
    let mut p = Program {
        cursors: 3,
        counters: 0,
        aggs: 0,
        mutates_catalog: false,
        instructions: vec![
            Vop::Open { csr: 0, tbl: 9 },
            Vop::Open { csr: 1, tbl: 4 },
            Vop::Halt,
            Vop::Open { csr: 2, tbl: 9 },
        ],
    };
    let oids = assign_table_slots(&mut p);
    assert_eq!(oids, vec![9, 4]);
    assert!(matches!(p.instructions[0], Vop::Open { csr: 0, tbl: 0 }));
    assert!(matches!(p.instructions[1], Vop::Open { csr: 1, tbl: 1 }));
    assert!(matches!(p.instructions[2], Vop::Halt));
    assert!(matches!(p.instructions[3], Vop::Open { csr: 2, tbl: 0 }));
}

#[test]
fn decimal_text() {
    assert_eq!(decimal(0), "0");
    assert_eq!(decimal(7), "7");
    assert_eq!(decimal(1204), "1204");
}

#[test]
fn i64_to_f64_bits_matches_the_cast() {
    for i in [0i64, 1, -1, 42, 1 << 53, (1 << 53) + 1, i64::MAX, i64::MIN] {
        assert_eq!(i64_to_f64_bits(i), (i as f64).to_bits(), "cast of {i}");
    }
}

#[test]
fn whole_floats_convert_to_integers() {
    assert_eq!(whole_to_i64(3.0f64.to_bits()), Some(3));
    assert_eq!(whole_to_i64((-2.0f64).to_bits()), Some(-2));
    assert_eq!(whole_to_i64(1.5f64.to_bits()), None);
    assert_eq!(whole_to_i64(f64::INFINITY.to_bits()), None);
    assert_eq!(whole_to_i64(1e30f64.to_bits()), Some(i64::MAX));
    assert_eq!(whole_to_usize(5.0f64.to_bits()), Some(5));
    assert_eq!(whole_to_usize((-1.0f64).to_bits()), None);
}

#[test]
fn registry_lookup_and_arity() {
    let f = lookup("coalesce").unwrap();
    assert_eq!(builtin_name(f), "coalesce");
    assert!(!is_strict(f));
    assert!(arity_ok(f, 3));
    assert!(!arity_ok(f, 0));
    let r = lookup("round").unwrap();
    assert!(arity_ok(r, 1) && arity_ok(r, 2) && !arity_ok(r, 3));
    assert!(is_strict(r));
    assert_eq!(lookup("ceiling").map(builtin_name), Some("ceiling"));
    assert!(lookup("no_such_function").is_none());
}

#[test]
fn config_and_query_options() {
    assert!(Config::default().nosync().no_sync_flag());
    assert!(!Config::default().no_sync_flag());
    let mut o = QueryOptions::default();
    assert!(!o.debug_enabled());
    o.set_debug(true);
    assert!(o.debug_enabled());
    assert!(!QueryOptions::default().debug(true).debug(false).debug_enabled());
}

#[test]
fn builders_shape_calls() {
    let b = expr_between(Expr::Lit(Value::Int(1)), Expr::Lit(Value::Int(0)), Expr::Lit(Value::Int(2)));
    assert!(matches!(&b, Expr::Call(Call { name, args }) if name == "between" && args.len() == 3));
    let n = expr_not(b);
    assert!(matches!(&n, Expr::Call(Call { name, args }) if name == "not" && args.len() == 1));
    let l = expr_in_list(Expr::Lit(Value::Int(1)), vec![Expr::Lit(Value::Int(1)), Expr::Lit(Value::Int(2))]);
    assert!(matches!(&l, Expr::Call(Call { name, args }) if name == "in_list" && args.len() == 3));
}

#[test]
fn from_item_names_a_table_or_a_value() {
    let t = from_item(Expr::Var(Var { name: "users".into(), bind: None }), None);
    assert!(matches!(&t.src, Source::Table(n) if n == "users"));
    assert_eq!(t.var, "users");
    let v = from_item(Expr::Lit(Value::Int(1)), Some("x".into()));
    assert!(matches!(v.src, Source::Value(_)));
    assert_eq!(v.var, "x");
    let d = delete("logs".into(), None, None);
    assert_eq!(d.from.var, "logs");
}

#[test]
fn copies_are_equal_and_differences_are_seen() {
    let v = Value::Object(vec![
        Field { key: "a".into(), value: ints(&[1, 2]) },
        Field { key: "b".into(), value: Value::String("x".into()) },
    ]);
    let c = copy_value(&v);
    assert!(value_eq(&v, &c));
    assert!(!value_eq(&v, &ints(&[1, 2])));
    let e = Expr::Call(Call { name: "f".into(), args: vec![Expr::Lit(v)] });
    let e2 = copy_expr(&e);
    assert!(expr_eq(&e, &e2));
    let other = Expr::Call(Call { name: "g".into(), args: vec![] });
    assert!(!expr_eq(&e, &other));
}

use monadb::binder::{is_aggregate, Binder};
use monadb::compiler::Compiler;
use monadb::error::Error;
use monadb::ir::{
    AggKind, Call, Clear, Constructor, Delete, Drop, Expr, Insert, Jpe, Key, Member, Select,
    Source, Statement, Subscript, TableDefinition, Type, Unpivot, Var,
};
use monadb::value::Value;

fn users() -> TableDefinition {
    TableDefinition {
        oid: Some(3),
        name: "users".into(),
        keys: vec![Key { name: "id".into(), ty: Type::Int }],
    }
}

fn logs() -> TableDefinition {
    TableDefinition { oid: Some(4), name: "logs".into(), keys: vec![] }
}

fn binder() -> Binder {
    Binder::new(vec![users(), logs()])
}

fn unbound(name: &str) -> Expr {
    Expr::Var(Var { name: name.into(), bind: None })
}

fn table(name: &str) -> monadb::ir::From {
    monadb::ir::From { src: Source::Table(name.into()), var: name.into(), csr: None, oid: None }
}

fn select(from: Vec<monadb::ir::From>, select: Constructor) -> Select {
    Select { from, where_: None, group: None, having: None, order: None, limit: None, select }
}

fn call(name: &str, args: Vec<Expr>) -> Expr {
    Expr::Call(Call { name: name.into(), args })
}

#[test]
fn is_aggregate_ignores_case() {
    assert_eq!(is_aggregate("count"), Some(AggKind::Count));
    assert_eq!(is_aggregate("SUM"), Some(AggKind::Sum));
    assert_eq!(is_aggregate("Avg"), Some(AggKind::Avg));
    assert_eq!(is_aggregate("upper"), None);
}

#[test]
fn binds_table_source_and_variable() {
    let s = select(vec![table("users")], Constructor::Expr(unbound("users")));
    let bound = binder().bind(Statement::Select(s)).unwrap();
    let Statement::Select(q) = bound else { panic!("not a select") };
    assert_eq!(q.from[0].csr, Some(0));
    assert_eq!(q.from[0].oid, Some(3));
    assert!(matches!(q.select, Constructor::Expr(Expr::Var(Var { bind: Some(0), .. }))));
}

#[test]
fn unknown_table_is_unbound_table_error() {
    let s = select(vec![table("nope")], Constructor::Star);
    let r = binder().bind(Statement::Select(s));
    assert!(matches!(r, Err(Error::UnboundTable(n)) if n == "nope"));
}

#[test]
fn unresolved_variable_is_bind_error() {
    let s = select(vec![table("users")], Constructor::Expr(unbound("ghost")));
    let r = binder().bind(Statement::Select(s));
    assert!(matches!(r, Err(Error::BindError(m)) if m == "unresolved variable: ghost"));
}

#[test]
fn aggregate_in_where_is_rejected() {
    let mut s = select(vec![table("users")], Constructor::Star);
    s.where_ = Some(call("count", vec![unbound("users")]));
    let r = binder().bind(Statement::Select(s));
    assert!(matches!(r, Err(Error::BindError(m)) if m == "aggregate 'count' is not allowed here"));
}

#[test]
fn aggregate_in_projection_lowers_to_term() {
    let s = select(vec![table("users")], Constructor::Expr(call("SUM", vec![unbound("users")])));
    let bound = binder().bind(Statement::Select(s)).unwrap();
    let Statement::Select(q) = bound else { panic!("not a select") };
    match q.select {
        Constructor::Expr(Expr::Agg(a)) => {
            assert_eq!(a.kind, AggKind::Sum);
            assert!(a.slot.is_none());
            assert!(matches!(a.arg.as_deref(), Some(Expr::Var(Var { bind: Some(0), .. }))));
        },
        other => panic!("expected an aggregate, found {other:?}"),
    }
}

#[test]
fn aggregate_with_two_arguments_is_rejected() {
    let s = select(
        vec![table("users")],
        Constructor::Expr(call("max", vec![unbound("users"), unbound("users")])),
    );
    let r = binder().bind(Statement::Select(s));
    assert!(matches!(r, Err(Error::BindError(m)) if m == "aggregate 'max' takes exactly one argument"));
}

#[test]
fn nested_aggregate_is_rejected() {
    let inner = call("count", vec![unbound("users")]);
    let s = select(vec![table("users")], Constructor::Expr(call("sum", vec![inner])));
    let r = binder().bind(Statement::Select(s));
    assert!(matches!(r, Err(Error::BindError(_))));
}

#[test]
fn keyed_subscript_lowers_to_get() {
    let sub = Expr::Jpe(Jpe { inp: Box::new(unbound("users")), exp: Box::new(Expr::Lit(Value::Int(7))) });
    let s = select(vec![], Constructor::Expr(sub));
    let bound = binder().bind(Statement::Select(s)).unwrap();
    let Statement::Select(q) = bound else { panic!("not a select") };
    match q.select {
        Constructor::Expr(Expr::Get(g)) => {
            assert_eq!(g.oid, 3);
            assert_eq!(g.csr, 0);
            assert_eq!(g.keys.len(), 1);
            assert!(matches!(g.args[0], Value::Int(7)));
        },
        other => panic!("expected a keyed lookup, found {other:?}"),
    }
}

#[test]
fn keyless_table_subscript_is_bind_error() {
    let sub = Expr::Jpe(Jpe { inp: Box::new(unbound("logs")), exp: Box::new(Expr::Lit(Value::Int(1))) });
    let r = binder().bind(Statement::Select(select(vec![], Constructor::Expr(sub))));
    assert!(matches!(r, Err(Error::BindError(m)) if m == "table 'logs' has no key columns to index"));
}

#[test]
fn too_long_key_tuple_is_bind_error() {
    let sub = Expr::Subscript(Subscript {
        base: Box::new(unbound("users")),
        args: vec![Expr::Lit(Value::Int(1)), Expr::Lit(Value::Int(2))],
    });
    let r = binder().bind(Statement::Select(select(vec![], Constructor::Expr(sub))));
    assert!(
        matches!(r, Err(Error::BindError(m)) if m == "key tuple of 2 exceeds 1 key column(s) of table 'users'")
    );
}

#[test]
fn non_literal_key_is_unsupported() {
    let sub = Expr::Jpe(Jpe { inp: Box::new(unbound("users")), exp: Box::new(call("now", vec![])) });
    let r = binder().bind(Statement::Select(select(vec![], Constructor::Expr(sub))));
    assert!(matches!(r, Err(Error::Unsupported(m)) if m == "keyed access requires literal keys"));
}

#[test]
fn binding_shadows_a_table_subscript() {
    let sub = Expr::Jpe(Jpe { inp: Box::new(unbound("users")), exp: Box::new(Expr::Lit(Value::Int(0))) });
    let s = select(vec![table("users")], Constructor::Expr(sub));
    let bound = binder().bind(Statement::Select(s)).unwrap();
    let Statement::Select(q) = bound else { panic!("not a select") };
    assert!(matches!(q.select, Constructor::Expr(Expr::Jpe(_))));
}

#[test]
fn unpivot_binds_value_and_attribute_cursors() {
    let up = Unpivot { expr: Box::new(unbound("users")), val_csr: None, att: Some("k".into()), att_csr: None };
    let from = vec![table("users"), monadb::ir::From { src: Source::Unpivot(up), var: "v".into(), csr: None, oid: None }];
    let proj = Constructor::List(vec![
        Member::Assign("v".into(), unbound("v")),
        Member::Assign("k".into(), unbound("k")),
    ]);
    let bound = binder().bind(Statement::Select(select(from, proj))).unwrap();
    let Statement::Select(q) = bound else { panic!("not a select") };
    assert_eq!(q.from[1].csr, Some(1));
    match &q.from[1].src {
        Source::Unpivot(u) => {
            assert_eq!(u.val_csr, Some(2));
            assert_eq!(u.att_csr, Some(3));
        },
        _ => panic!("not an unpivot"),
    }
}

#[test]
fn value_source_needs_an_alias() {
    let from = monadb::ir::From { src: Source::Value(Box::new(Expr::Array(vec![]))), var: "".into(), csr: None, oid: None };
    let r = binder().bind(Statement::Select(select(vec![from], Constructor::Star)));
    assert!(matches!(r, Err(Error::BindError(m)) if m == "value source requires an alias"));
}

#[test]
fn insert_resolves_target_keys() {
    let target = TableDefinition { oid: None, name: "users".into(), keys: vec![] };
    let ins = Insert { target, source: vec![Expr::Lit(Value::Int(1))] };
    let bound = binder().bind(Statement::Insert(ins)).unwrap();
    let Statement::Insert(i) = bound else { panic!("not an insert") };
    assert_eq!(i.target.oid, Some(3));
    assert_eq!(i.target.keys.len(), 1);
}

#[test]
fn drop_and_clear_resolve_oids() {
    let d = binder().bind(Statement::Drop(Drop { name: "logs".into(), oid: None })).unwrap();
    assert!(matches!(d, Statement::Drop(Drop { oid: Some(4), .. })));
    let c = binder().bind(Statement::Clear(Clear { name: "users".into(), oid: None })).unwrap();
    assert!(matches!(c, Statement::Clear(Clear { oid: Some(3), .. })));
}

#[test]
fn bound_delete_compiles() {
    let del = Delete { from: table("users"), where_: Some(Expr::Lit(Value::Bool(true))) };
    let bound = binder().bind(Statement::Delete(del)).unwrap();
    let p = Compiler::new().compile(bound).unwrap();
    assert!(p.instructions.len() > 4);
}

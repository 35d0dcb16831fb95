use monadb::compiler::{operator_op, plan, Compiler, OpLookup, Plan, Program, TransactionMode, Vop};
use monadb::error::Error;
use monadb::ir::{
    Agg, AggKind, Call, Clear, Constructor, Create, Delete, Drop, Expr, GroupBy, Insert, Key,
    Limit, Member, OrderBy, OrderKey, Pivot, Select, Source, Statement, TableDefinition, Type,
    Unpivot, Var,
};
use monadb::value::Value;

fn find(code: &[Vop], pred: impl Fn(&Vop) -> bool) -> usize {
    code.iter()
        .position(pred)
        .unwrap_or_else(|| panic!("no instruction matched in {code:#?}"))
}

fn count(code: &[Vop], pred: impl Fn(&Vop) -> bool) -> usize {
    code.iter().filter(|op| pred(op)).count()
}

fn var(name: &str, bind: u32) -> Expr {
    Expr::Var(Var { name: name.to_string(), bind: Some(bind) })
}

fn table_from(name: &str, csr: u32, oid: u32) -> monadb::ir::From {
    monadb::ir::From { src: Source::Table(name.to_string()), var: name.to_string(), csr: Some(csr), oid: Some(oid) }
}

fn value_from(items: Vec<i64>, alias: &str, csr: u32) -> monadb::ir::From {
    let arr = Expr::Array(items.into_iter().map(|n| Expr::Lit(Value::Int(n))).collect());
    monadb::ir::From { src: Source::Value(Box::new(arr)), var: alias.to_string(), csr: Some(csr), oid: None }
}

fn select_of(from: Vec<monadb::ir::From>, select: Constructor) -> Select {
    Select { from, where_: None, group: None, having: None, order: None, limit: None, select }
}

fn compile(stmt: Statement) -> Program {
    Compiler::new().compile(stmt).unwrap()
}

fn star_from_catalog() -> Select {
    select_of(vec![table_from("catalog", 0, 0)], Constructor::Star)
}

fn count_star() -> Expr {
    Expr::Agg(Agg { kind: AggKind::Count, arg: None, slot: None })
}

/// Checks the three-block layout: Init jumps to the transaction block, which
/// jumps back to the body's first instruction, and every jump lands inside.
fn check_layout(p: &Program, mode: TransactionMode) {
    let code = &p.instructions;
    let n = code.len();
    assert!(matches!(code[0], Vop::Init { jmp } if jmp == n - 2));
    assert!(matches!(code[n - 3], Vop::Halt));
    assert!(matches!(code[n - 2], Vop::Transaction { txm } if txm == mode));
    assert!(matches!(code[n - 1], Vop::Jump { jmp: 1 }));
    for op in code {
        let target = match op {
            Vop::Init { jmp } | Vop::Jump { jmp } | Vop::Next { jmp, .. } | Vop::Scan { jmp, .. }
            | Vop::Iter { jmp, .. } | Vop::If(jmp) | Vop::IfNot(jmp) | Vop::CntIfPos(_, jmp)
            | Vop::CntIfZero(_, jmp) | Vop::GroupBreak { jmp, .. } => Some(*jmp),
            _ => None,
        };
        if let Some(t) = target {
            assert!(t < n, "jump {t} leaves a program of {n} instructions");
        }
    }
}

#[test]
fn patch_non_jump_instruction_is_internal_error() {
    let mut c = Compiler::new();
    c.emit_halt();
    assert!(matches!(c.patch(0, 3), Err(Error::InternalError(_))));
}

#[test]
fn patch_out_of_range_pc_is_internal_error() {
    let mut c = Compiler::new();
    assert!(matches!(c.patch(0, 3), Err(Error::InternalError(_))));
}

#[test]
fn operator_op_resolves_binary_plus() {
    assert!(matches!(operator_op("+", 2), OpLookup::Op(Vop::Add)));
}

#[test]
fn operator_op_rejects_plus_with_wrong_arity() {
    assert!(matches!(operator_op("+", 3), OpLookup::BadArity));
}

#[test]
fn operator_op_in_list_needs_at_least_one_arg() {
    assert!(matches!(operator_op("in_list", 0), OpLookup::BadArity));
}

#[test]
fn operator_op_unknown_name_is_not_an_operator() {
    assert!(matches!(operator_op("hypot", 2), OpLookup::NotAnOperator));
}

#[test]
fn operator_op_in_list_counts_the_list() {
    assert!(matches!(operator_op("in_list", 4), OpLookup::Op(Vop::InList(3))));
    assert!(matches!(operator_op("between", 3), OpLookup::Op(Vop::Between)));
    assert!(matches!(operator_op("not", 1), OpLookup::Op(Vop::Not)));
}

#[test]
fn drop_table_program_is_exact() {
    let p = compile(Statement::Drop(Drop { name: "t".into(), oid: Some(7) }));
    assert!(p.mutates_catalog);
    assert_eq!(p.cursors, 1);
    let code = &p.instructions;
    assert_eq!(code.len(), 8);
    assert!(matches!(code[0], Vop::Init { jmp: 6 }));
    assert!(matches!(code[1], Vop::Open { csr: 0, tbl: 0 }));
    assert!(matches!(code[2], Vop::Push { val: Value::Oid(7) }));
    assert!(matches!(code[3], Vop::Delete { csr: 0 }));
    assert!(matches!(code[4], Vop::Clear { tbl: 7 }));
    assert!(matches!(code[5], Vop::Halt));
    assert!(matches!(code[6], Vop::Transaction { txm: TransactionMode::Write }));
    assert!(matches!(code[7], Vop::Jump { jmp: 1 }));
}

#[test]
fn clear_table_program_is_exact() {
    let p = compile(Statement::Clear(Clear { name: "t".into(), oid: Some(4) }));
    assert!(!p.mutates_catalog);
    let code = &p.instructions;
    assert_eq!(code.len(), 5);
    assert!(matches!(code[1], Vop::Clear { tbl: 4 }));
    check_layout(&p, TransactionMode::Write);
}

#[test]
fn create_table_emits_open_then_oid_btree_insert() {
    let def = TableDefinition {
        oid: None,
        name: "users".into(),
        keys: vec![Key { name: "id".into(), ty: Type::Int }],
    };
    let p = compile(Statement::Create(Create::Table(def)));
    assert!(p.mutates_catalog);
    check_layout(&p, TransactionMode::Write);
    let code = &p.instructions;
    assert!(matches!(code[1], Vop::Open { csr: 0, tbl: 0 }));
    match &code[2] {
        Vop::Push { val: Value::Object(fields) } => {
            assert_eq!(fields.len(), 3);
            assert_eq!(fields[0].key, "name");
            assert!(matches!(&fields[0].value, Value::String(s) if s.as_str() == "users"));
            assert_eq!(fields[1].key, "sql");
            assert!(
                matches!(&fields[1].value, Value::String(s) if s.as_str() == "create table users (\n  id int\n);")
            );
            assert_eq!(fields[2].key, "type");
            assert!(matches!(&fields[2].value, Value::String(s) if s.as_str() == "table"));
        },
        other => panic!("expected the catalog row, found {other:?}"),
    }
    assert!(matches!(code[3], Vop::NewOid { csr: 0 }));
    assert!(matches!(code[4], Vop::NewBtree));
    assert!(matches!(code[5], Vop::Insert { csr: 0 }));
}

#[test]
fn create_table_with_float_key_is_unsupported() {
    let def = TableDefinition {
        oid: None,
        name: "t".into(),
        keys: vec![Key { name: "x".into(), ty: Type::Float }],
    };
    let r = Compiler::new().compile(Statement::Create(Create::Table(def)));
    assert!(matches!(r, Err(Error::Unsupported(m)) if m == "key column 'x' must be int or string"));
}

#[test]
fn keyed_insert_emits_encode_key() {
    let target = TableDefinition {
        oid: Some(5),
        name: "t".into(),
        keys: vec![Key { name: "id".into(), ty: Type::Int }],
    };
    let row = Expr::Obj(vec![Member::Assign("id".into(), Expr::Lit(Value::Int(1)))]);
    let p = compile(Statement::Insert(Insert { target, source: vec![row] }));
    check_layout(&p, TransactionMode::Write);
    let code = &p.instructions;
    let enc = find(code, |op| matches!(op, Vop::EncodeKey { .. }));
    let ins = find(code, |op| matches!(op, Vop::Insert { .. }));
    assert!(enc < ins);
    assert_eq!(count(code, |op| matches!(op, Vop::NewOid { .. })), 0);
}

#[test]
fn keyless_insert_uses_fresh_ids() {
    let target = TableDefinition { oid: Some(5), name: "t".into(), keys: vec![] };
    let rows = vec![Expr::Lit(Value::Int(1)), Expr::Lit(Value::Int(2))];
    let p = compile(Statement::Insert(Insert { target, source: rows }));
    let code = &p.instructions;
    assert_eq!(count(code, |op| matches!(op, Vop::NewOid { .. })), 2);
    assert_eq!(count(code, |op| matches!(op, Vop::Insert { .. })), 2);
}

#[test]
fn select_star_from_catalog_scan_exhausts_into_halt() {
    let p = compile(Statement::Select(star_from_catalog()));
    assert_eq!(p.cursors, 1);
    check_layout(&p, TransactionMode::Read);
    let code = &p.instructions;
    let scan = find(code, |op| matches!(op, Vop::Scan { .. }));
    let Vop::Scan { jmp, .. } = code[scan] else { unreachable!() };
    assert!(matches!(code[jmp], Vop::Halt));
}

#[test]
fn select_star_from_catalog_control_flow_shape() {
    let p = compile(Statement::Select(star_from_catalog()));
    let code = &p.instructions;
    let open = find(code, |op| matches!(op, Vop::Open { .. }));
    let scan = find(code, |op| matches!(op, Vop::Scan { .. }));
    let load = find(code, |op| matches!(op, Vop::LoadVal { .. }));
    let yld = find(code, |op| matches!(op, Vop::Yield));
    let next = find(code, |op| matches!(op, Vop::Next { .. }));
    let halt = find(code, |op| matches!(op, Vop::Halt));
    assert!(open < scan && scan < load && load < yld && yld < next && next < halt);
    let Vop::Next { jmp, .. } = code[next] else { unreachable!() };
    assert!(jmp > scan && jmp <= load);
    assert_eq!(count(code, |op| matches!(op, Vop::Yield)), 1);
}

#[test]
fn select_where_true_predicate_skips_to_next() {
    let mut s = star_from_catalog();
    s.where_ = Some(Expr::Lit(Value::Bool(true)));
    let p = compile(Statement::Select(s));
    let code = &p.instructions;
    let scan = find(code, |op| matches!(op, Vop::Scan { .. }));
    let ifnot = find(code, |op| matches!(op, Vop::IfNot(..)));
    let yld = find(code, |op| matches!(op, Vop::Yield));
    assert!(scan < ifnot && ifnot < yld);
    let Vop::IfNot(t) = code[ifnot] else { unreachable!() };
    assert!(matches!(code[t], Vop::Next { .. }));
    let Vop::Scan { jmp, .. } = code[scan] else { unreachable!() };
    assert!(matches!(code[jmp], Vop::Halt));
}

#[test]
fn select_cursor_index_is_zero() {
    let s = select_of(vec![table_from("t", 0, 9)], Constructor::Expr(var("t", 0)));
    let p = compile(Statement::Select(s));
    let code = &p.instructions;
    assert!(matches!(code[find(code, |op| matches!(op, Vop::Open { .. }))], Vop::Open { csr: 0, tbl: 9 }));
    assert!(matches!(code[find(code, |op| matches!(op, Vop::LoadVal { .. }))], Vop::LoadVal { csr: 0 }));
}

#[test]
fn select_star_without_from_is_unsupported() {
    let r = Compiler::new().compile(Statement::Select(select_of(vec![], Constructor::Star)));
    assert!(matches!(r, Err(Error::Unsupported(m)) if m == "select * / select . requires a from clause"));
}

#[test]
fn select_value_without_from_yields_once() {
    let s = select_of(vec![], Constructor::Expr(Expr::Lit(Value::Int(1))));
    let p = compile(Statement::Select(s));
    let code = &p.instructions;
    assert!(matches!(code[1], Vop::Push { val: Value::Int(1) }));
    assert!(matches!(code[2], Vop::Yield));
    check_layout(&p, TransactionMode::Read);
}

#[test]
fn limit_slice_sets_skip_and_saturating_take() {
    let mut s = star_from_catalog();
    s.limit = Some(Limit::Slice(5, 3));
    let p = compile(Statement::Select(s));
    assert_eq!(p.counters, 2);
    let code = &p.instructions;
    assert!(matches!(code[1], Vop::CntSet(0, 5)));
    assert!(matches!(code[2], Vop::CntSet(1, 0)));
    let skip = find(code, |op| matches!(op, Vop::CntIfPos(..)));
    let Vop::CntIfPos(_, t) = code[skip] else { unreachable!() };
    assert!(matches!(code[t], Vop::Next { .. }));
    let take = find(code, |op| matches!(op, Vop::CntIfZero(..)));
    let Vop::CntIfZero(_, t) = code[take] else { unreachable!() };
    assert!(matches!(code[t], Vop::Halt));
}

#[test]
fn order_by_phase_two_sorts_then_drains_into_halt() {
    let mut s = star_from_catalog();
    s.order = Some(OrderBy { keys: vec![OrderKey { expr: var("catalog", 0), desc: true }] });
    let p = compile(Statement::Select(s));
    check_layout(&p, TransactionMode::Read);
    let code = &p.instructions;
    assert!(matches!(code[find(code, |op| matches!(op, Vop::OrderKey { .. }))], Vop::OrderKey { ref dirs } if dirs == &vec![true]));
    let scan = find(code, |op| matches!(op, Vop::Scan { .. }));
    let Vop::Scan { jmp, .. } = code[scan] else { unreachable!() };
    assert!(matches!(code[jmp], Vop::Close { .. }));
    let sort = find(code, |op| matches!(op, Vop::Sort));
    let iter = find(code, |op| matches!(op, Vop::Iter { .. }));
    assert!(sort < iter);
    let Vop::Iter { jmp, .. } = code[iter] else { unreachable!() };
    assert!(matches!(code[jmp], Vop::Halt));
    assert_eq!(count(code, |op| matches!(op, Vop::Yield)), 1);
}

#[test]
fn count_star_empty_table_exhausts_into_finalize() {
    let s = select_of(vec![table_from("t", 0, 2)], Constructor::Expr(count_star()));
    let p = compile(Statement::Select(s));
    check_layout(&p, TransactionMode::Read);
    assert_eq!(p.aggs, 1);
    let code = &p.instructions;
    let init = find(code, |op| matches!(op, Vop::AggInit { .. }));
    let scan = find(code, |op| matches!(op, Vop::Scan { .. }));
    assert!(init < scan);
    let Vop::Scan { jmp, .. } = code[scan] else { unreachable!() };
    assert!(matches!(code[jmp], Vop::AggFinal { slot: 0, kind: AggKind::Count }));
    let step = find(code, |op| matches!(op, Vop::AggStep { .. }));
    assert!(matches!(code[step - 1], Vop::Push { val: Value::Bool(true) }));
    assert_eq!(count(code, |op| matches!(op, Vop::Yield)), 1);
}

#[test]
fn repeated_aggregate_shares_one_slot() {
    let proj = Constructor::List(vec![
        Member::Assign("a".into(), count_star()),
        Member::Assign("b".into(), count_star()),
    ]);
    let p = compile(Statement::Select(select_of(vec![table_from("t", 0, 2)], proj)));
    assert_eq!(p.aggs, 1);
    assert_eq!(count(&p.instructions, |op| matches!(op, Vop::AggStep { .. })), 1);
}

#[test]
fn bare_reference_in_aggregate_is_unsupported() {
    let proj = Constructor::List(vec![
        Member::Assign("n".into(), count_star()),
        Member::Assign("t".into(), var("t", 0)),
    ]);
    let r = Compiler::new().compile(Statement::Select(select_of(vec![table_from("t", 0, 2)], proj)));
    assert!(matches!(r, Err(Error::Unsupported(m)) if m == "non-aggregate reference mixed with aggregates"));
}

#[test]
fn group_by_flushes_groups_and_exhausts_into_done() {
    let key = Expr::Jpi(monadb::ir::Jpi { inp: Box::new(var("t", 0)), idx: 0 });
    let proj = Constructor::List(vec![
        Member::Assign("k".into(), Expr::Jpi(monadb::ir::Jpi { inp: Box::new(var("t", 0)), idx: 0 })),
        Member::Assign("n".into(), count_star()),
    ]);
    let mut s = select_of(vec![table_from("t", 0, 2)], proj);
    s.group = Some(GroupBy { keys: vec![key] });
    let p = compile(Statement::Select(s));
    check_layout(&p, TransactionMode::Read);
    assert_eq!(p.aggs, 3);
    let code = &p.instructions;
    assert_eq!(count(code, |op| matches!(op, Vop::Yield)), 2);
    let brk = find(code, |op| matches!(op, Vop::GroupBreak { .. }));
    let Vop::GroupBreak { jmp, .. } = code[brk] else { unreachable!() };
    assert!(jmp > brk);
    let iter = find(code, |op| matches!(op, Vop::Iter { .. }));
    let Vop::Iter { jmp, .. } = code[iter] else { unreachable!() };
    assert!(matches!(code[jmp], Vop::Halt));
}

#[test]
fn group_by_over_a_value_source_has_the_exact_layout() {
    let from = monadb::ir::From {
        src: Source::Value(Box::new(Expr::Array(vec![]))),
        var: "x".into(),
        csr: Some(0),
        oid: None,
    };
    let mut s = select_of(vec![from], Constructor::Expr(var("x", 0)));
    s.group = Some(GroupBy { keys: vec![var("x", 0)] });
    let p = compile(Statement::Select(s));
    check_layout(&p, TransactionMode::Read);
    let code = &p.instructions;
    // The body sits after the leading `Init`, so each target is one further on.
    assert_eq!(code.len(), 44 + 4);
    assert!(matches!(code[4 + 1], Vop::Iter { csr: 0, jmp: 16 }));
    assert!(matches!(code[17 + 1], Vop::Iter { csr: 1, jmp: 45 }));
    assert!(matches!(code[20 + 1], Vop::GroupBreak { slot: 0, jmp: 30 }));
    assert!(matches!(code[36 + 1], Vop::Next { csr: 1, jmp: 19 }));
    assert!(matches!(code[44 + 1], Vop::Halt));
    assert_eq!(count(code, |op| matches!(op, Vop::Yield)), 2);
    assert_eq!(p.cursors, 3);
    assert_eq!(p.aggs, 2);
}

#[test]
fn group_by_star_is_unsupported() {
    let mut s = select_of(vec![table_from("t", 0, 2)], Constructor::Star);
    s.group = Some(GroupBy { keys: vec![var("t", 0)] });
    let r = Compiler::new().compile(Statement::Select(s));
    assert!(matches!(r, Err(Error::Unsupported(_))));
}

#[test]
fn pivot_folds_into_a_single_object() {
    let pivot = Pivot { value: Box::new(var("t", 0)), name: Box::new(Expr::Lit(Value::String("k".into()))) };
    let s = select_of(vec![table_from("t", 0, 2)], Constructor::Pivot(pivot));
    let p = compile(Statement::Select(s));
    check_layout(&p, TransactionMode::Read);
    let code = &p.instructions;
    assert!(matches!(code[1], Vop::Obj));
    assert_eq!(count(code, |op| matches!(op, Vop::ObjSet)), 1);
    assert_eq!(count(code, |op| matches!(op, Vop::Yield)), 1);
    let scan = find(code, |op| matches!(op, Vop::Scan { .. }));
    let Vop::Scan { jmp, .. } = code[scan] else { unreachable!() };
    assert!(matches!(code[jmp], Vop::Yield));
}

#[test]
fn unpivot_lowers_to_entries_iter_and_seed() {
    let src = Unpivot { expr: Box::new(var("t", 0)), val_csr: Some(2), att: Some("k".into()), att_csr: Some(3) };
    let from = vec![
        table_from("t", 0, 2),
        monadb::ir::From { src: Source::Unpivot(src), var: "v".into(), csr: Some(1), oid: None },
    ];
    let p = compile(Statement::Select(select_of(from, Constructor::Identity)));
    check_layout(&p, TransactionMode::Read);
    let code = &p.instructions;
    let entries = find(code, |op| matches!(op, Vop::Entries));
    assert!(matches!(code[entries + 1], Vop::Iter { csr: 1, .. }));
    assert!(matches!(code[find(code, |op| matches!(op, Vop::SetVal { .. }))], Vop::SetVal { csr: 2 }));
    assert_eq!(count(code, |op| matches!(op, Vop::ObjAssign(_))), 3);
}

#[test]
fn nested_loop_two_value_sources_exhaust_topology() {
    let from = vec![value_from(vec![1, 2], "x", 0), value_from(vec![3, 4], "y", 1)];
    let p = compile(Statement::Select(select_of(from, Constructor::Expr(var("x", 0)))));
    check_layout(&p, TransactionMode::Read);
    let code = &p.instructions;
    let iters: Vec<usize> = (0..code.len()).filter(|&i| matches!(code[i], Vop::Iter { .. })).collect();
    let nexts: Vec<usize> = (0..code.len()).filter(|&i| matches!(code[i], Vop::Next { .. })).collect();
    assert_eq!(iters.len(), 2);
    assert_eq!(nexts.len(), 2);
    let Vop::Iter { jmp: inner_exit, .. } = code[iters[1]] else { unreachable!() };
    assert!(matches!(code[inner_exit], Vop::Next { csr: 0, .. }));
    let Vop::Iter { jmp: outer_exit, .. } = code[iters[0]] else { unreachable!() };
    assert!(matches!(code[outer_exit], Vop::Halt));
    assert_eq!(count(code, |op| matches!(op, Vop::Yield)), 1);
}

#[test]
fn delete_where_two_phase_structure() {
    let del = Delete {
        from: table_from("t", 0, 3),
        where_: Some(Expr::Lit(Value::Bool(true))),
    };
    let p = compile(Statement::Delete(del));
    check_layout(&p, TransactionMode::Write);
    let code = &p.instructions;
    let scan = find(code, |op| matches!(op, Vop::Scan { .. }));
    let Vop::Scan { jmp, .. } = code[scan] else { unreachable!() };
    assert!(matches!(code[jmp], Vop::Close { csr: 0 }));
    let ifnot = find(code, |op| matches!(op, Vop::IfNot(..)));
    let Vop::IfNot(t) = code[ifnot] else { unreachable!() };
    assert!(matches!(code[t], Vop::Next { csr: 0, .. }));
    let iter = find(code, |op| matches!(op, Vop::Iter { .. }));
    let Vop::Iter { jmp, .. } = code[iter] else { unreachable!() };
    assert!(matches!(code[jmp], Vop::Halt));
    assert!(matches!(code[iter + 2], Vop::Delete { csr: 0 }));
}

#[test]
fn delete_of_unbound_target_is_internal_error() {
    let del = Delete {
        from: monadb::ir::From { src: Source::Table("t".into()), var: "t".into(), csr: None, oid: Some(1) },
        where_: None,
    };
    let r = Compiler::new().compile(Statement::Delete(del));
    assert!(matches!(r, Err(Error::InternalError(_))));
}

#[test]
fn unknown_function_is_an_error() {
    let call = Expr::Call(Call { name: "no_such_fn".into(), args: vec![] });
    let r = Compiler::new().compile(Statement::Select(select_of(vec![], Constructor::Expr(call))));
    assert!(matches!(r, Err(Error::UnknownFunction(n)) if n == "no_such_fn"));
}

#[test]
fn plan_streams_a_plain_select() {
    assert_eq!(plan(&star_from_catalog()), Plan::Stream);
}

#[test]
fn plan_detects_order_by() {
    let mut s = star_from_catalog();
    s.order = Some(OrderBy { keys: vec![] });
    assert_eq!(plan(&s), Plan::Order);
}

#[test]
fn plan_detects_aggregate_projection() {
    let s = select_of(vec![table_from("t", 0, 1)], Constructor::Expr(count_star()));
    assert_eq!(plan(&s), Plan::Aggregate);
}

#[test]
fn plan_having_without_aggregate_is_aggregate() {
    let mut s = star_from_catalog();
    s.having = Some(Expr::Lit(Value::Bool(true)));
    assert_eq!(plan(&s), Plan::Aggregate);
}

#[test]
fn plan_group_by_beats_aggregate() {
    let mut s = select_of(vec![table_from("t", 0, 1)], Constructor::Expr(count_star()));
    s.group = Some(GroupBy { keys: vec![] });
    assert_eq!(plan(&s), Plan::Group);
}

#[test]
fn plan_pivot_beats_aggregate() {
    let pivot = Pivot { value: Box::new(count_star()), name: Box::new(Expr::Lit(Value::Null)) };
    let s = select_of(vec![table_from("t", 0, 1)], Constructor::Pivot(pivot));
    assert_eq!(plan(&s), Plan::Pivot);
}

#[test]
fn delete_where_program_is_exact() {
    let del = Delete { from: table_from("t", 0, 3), where_: Some(Expr::Lit(Value::Bool(true))) };
    let p = compile(Statement::Delete(del));
    let code = &p.instructions;
    assert_eq!(code.len(), 17);
    assert!(matches!(code[0], Vop::Init { jmp: 15 }));
    assert!(matches!(code[1], Vop::Arr));
    assert!(matches!(code[2], Vop::Open { csr: 0, tbl: 3 }));
    assert!(matches!(code[3], Vop::Scan { csr: 0, jmp: 9, .. }));
    assert!(matches!(code[4], Vop::Push { val: Value::Bool(true) }));
    assert!(matches!(code[5], Vop::IfNot(8)));
    assert!(matches!(code[6], Vop::LoadKey { csr: 0 }));
    assert!(matches!(code[7], Vop::ArrPush));
    assert!(matches!(code[8], Vop::Next { csr: 0, jmp: 4 }));
    assert!(matches!(code[9], Vop::Close { csr: 0 }));
    assert!(matches!(code[10], Vop::Iter { csr: 1, jmp: 14 }));
    assert!(matches!(code[11], Vop::LoadVal { csr: 1 }));
    assert!(matches!(code[12], Vop::Delete { csr: 0 }));
    assert!(matches!(code[13], Vop::Next { csr: 1, jmp: 11 }));
    assert!(matches!(code[14], Vop::Halt));
}

#[test]
fn insert_object_row_code_is_exact() {
    let target = TableDefinition { oid: Some(3), name: "t".into(), keys: vec![] };
    let row = Expr::Obj(vec![
        Member::Assign("a".into(), Expr::Lit(Value::Int(1))),
        Member::Spread(var("x", 4)),
    ]);
    let p = compile(Statement::Insert(Insert { target, source: vec![row] }));
    let code = &p.instructions;
    assert_eq!(code.len(), 12);
    assert!(matches!(code[1], Vop::Open { csr: 0, tbl: 3 }));
    assert!(matches!(code[2], Vop::Obj));
    assert!(matches!(code[3], Vop::Push { val: Value::Int(1) }));
    assert!(matches!(&code[4], Vop::ObjAssign(k) if k == "a"));
    assert!(matches!(code[5], Vop::LoadVal { csr: 4 }));
    assert!(matches!(code[6], Vop::ObjSpread));
    assert!(matches!(code[7], Vop::NewOid { csr: 0 }));
    assert!(matches!(code[8], Vop::Insert { csr: 0 }));
    assert!(matches!(code[9], Vop::Halt));
}

#[test]
fn insert_of_unknown_function_fails() {
    let target = TableDefinition { oid: Some(3), name: "t".into(), keys: vec![] };
    let row = Expr::Call(Call { name: "+".into(), args: vec![Expr::Lit(Value::Int(1))] });
    let r = Compiler::new().compile(Statement::Insert(Insert { target, source: vec![row] }));
    assert!(matches!(r, Err(Error::UnknownFunction(n)) if n == "+"));
}

#[test]
fn default_compiler_compiles_like_a_new_one() {
    let p = Compiler::default().compile(Statement::Select(star_from_catalog())).unwrap();
    let q = Compiler::new().compile(Statement::Select(star_from_catalog())).unwrap();
    assert_eq!(p.instructions.len(), q.instructions.len());
    assert_eq!(p.cursors, q.cursors);
}

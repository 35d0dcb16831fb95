//! IR types and the parser action functions that build them.
//!
//! The grammar's actions call the functions here to construct nodes; the
//! binder then annotates them (cursor slots, table oids) and the compiler
//! lowers them to bytecode.
use vstd::prelude::*;

use vstd::utf8::encode_utf8;

use crate::value::Value;

verus! {

/// A top-level SQL statement — the unit the compiler turns into a program.
#[derive(Debug)]
pub enum Statement {
    Clear(Clear),
    Create(Create),
    Delete(Delete),
    Drop(Drop),
    Insert(Insert),
    Select(Select),
}

/// A CREATE statement. (`CREATE TABLE` is the only form today.)
#[derive(Debug)]
pub enum Create {
    Table(TableDefinition),
}

/// An INSERT of one or more row expressions into a table.
#[derive(Debug)]
pub struct Insert {
    pub target: TableDefinition,
    pub source: Vec<Expr>,
}

/// A DELETE of the `from` rows matching the optional `where_`.
#[derive(Debug)]
pub struct Delete {
    pub from: From,
    pub where_: Option<Expr>,
}

/// A DROP TABLE of the named table.
#[derive(Debug)]
pub struct Drop {
    pub name: String,
    pub oid: Option<u32>,
}

/// A CLEAR, emptying the named table's rows but keeping its definition.
#[derive(Debug)]
pub struct Clear {
    pub name: String,
    pub oid: Option<u32>,
}

/// A table's name and its declared key columns (the composite key, in order).
#[derive(Debug)]
pub struct TableDefinition {
    pub oid: Option<u32>,
    pub name: String,
    pub keys: Vec<Key>,
}

/// One key column: a name and its declared type (int or string).
#[derive(Debug)]
pub struct Key {
    pub name: String,
    pub ty: Type,
}

/// A SELECT query: its from-sources, residual filter, grouping, group filter,
/// order, limit, and projection. Clauses run in order —
/// from → where → group → having → order → limit → select.
#[derive(Debug)]
pub struct Select {
    pub from: Vec<From>,
    pub where_: Option<Expr>,
    pub group: Option<GroupBy>,
    pub having: Option<Expr>,
    pub order: Option<OrderBy>,
    pub limit: Option<Limit>,
    pub select: Constructor,
}

/// A GROUP BY clause: its grouping key expressions, most significant first.
#[derive(Debug)]
pub struct GroupBy {
    pub keys: Vec<Expr>,
}

/// The projection form of a SELECT.
#[derive(Debug)]
pub enum Constructor {
    /// Identity `.` — project the binding tuple as an object.
    Identity,
    /// Spread `*` — merge all bindings into one object.
    Star,
    /// A single expression value.
    Expr(Expr),
    /// An explicit `{ k: v, ... }` member list.
    List(Vec<Member>),
    /// `pivot value at name` — fold the whole binding stream into one object.
    Pivot(Pivot),
}

/// The two expressions of a `pivot value at name` projection.
#[derive(Debug)]
pub struct Pivot {
    pub value: Box<Expr>,
    pub name: Box<Expr>,
}

/// A from-clause source: a named table, an evaluated value to iterate, or an
/// `unpivot` over the attribute-value pairs of a tuple.
#[derive(Debug)]
pub enum Source {
    Table(String),
    Value(Box<Expr>),
    Unpivot(Unpivot),
}

/// An `unpivot expr as value at name` source.
#[derive(Debug)]
pub struct Unpivot {
    pub expr: Box<Expr>,
    pub val_csr: Option<u32>,
    pub att: Option<String>,
    pub att_csr: Option<u32>,
}

/// One from-item: a source bound to an alias, plus binder-assigned slots.
#[derive(Debug)]
pub struct From {
    pub src: Source,
    pub var: String,
    pub csr: Option<u32>,
    pub oid: Option<u32>,
}

/// A LIMIT clause as a half-open row range `[skip, skip+take)`.
#[derive(Debug)]
pub enum Limit {
    /// `limit N..` — skip the first N rows.
    Skip(u64),
    /// `limit N` — take at most N rows.
    Take(u64),
    /// `limit N..M` — skip N, then take up to `M - N`.
    Slice(u64, u64),
}

/// An ORDER BY clause: its sort keys, most significant first.
#[derive(Debug)]
pub struct OrderBy {
    pub keys: Vec<OrderKey>,
}

/// One ORDER BY key: the sort expression and its direction.
#[derive(Debug)]
pub struct OrderKey {
    pub expr: Expr,
    /// `true` sorts this key descending; `false` (the default) ascending.
    pub desc: bool,
}

/// Whether a variable reference resolves to a table or a field at a cursor.
#[derive(Debug)]
pub enum Scope {
    Table,
    Field,
}

/// Variable references are either to tables or a field at a cursor.
#[derive(Debug)]
pub struct Var {
    /// The reference name we get from parsing.
    pub name: String,
    /// The bound cursor slot, or `None` until the binder resolves it.
    pub bind: Option<u32>,
}

/// A declared column or value type.
#[derive(Debug)]
pub enum Type {
    Any,
    Bool,
    Int,
    Float,
    Number,
    String,
    Object(TObject),
    Array,
}

/// A structural object type: its named members.
#[derive(Debug)]
pub struct TObject {
    pub members: Vec<TMember>,
}

/// One member of an object type: a name and its type.
#[derive(Debug)]
pub struct TMember {
    pub name: String,
    pub ty: Box<Type>,
}

/// A JSONPath: a root identifier followed by navigation segments.
#[derive(Debug)]
pub struct Path {
    pub identifier: String,
    pub segments: Vec<Segment>,
}

/// One path segment: a child step (`.x`) or a recursive descent (`..x`).
#[derive(Debug)]
pub enum Segment {
    Child(Vec<Selector>),
    Descd(Vec<Selector>),
}

/// A selector within a segment: a name, a `*` wildcard, or an array index.
#[derive(Debug)]
pub enum Selector {
    Name(String),
    Wildcard,
    Index(usize),
}

/// An expression node — the value-producing core of the IR.
#[derive(Debug)]
pub enum Expr {
    /// A builtin operator/function call.
    Call(Call),
    /// Path index `input[i]`.
    Jpi(Jpi),
    /// Path key `input.key`.
    Jpk(Jpk),
    /// Computed path step `input[expr]`.
    Jpe(Jpe),
    /// A literal value.
    Lit(Value),
    /// An object constructor.
    Obj(Vec<Member>),
    /// An array constructor.
    Array(Vec<Expr>),
    /// A variable reference.
    Var(Var),
    /// Raw multi-element subscript `base[a, b, ...]` (>= 2 args).
    Subscript(Subscript),
    /// A bound keyed-table point lookup (`table[key, ...]`).
    Get(Get),
    /// An aggregate term (`count(*)`, `sum(x)`, …).
    Agg(Agg),
}

/// The supported aggregate functions. `First` is compiler-internal: it keeps
/// the first value folded into the accumulator.
#[derive(Debug, Clone, Copy, PartialEq, Eq, Structural)]
pub enum AggKind {
    Count,
    Sum,
    Min,
    Max,
    Avg,
    First,
}

/// A bound aggregate term: its kind, its argument (`None` is `count(*)`), and
/// the accumulator slot.
#[derive(Debug)]
pub struct Agg {
    pub kind: AggKind,
    pub arg: Option<Box<Expr>>,
    pub slot: Option<usize>,
}

/// A builtin call: an operator/function name and its argument expressions.
#[derive(Debug)]
pub struct Call {
    pub name: String,
    pub args: Vec<Expr>,
}

/// One object-constructor member: a `k: v` assignment or a `...spread`.
#[derive(Debug)]
pub enum Member {
    Assign(String, Expr),
    Spread(Expr),
}

/// A path index `input[idx]`.
#[derive(Debug)]
pub struct Jpi {
    pub inp: Box<Expr>,
    pub idx: usize,
}

/// A path key `input.key`.
#[derive(Debug)]
pub struct Jpk {
    pub inp: Box<Expr>,
    pub key: String,
}

/// A computed path step `input[exp]`.
#[derive(Debug)]
pub struct Jpe {
    pub inp: Box<Expr>,
    pub exp: Box<Expr>,
}

/// The raw parser node for a multi-element subscript `base[args...]`.
#[derive(Debug)]
pub struct Subscript {
    pub base: Box<Expr>,
    pub args: Vec<Expr>,
}

/// A bound keyed-table point lookup: the literal key values in key column
/// order.
#[derive(Debug)]
pub struct Get {
    pub csr: u32,
    pub oid: u32,
    pub keys: Vec<Key>,
    pub args: Vec<Value>,
}

/// A comparison operator of a quantified comparison.
#[derive(Debug, Clone, Copy, PartialEq, Eq, Structural)]
pub enum CmpOp {
    Lt,
    Le,
    Eq,
    Ne,
    Gt,
    Ge,
}

/// A query-parameter placeholder, resolved to a bound value at run time.
#[derive(Debug)]
pub enum Param {
    /// `?` (a parse-assigned 1-based index, in source order) or an explicit
    /// `$N` — resolved from the supplied positional list.
    Numbered(u32),
    /// `$name` — resolved from the supplied named map.
    Named(String),
}

impl Var {
    /// Creates an unbound field-first reference.
    pub fn unbound(name: &str) -> (r: Self)
        ensures
            r.name@ == name@,
            r.bind is None,
    {
        Var { name: String::from_str(name), bind: None }
    }
}

} // verus!

verus! {

//------------------------------
// Parser actions
//------------------------------

/// Builds a CREATE TABLE from a table definition.
pub fn create_table(table: TableDefinition) -> (r: Create)
    ensures
        r == Create::Table(table),
{
    Create::Table(table)
}

/// Builds a table definition from a name and its key columns.
pub fn table_definition(name: String, members: Vec<Key>) -> (r: TableDefinition)
    ensures
        r == (TableDefinition { oid: None, name, keys: members }),
{
    TableDefinition { oid: None, name, keys: members }
}

/// Builds one key column from a name and type.
pub fn table_key(name: String, ty: Type) -> (r: Key)
    ensures
        r == (Key { name, ty }),
{
    Key { name, ty }
}

/// Builds an INSERT into the named table from row expressions.
pub fn insert(target: String, source: Vec<Expr>) -> (r: Insert)
    ensures
        r.target.oid is None,
        r.target.name == target,
        r.target.keys@.len() == 0,
        r.source == source,
{
    Insert { target: TableDefinition { oid: None, name: target, keys: Vec::new() }, source }
}

/// Builds a DELETE from a table, optional alias, and optional WHERE; the
/// alias defaults to the table's name.
pub fn delete(table: String, alias: Option<String>, where_: Option<Expr>) -> (r: Delete)
    ensures
        r.from.src == Source::Table(table),
        r.from.var == (match alias {
            Some(a) => a,
            None => table,
        }),
        r.from.csr is None,
        r.from.oid is None,
        r.where_ == where_,
{
    let var = match alias {
        Some(a) => a,
        None => table.clone(),
    };
    let from = From { var, src: Source::Table(table), csr: None, oid: None };
    Delete { from, where_ }
}

/// Builds a DROP TABLE for the named table.
pub fn drop_table(name: String) -> (r: Drop)
    ensures
        r == (Drop { name, oid: None }),
{
    Drop { name, oid: None }
}

/// Builds a CLEAR for the named table.
pub fn clear_table(name: String) -> (r: Clear)
    ensures
        r == (Clear { name, oid: None }),
{
    Clear { name, oid: None }
}

/// Builds a from-less `select <value>`.
pub fn select_value(projection: Constructor) -> (r: Select)
    ensures
        r.from@.len() == 0,
        r.where_ is None,
        r.group is None,
        r.having is None,
        r.order is None,
        r.limit is None,
        r.select == projection,
{
    Select {
        from: Vec::new(),
        where_: None,
        group: None,
        having: None,
        order: None,
        limit: None,
        select: projection,
    }
}

/// Builds a SELECT, attaching a projection to a parsed from/where/group/having/
/// order/limit block.
pub fn select(projection: Constructor, block: Select) -> (r: Select)
    ensures
        r == (Select { select: projection, ..block }),
{
    Select {
        from: block.from,
        where_: block.where_,
        group: block.group,
        having: block.having,
        order: block.order,
        limit: block.limit,
        select: projection,
    }
}

/// Builds a `pivot value at name <block>` query: the block keeps its clauses,
/// the projection becomes a [`Constructor::Pivot`].
pub fn pivot(value: Expr, name: Expr, block: Select) -> (r: Select)
    ensures
        r == (Select {
            select: Constructor::Pivot(Pivot { value: Box::new(value), name: Box::new(name) }),
            ..block
        }),
{
    Select {
        from: block.from,
        where_: block.where_,
        group: block.group,
        having: block.having,
        order: block.order,
        limit: block.limit,
        select: Constructor::Pivot(Pivot { value: Box::new(value), name: Box::new(name) }),
    }
}

/// Builds the from/where/group/having/order/limit block; the projection is
/// filled in later.
pub fn select_block(
    from: Vec<From>,
    where_: Option<Expr>,
    group: Option<GroupBy>,
    having: Option<Expr>,
    order: Option<OrderBy>,
    limit: Option<Limit>,
) -> (r: Select)
    ensures
        r == (Select { from, where_, group, having, order, limit, select: Constructor::Identity }),
{
    Select { from, where_, group, having, order, limit, select: Constructor::Identity }
}

/// Builds a GROUP BY from its key expressions.
pub fn group_by(keys: Vec<Expr>) -> (r: GroupBy)
    ensures
        r == (GroupBy { keys }),
{
    GroupBy { keys }
}

/// Builds an ORDER BY from its keys.
pub fn order_by(keys: Vec<OrderKey>) -> (r: OrderBy)
    ensures
        r == (OrderBy { keys }),
{
    OrderBy { keys }
}

/// Builds one ORDER BY key, defaulting to ascending when no direction is given.
pub fn order_key(expr: Expr, desc: Option<bool>) -> (r: OrderKey)
    ensures
        r == (OrderKey { expr, desc: desc.unwrap_or(false) }),
{
    OrderKey { expr, desc: desc.unwrap_or(false) }
}

/// Builds a projected `expr as name` member.
pub fn select_item(expr: Expr, name: String) -> (r: Member)
    ensures
        r == Member::Assign(name, expr),
{
    Member::Assign(name, expr)
}

/// Builds a from-item: a bare variable becomes a table reference named by
/// it (the alias defaulting to that name), any other expression a value
/// source (the alias defaulting to empty).
pub fn from_item(src: Expr, alias: Option<String>) -> (r: From)
    ensures
        r.csr is None,
        r.oid is None,
        match src {
            Expr::Var(v) => {
                &&& r.src == Source::Table(v.name)
                &&& r.var == (match alias {
                    Some(a) => a,
                    None => v.name,
                })
            },
            _ => {
                &&& r.src == Source::Value(Box::new(src))
                &&& match alias {
                    Some(a) => r.var == a,
                    None => r.var@.len() == 0,
                }
            },
        },
{
    match src {
        Expr::Var(var) => {
            let alias_name = match alias {
                Some(a) => a,
                None => var.name.clone(),
            };
            From { var: alias_name, src: Source::Table(var.name), csr: None, oid: None }
        },
        expr => {
            let alias_name = match alias {
                Some(a) => a,
                None => String::new(),
            };
            From { var: alias_name, src: Source::Value(Box::new(expr)), csr: None, oid: None }
        },
    }
}

/// Builds an `unpivot expr [as value] [at name]` from-item. The `as` alias
/// becomes the value binding (empty when absent); the `at` alias, if present,
/// binds the attribute name.
pub fn unpivot_item(expr: Expr, alias: Option<String>, att: Option<String>) -> (r: From)
    ensures
        r.src == Source::Unpivot(
            Unpivot { expr: Box::new(expr), val_csr: None, att, att_csr: None },
        ),
        r.csr is None,
        r.oid is None,
        match alias {
            Some(a) => r.var == a,
            None => r.var@.len() == 0,
        },
{
    let var = match alias {
        Some(a) => a,
        None => String::new(),
    };
    From {
        var,
        src: Source::Unpivot(Unpivot { expr: Box::new(expr), val_csr: None, att, att_csr: None }),
        csr: None,
        oid: None,
    }
}

/// Builds `limit N..` (skip N rows).
pub fn limit_skip(offset: u64) -> (r: Limit)
    ensures
        r == Limit::Skip(offset),
{
    Limit::Skip(offset)
}

/// Builds `limit N` (take at most N rows).
pub fn limit_take(limit: u64) -> (r: Limit)
    ensures
        r == Limit::Take(limit),
{
    Limit::Take(limit)
}

/// Builds `limit N..M` (skip N, then take up to `M - N`).
pub fn limit_slice(offset: u64, limit: u64) -> (r: Limit)
    ensures
        r == Limit::Slice(offset, limit),
{
    Limit::Slice(offset, limit)
}

/// Builds a `name: expr` object member.
pub fn member_assign(name: String, expr: Expr) -> (r: Member)
    ensures
        r == Member::Assign(name, expr),
{
    Member::Assign(name, expr)
}

/// Builds a `...expr` spread member.
pub fn member_spread(expr: Expr) -> (r: Member)
    ensures
        r == Member::Spread(expr),
{
    Member::Spread(expr)
}

} // verus!

verus! {

//------------------------------
// Parser actions: types
//------------------------------

/// Builds the `any` type.
pub fn t_any() -> (r: Type)
    ensures
        r == Type::Any,
{
    Type::Any
}

/// Builds the `bool` type.
pub fn t_bool() -> (r: Type)
    ensures
        r == Type::Bool,
{
    Type::Bool
}

/// Builds the `int` type.
pub fn t_int() -> (r: Type)
    ensures
        r == Type::Int,
{
    Type::Int
}

/// Builds the `float` type.
pub fn t_float() -> (r: Type)
    ensures
        r == Type::Float,
{
    Type::Float
}

/// Builds the `number` type.
pub fn t_number() -> (r: Type)
    ensures
        r == Type::Number,
{
    Type::Number
}

/// Builds the `string` type.
pub fn t_string() -> (r: Type)
    ensures
        r == Type::String,
{
    Type::String
}

/// Builds an object type from its members.
pub fn t_object(members: Vec<TMember>) -> (r: Type)
    ensures
        r == Type::Object(TObject { members }),
{
    Type::Object(TObject { members })
}

/// Builds one object-type member from a name and type.
pub fn t_member(name: String, ty: Type) -> (r: TMember)
    ensures
        r == (TMember { name, ty: Box::new(ty) }),
{
    TMember { name, ty: Box::new(ty) }
}

/// Builds the `array` type.
pub fn t_array() -> (r: Type)
    ensures
        r == Type::Array,
{
    Type::Array
}

//------------------------------
// Parser actions: JSONPath
//------------------------------

/// Builds a path from a root identifier and its segments.
pub fn path(identifier: String, segments: Vec<Segment>) -> (r: Path)
    ensures
        r == (Path { identifier, segments }),
{
    Path { identifier, segments }
}

/// Builds a child segment (`.[...]`) from its selectors.
pub fn segment_child(selectors: Vec<Selector>) -> (r: Segment)
    ensures
        r == Segment::Child(selectors),
{
    Segment::Child(selectors)
}

/// Builds a child name segment (`.name`).
pub fn segment_child_name(name: String) -> (r: Segment)
    ensures
        r matches Segment::Child(s) && s@ == seq![Selector::Name(name)],
{
    let mut s: Vec<Selector> = Vec::new();
    s.push(Selector::Name(name));
    Segment::Child(s)
}

/// Builds a child wildcard segment (`.*`).
pub fn segment_child_wildcard() -> (r: Segment)
    ensures
        r matches Segment::Child(s) && s@ == seq![Selector::Wildcard],
{
    let mut s: Vec<Selector> = Vec::new();
    s.push(Selector::Wildcard);
    Segment::Child(s)
}

/// Builds a descendant segment (`..[...]`) from its selectors.
pub fn segment_descd(selectors: Vec<Selector>) -> (r: Segment)
    ensures
        r == Segment::Descd(selectors),
{
    Segment::Descd(selectors)
}

/// Builds a descendant name segment (`..name`).
pub fn segment_descd_name(name: String) -> (r: Segment)
    ensures
        r matches Segment::Descd(s) && s@ == seq![Selector::Name(name)],
{
    let mut s: Vec<Selector> = Vec::new();
    s.push(Selector::Name(name));
    Segment::Descd(s)
}

/// Builds a descendant wildcard segment (`..*`).
pub fn segment_descd_wildcard() -> (r: Segment)
    ensures
        r matches Segment::Descd(s) && s@ == seq![Selector::Wildcard],
{
    let mut s: Vec<Selector> = Vec::new();
    s.push(Selector::Wildcard);
    Segment::Descd(s)
}

/// Builds a name selector (`name`).
pub fn selector_name(name: String) -> (r: Selector)
    ensures
        r == Selector::Name(name),
{
    Selector::Name(name)
}

/// Builds a wildcard selector (`*`).
pub fn selector_wildcard() -> (r: Selector)
    ensures
        r == Selector::Wildcard,
{
    Selector::Wildcard
}

/// Builds an array-index selector (`[i]`).
pub fn selector_index(idx: usize) -> (r: Selector)
    ensures
        r == Selector::Index(idx),
{
    Selector::Index(idx)
}

} // verus!

verus! {

//------------------------------
// Parser actions: expressions
//------------------------------

/// `e` is a call of the builtin `name` on exactly `args`.
pub open spec fn is_call(e: Expr, name: Seq<char>, args: Seq<Expr>) -> bool {
    e matches Expr::Call(c) && c.name@ == name && c.args@ == args
}

/// `e` is `not(x)` where `x` is a call of `name` on exactly `args`.
pub open spec fn is_negated_call(e: Expr, name: Seq<char>, args: Seq<Expr>) -> bool {
    e matches Expr::Call(c) && c.name@ == "not"@ && c.args@.len() == 1 && is_call(
        c.args@[0],
        name,
        args,
    )
}

/// A call of `name` on `args`.
fn call_of(name: &str, args: Vec<Expr>) -> (r: Expr)
    ensures
        is_call(r, name@, args@),
{
    Expr::Call(Call { name: String::from_str(name), args })
}

/// A call of `name` on the single argument `arg`.
fn call1(name: &str, arg: Expr) -> (r: Expr)
    ensures
        is_call(r, name@, seq![arg]),
{
    let mut args: Vec<Expr> = Vec::new();
    args.push(arg);
    call_of(name, args)
}

/// Builds an unbound variable reference.
pub fn expr_var(name: String) -> (r: Expr)
    ensures
        r matches Expr::Var(v) && v.name@ == name@ && v.bind is None,
{
    Expr::Var(Var::unbound(name.as_str()))
}

/// Builds a literal expression.
pub fn expr_lit(val: Value) -> (r: Expr)
    ensures
        r == Expr::Lit(val),
{
    Expr::Lit(val)
}

/// Builds a path-key access `inp.key`.
pub fn expr_jpk(inp: Expr, key: String) -> (r: Expr)
    ensures
        r == Expr::Jpk(Jpk { inp: Box::new(inp), key }),
{
    Expr::Jpk(Jpk { inp: Box::new(inp), key })
}

/// Builds a computed path access `inp[exp]`.
pub fn expr_jpe(inp: Expr, exp: Expr) -> (r: Expr)
    ensures
        r == Expr::Jpe(Jpe { inp: Box::new(inp), exp: Box::new(exp) }),
{
    Expr::Jpe(Jpe { inp: Box::new(inp), exp: Box::new(exp) })
}

/// Builds a multi-element subscript `base[first, rest...]`.
pub fn expr_subscript(base: Expr, first: Expr, rest: Vec<Expr>) -> (r: Expr)
    ensures
        r matches Expr::Subscript(s) && *s.base == base && s.args@ == seq![first] + rest@,
{
    let mut args: Vec<Expr> = Vec::new();
    args.push(first);
    let mut rest = rest;
    args.append(&mut rest);
    Expr::Subscript(Subscript { base: Box::new(base), args })
}

/// Builds an object constructor.
pub fn expr_obj(obj: Vec<Member>) -> (r: Expr)
    ensures
        r == Expr::Obj(obj),
{
    Expr::Obj(obj)
}

/// Builds an array constructor.
pub fn expr_array(items: Vec<Expr>) -> (r: Expr)
    ensures
        r == Expr::Array(items),
{
    Expr::Array(items)
}

/// Builds a binary operator call `lhs <sym> rhs`.
pub fn expr_binary(sym: &str, lhs: Expr, rhs: Expr) -> (r: Expr)
    ensures
        is_call(r, sym@, seq![lhs, rhs]),
{
    let mut args: Vec<Expr> = Vec::new();
    args.push(lhs);
    args.push(rhs);
    assert(args@ =~= seq![lhs, rhs]);
    call_of(sym, args)
}

/// Builds a named function call.
pub fn expr_call(name: String, args: Vec<Expr>) -> (r: Expr)
    ensures
        r == Expr::Call(Call { name, args }),
{
    Expr::Call(Call { name, args })
}

/// ASCII lower-casing of one byte.
pub open spec fn ascii_lower(b: u8) -> u8 {
    if 65 <= b <= 90 {
        (b + 32) as u8
    } else {
        b
    }
}

/// Byte strings equal up to ASCII case.
pub open spec fn ascii_case_eq(a: Seq<u8>, b: Seq<u8>) -> bool {
    a.len() == b.len() && forall|i: int| 0 <= i < a.len() ==> ascii_lower(a[i]) == ascii_lower(b[i])
}

/// Whether two strings are equal up to ASCII case (the bytes compared one by
/// one, ASCII letters folded to lower case).
pub fn eq_ignore_ascii_case(a: &str, b: &str) -> (r: bool)
    ensures
        r <==> ascii_case_eq(encode_utf8(a@), encode_utf8(b@)),
{
    let x = a.as_bytes();
    let y = b.as_bytes();
    if x.len() != y.len() {
        return false;
    }
    let mut i: usize = 0;
    while i < x.len()
        invariant
            i <= x@.len(),
            x@.len() == y@.len(),
            x@ == encode_utf8(a@),
            y@ == encode_utf8(b@),
            forall|j: int| 0 <= j < i ==> ascii_lower(x@[j]) == ascii_lower(y@[j]),
        decreases x.len() - i,
    {
        let p = x[i];
        let q = y[i];
        let lp: u8 = if 65 <= p && p <= 90 {
            p + 32
        } else {
            p
        };
        let lq: u8 = if 65 <= q && q <= 90 {
            q + 32
        } else {
            q
        };
        if lp != lq {
            return false;
        }
        i = i + 1;
    }
    true
}

/// Builds a star-call `name(*)`. Only `count(*)` (in any ASCII case) is
/// meaningful, so that lowers straight to an argument-less count aggregate;
/// any other name becomes an argument-less call that the binder rejects.
pub fn expr_call_star(name: String) -> (r: Expr)
    ensures
        ascii_case_eq(encode_utf8(name@), encode_utf8("count"@)) ==> r == Expr::Agg(
            Agg { kind: AggKind::Count, arg: None, slot: None },
        ),
        !ascii_case_eq(encode_utf8(name@), encode_utf8("count"@)) ==> (r matches Expr::Call(c)
            && c.name == name && c.args@.len() == 0),
{
    if eq_ignore_ascii_case(name.as_str(), "count") {
        Expr::Agg(Agg { kind: AggKind::Count, arg: None, slot: None })
    } else {
        Expr::Call(Call { name, args: Vec::new() })
    }
}

/// Whether `ty` is a scalar cast target.
pub open spec fn is_scalar_type(ty: Type) -> bool {
    ty is Int || ty is Float || ty is String || ty is Bool || ty is Number
}

/// The conversion-builtin name of a scalar cast target.
pub open spec fn cast_name(ty: Type) -> Seq<char> {
    match ty {
        Type::Int => "int"@,
        Type::Float => "float"@,
        Type::String => "string"@,
        Type::Bool => "bool"@,
        _ => "number"@,
    }
}

/// Maps a scalar cast target to its conversion-builtin name.
fn cast_target(ty: &Type) -> (r: &'static str)
    requires
        is_scalar_type(*ty),
    ensures
        r@ == cast_name(*ty),
{
    match ty {
        Type::Int => "int",
        Type::Float => "float",
        Type::String => "string",
        Type::Bool => "bool",
        _ => "number",
    }
}

/// Builds a constructor cast `int(expr)` as a call to the per-type conversion
/// builtin (`int`, `float`, …). The grammar restricts cast targets to scalar
/// types.
pub fn expr_cast(expr: Expr, ty: &Type) -> (r: Expr)
    requires
        is_scalar_type(*ty),
    ensures
        is_call(r, cast_name(*ty), seq![expr]),
{
    call1(cast_target(ty), expr)
}

/// Builds a `not arg` call.
pub fn expr_not(arg: Expr) -> (r: Expr)
    ensures
        is_call(r, "not"@, seq![arg]),
{
    call1("not", arg)
}

/// Builds an `arg is null` test.
pub fn expr_is_null(arg: Expr) -> (r: Expr)
    ensures
        is_call(r, "is_null"@, seq![arg]),
{
    call1("is_null", arg)
}

/// Builds an `arg is not null` test.
pub fn expr_is_not_null(arg: Expr) -> (r: Expr)
    ensures
        is_negated_call(r, "is_null"@, seq![arg]),
{
    expr_not(expr_is_null(arg))
}

/// Builds an `arg is true` test.
pub fn expr_is_true(arg: Expr) -> (r: Expr)
    ensures
        is_call(r, "is_true"@, seq![arg]),
{
    call1("is_true", arg)
}

/// Builds an `arg is false` test.
pub fn expr_is_false(arg: Expr) -> (r: Expr)
    ensures
        is_call(r, "is_false"@, seq![arg]),
{
    call1("is_false", arg)
}

/// Builds an `arg is unknown` test.
pub fn expr_is_unknown(arg: Expr) -> (r: Expr)
    ensures
        is_call(r, "is_unknown"@, seq![arg]),
{
    call1("is_unknown", arg)
}

/// Builds an `arg is not true` test.
pub fn expr_is_not_true(arg: Expr) -> (r: Expr)
    ensures
        is_negated_call(r, "is_true"@, seq![arg]),
{
    expr_not(expr_is_true(arg))
}

/// Builds an `arg is not false` test.
pub fn expr_is_not_false(arg: Expr) -> (r: Expr)
    ensures
        is_negated_call(r, "is_false"@, seq![arg]),
{
    expr_not(expr_is_false(arg))
}

/// Builds an `arg is not unknown` test.
pub fn expr_is_not_unknown(arg: Expr) -> (r: Expr)
    ensures
        is_negated_call(r, "is_unknown"@, seq![arg]),
{
    expr_not(expr_is_unknown(arg))
}

/// Builds an `x between a and b` test.
pub fn expr_between(x: Expr, a: Expr, b: Expr) -> (r: Expr)
    ensures
        is_call(r, "between"@, seq![x, a, b]),
{
    let mut args: Vec<Expr> = Vec::new();
    args.push(x);
    args.push(a);
    args.push(b);
    assert(args@ =~= seq![x, a, b]);
    call_of("between", args)
}

/// Builds an `x not between a and b` test.
pub fn expr_not_between(x: Expr, a: Expr, b: Expr) -> (r: Expr)
    ensures
        is_negated_call(r, "between"@, seq![x, a, b]),
{
    expr_not(expr_between(x, a, b))
}

/// Builds an `x in (list...)` test, with the target as the first argument.
pub fn expr_in_list(x: Expr, list: Vec<Expr>) -> (r: Expr)
    ensures
        is_call(r, "in_list"@, seq![x] + list@),
{
    let mut args: Vec<Expr> = Vec::new();
    args.push(x);
    let mut list = list;
    args.append(&mut list);
    call_of("in_list", args)
}

/// Builds an `x not in (list...)` test.
pub fn expr_not_in_list(x: Expr, list: Vec<Expr>) -> (r: Expr)
    ensures
        is_negated_call(r, "in_list"@, seq![x] + list@),
{
    expr_not(expr_in_list(x, list))
}

} // verus!

//! Structural sameness of values and expressions, with copies and equality
//! tests that are proved to agree with it.
//!
//! Two values are the same when they have the same shape and the same
//! contents (strings and byte strings compared by their text); this is the
//! equality a derived `==` would compute.
use vstd::prelude::*;

use crate::ir::{Agg, Call, Constructor, Expr, Pivot, Get, Jpe, Jpi, Jpk, Key, Member, Subscript, TMember, TObject, Type, Var};
use crate::value::{Field, Value};

verus! {

/// `a` and `b` are the same value.
pub open spec fn value_same(a: Value, b: Value) -> bool
    decreases a,
{
    match a {
        Value::Null => b is Null,
        Value::Bool(x) => b matches Value::Bool(y) && x == y,
        Value::Int(x) => b matches Value::Int(y) && x == y,
        Value::Float(x) => b matches Value::Float(y) && x == y,
        Value::String(x) => b matches Value::String(y) && x@ == y@,
        Value::Bytes(x) => b matches Value::Bytes(y) && x@ == y@,
        Value::Oid(x) => b matches Value::Oid(y) && x == y,
        Value::Array(x) => b matches Value::Array(y) && x@.len() == y@.len() && forall|i: int|
            0 <= i < x@.len() ==> value_same(#[trigger] x@[i], y@[i]),
        Value::Object(x) => b matches Value::Object(y) && x@.len() == y@.len() && forall|i: int|
            0 <= i < x@.len() ==> (#[trigger] x@[i]).key@ == y@[i].key@ && value_same(
                x@[i].value,
                y@[i].value,
            ),
    }
}

/// `a` and `b` are the same type.
pub open spec fn type_same(a: Type, b: Type) -> bool
    decreases a,
{
    match a {
        Type::Any => b is Any,
        Type::Bool => b is Bool,
        Type::Int => b is Int,
        Type::Float => b is Float,
        Type::Number => b is Number,
        Type::String => b is String,
        Type::Array => b is Array,
        Type::Object(x) => b matches Type::Object(y) && x.members@.len() == y.members@.len()
            && forall|i: int|
            0 <= i < x.members@.len() ==> (#[trigger] x.members@[i]).name@ == y.members@[i].name@
                && type_same(*x.members@[i].ty, *y.members@[i].ty),
    }
}

/// `a` and `b` are the same key column.
pub open spec fn key_same(a: Key, b: Key) -> bool {
    a.name@ == b.name@ && type_same(a.ty, b.ty)
}

/// `a` and `b` are the same key column lists.
pub open spec fn keys_same(a: Seq<Key>, b: Seq<Key>) -> bool {
    a.len() == b.len() && forall|i: int| 0 <= i < a.len() ==> key_same(#[trigger] a[i], b[i])
}

/// `a` and `b` are the same expression.
pub open spec fn expr_same(a: Expr, b: Expr) -> bool
    decreases a,
{
    match a {
        Expr::Call(x) => b matches Expr::Call(y) && x.name@ == y.name@ && x.args@.len()
            == y.args@.len() && forall|i: int|
            0 <= i < x.args@.len() ==> expr_same(#[trigger] x.args@[i], y.args@[i]),
        Expr::Jpi(x) => b matches Expr::Jpi(y) && x.idx == y.idx && expr_same(*x.inp, *y.inp),
        Expr::Jpk(x) => b matches Expr::Jpk(y) && x.key@ == y.key@ && expr_same(*x.inp, *y.inp),
        Expr::Jpe(x) => b matches Expr::Jpe(y) && expr_same(*x.inp, *y.inp) && expr_same(
            *x.exp,
            *y.exp,
        ),
        Expr::Lit(x) => b matches Expr::Lit(y) && value_same(x, y),
        Expr::Obj(x) => b matches Expr::Obj(y) && x@.len() == y@.len() && forall|i: int|
            0 <= i < x@.len() ==> member_same(#[trigger] x@[i], y@[i]),
        Expr::Array(x) => b matches Expr::Array(y) && x@.len() == y@.len() && forall|i: int|
            0 <= i < x@.len() ==> expr_same(#[trigger] x@[i], y@[i]),
        Expr::Var(x) => b matches Expr::Var(y) && x.name@ == y.name@ && x.bind == y.bind,
        Expr::Subscript(x) => b matches Expr::Subscript(y) && expr_same(*x.base, *y.base)
            && x.args@.len() == y.args@.len() && forall|i: int|
            0 <= i < x.args@.len() ==> expr_same(#[trigger] x.args@[i], y.args@[i]),
        Expr::Get(x) => b matches Expr::Get(y) && x.csr == y.csr && x.oid == y.oid && keys_same(
            x.keys@,
            y.keys@,
        ) && x.args@.len() == y.args@.len() && forall|i: int|
            0 <= i < x.args@.len() ==> value_same(#[trigger] x.args@[i], y.args@[i]),
        Expr::Agg(x) => b matches Expr::Agg(y) && x.kind == y.kind && x.slot == y.slot && match (
            x.arg,
            y.arg,
        ) {
            (None, None) => true,
            (Some(p), Some(q)) => expr_same(*p, *q),
            _ => false,
        },
    }
}

/// `a` and `b` are the same constructor member.
pub open spec fn member_same(a: Member, b: Member) -> bool
    decreases a,
{
    match a {
        Member::Assign(k, x) => b matches Member::Assign(l, y) && k@ == l@ && expr_same(x, y),
        Member::Spread(x) => b matches Member::Spread(y) && expr_same(x, y),
    }
}

/// The same optional expression.
pub open spec fn opt_expr_same(a: Option<Expr>, b: Option<Expr>) -> bool {
    match (a, b) {
        (None, None) => true,
        (Some(p), Some(q)) => expr_same(p, q),
        _ => false,
    }
}

/// A copy of a value.
#[verifier::loop_isolation(false)]
pub fn copy_value(v: &Value) -> (r: Value)
    ensures
        value_same(r, *v),
        value_same(*v, r),
    decreases *v,
{
    match v {
        Value::Null => Value::Null,
        Value::Bool(b) => Value::Bool(*b),
        Value::Int(n) => Value::Int(*n),
        Value::Float(f) => Value::Float(*f),
        Value::String(s) => Value::String(s.clone()),
        Value::Bytes(b) => Value::Bytes(b.clone()),
        Value::Oid(o) => Value::Oid(*o),
        Value::Array(items) => {
            let mut out: Vec<Value> = Vec::new();
            let mut i: usize = 0;
            while i < items.len()
                invariant
                    *v == Value::Array(*items),
                    i <= items@.len(),
                    out@.len() == i,
                    forall|j: int|
                        0 <= j < i ==> value_same(#[trigger] out@[j], items@[j]) && value_same(
                            items@[j],
                            out@[j],
                        ),
                decreases items@.len() - i,
            {
                proof {
                    assert(decreases_to!(*v => *items));
                    assert(decreases_to!(*items => items@));
                    assert(decreases_to!(items@ => items@[i as int]));
                }
                let c = copy_value(&items[i]);
                out.push(c);
                i = i + 1;
            }
            Value::Array(out)
        },
        Value::Object(members) => {
            let mut out: Vec<Field> = Vec::new();
            let mut i: usize = 0;
            while i < members.len()
                invariant
                    *v == Value::Object(*members),
                    i <= members@.len(),
                    out@.len() == i,
                    forall|j: int|
                        0 <= j < i ==> (#[trigger] out@[j]).key@ == members@[j].key@
                            && value_same(out@[j].value, members@[j].value) && value_same(
                            members@[j].value,
                            out@[j].value,
                        ),
                decreases members@.len() - i,
            {
                proof {
                    assert(decreases_to!(*v => *members));
                    assert(decreases_to!(*members => members@));
                    assert(decreases_to!(members@ => members@[i as int]));
                    assert(decreases_to!(members@[i as int] => members@[i as int].value));
                }
                let c = copy_value(&members[i].value);
                out.push(Field { key: members[i].key.clone(), value: c });
                i = i + 1;
            }
            Value::Object(out)
        },
    }
}


/// Whether two byte strings are equal.
fn bytes_eq(a: &Vec<u8>, b: &Vec<u8>) -> (r: bool)
    ensures
        r <==> a@ == b@,
{
    if a.len() != b.len() {
        return false;
    }
    let mut i: usize = 0;
    while i < a.len()
        invariant
            a@.len() == b@.len(),
            i <= a@.len(),
            forall|j: int| 0 <= j < i ==> a@[j] == b@[j],
        decreases a@.len() - i,
    {
        if a[i] != b[i] {
            return false;
        }
        i = i + 1;
    }
    assert(a@ =~= b@);
    true
}

/// Whether two values are the same.
#[verifier::loop_isolation(false)]
pub fn value_eq(a: &Value, b: &Value) -> (r: bool)
    ensures
        r == value_same(*a, *b),
    decreases *a,
{
    match (a, b) {
        (Value::Null, Value::Null) => true,
        (Value::Bool(x), Value::Bool(y)) => *x == *y,
        (Value::Int(x), Value::Int(y)) => *x == *y,
        (Value::Float(x), Value::Float(y)) => *x == *y,
        (Value::String(x), Value::String(y)) => crate::value::str_eq(x.as_str(), y.as_str()),
        (Value::Bytes(x), Value::Bytes(y)) => bytes_eq(x, y),
        (Value::Oid(x), Value::Oid(y)) => *x == *y,
        (Value::Array(x), Value::Array(y)) => {
            if x.len() != y.len() {
                return false;
            }
            let mut i: usize = 0;
            while i < x.len()
                invariant
                    x@.len() == y@.len(),
                    i <= x@.len(),
                    forall|j: int| 0 <= j < i ==> value_same(#[trigger] x@[j], y@[j]),
                decreases x@.len() - i,
            {
                proof {
                    assert(decreases_to!(*a => *x));
                    assert(decreases_to!(*x => x@));
                    assert(decreases_to!(x@ => x@[i as int]));
                }
                if !value_eq(&x[i], &y[i]) {
                    return false;
                }
                i = i + 1;
            }
            true
        },
        (Value::Object(x), Value::Object(y)) => {
            if x.len() != y.len() {
                return false;
            }
            let mut i: usize = 0;
            while i < x.len()
                invariant
                    x@.len() == y@.len(),
                    i <= x@.len(),
                    forall|j: int|
                        0 <= j < i ==> (#[trigger] x@[j]).key@ == y@[j].key@ && value_same(
                            x@[j].value,
                            y@[j].value,
                        ),
                decreases x@.len() - i,
            {
                proof {
                    assert(decreases_to!(*a => *x));
                    assert(decreases_to!(*x => x@));
                    assert(decreases_to!(x@ => x@[i as int]));
                    assert(decreases_to!(x@[i as int] => x@[i as int].value));
                }
                if !crate::value::str_eq(x[i].key.as_str(), y[i].key.as_str()) {
                    return false;
                }
                if !value_eq(&x[i].value, &y[i].value) {
                    return false;
                }
                i = i + 1;
            }
            true
        },
        _ => false,
    }
}

/// A copy of a type.
#[verifier::loop_isolation(false)]
pub fn copy_type(t: &Type) -> (r: Type)
    ensures
        type_same(r, *t),
        type_same(*t, r),
    decreases *t,
{
    match t {
        Type::Any => Type::Any,
        Type::Bool => Type::Bool,
        Type::Int => Type::Int,
        Type::Float => Type::Float,
        Type::Number => Type::Number,
        Type::String => Type::String,
        Type::Array => Type::Array,
        Type::Object(o) => {
            let mut out: Vec<TMember> = Vec::new();
            let mut i: usize = 0;
            while i < o.members.len()
                invariant
                    i <= o.members@.len(),
                    out@.len() == i,
                    forall|j: int|
                        0 <= j < i ==> (#[trigger] out@[j]).name@ == o.members@[j].name@
                            && type_same(*out@[j].ty, *o.members@[j].ty) && type_same(
                            *o.members@[j].ty,
                            *out@[j].ty,
                        ),
                decreases o.members@.len() - i,
            {
                proof {
                    assert(decreases_to!(*t => *o));
                    assert(decreases_to!(*o => o.members));
                    assert(decreases_to!(o.members => o.members@));
                    assert(decreases_to!(o.members@ => o.members@[i as int]));
                    assert(decreases_to!(o.members@[i as int] => o.members@[i as int].ty));
                }
                let c = copy_type(&o.members[i].ty);
                out.push(TMember { name: o.members[i].name.clone(), ty: Box::new(c) });
                i = i + 1;
            }
            Type::Object(TObject { members: out })
        },
    }
}

/// Whether two types are the same.
#[verifier::loop_isolation(false)]
pub fn type_eq(a: &Type, b: &Type) -> (r: bool)
    ensures
        r == type_same(*a, *b),
    decreases *a,
{
    match (a, b) {
        (Type::Any, Type::Any) => true,
        (Type::Bool, Type::Bool) => true,
        (Type::Int, Type::Int) => true,
        (Type::Float, Type::Float) => true,
        (Type::Number, Type::Number) => true,
        (Type::String, Type::String) => true,
        (Type::Array, Type::Array) => true,
        (Type::Object(x), Type::Object(y)) => {
            if x.members.len() != y.members.len() {
                return false;
            }
            let mut i: usize = 0;
            while i < x.members.len()
                invariant
                    x.members@.len() == y.members@.len(),
                    i <= x.members@.len(),
                    forall|j: int|
                        0 <= j < i ==> (#[trigger] x.members@[j]).name@ == y.members@[j].name@
                            && type_same(*x.members@[j].ty, *y.members@[j].ty),
                decreases x.members@.len() - i,
            {
                proof {
                    assert(decreases_to!(*a => *x));
                    assert(decreases_to!(*x => x.members));
                    assert(decreases_to!(x.members => x.members@));
                    assert(decreases_to!(x.members@ => x.members@[i as int]));
                    assert(decreases_to!(x.members@[i as int] => x.members@[i as int].ty));
                }
                if !crate::value::str_eq(x.members[i].name.as_str(), y.members[i].name.as_str()) {
                    return false;
                }
                if !type_eq(&x.members[i].ty, &y.members[i].ty) {
                    return false;
                }
                i = i + 1;
            }
            true
        },
        _ => false,
    }
}

/// A copy of a key column list.
pub fn copy_keys(keys: &Vec<Key>) -> (r: Vec<Key>)
    ensures
        keys_same(r@, keys@),
        keys_same(keys@, r@),
{
    let mut out: Vec<Key> = Vec::new();
    let mut i: usize = 0;
    while i < keys.len()
        invariant
            i <= keys@.len(),
            out@.len() == i,
            forall|j: int|
                0 <= j < i ==> key_same(#[trigger] out@[j], keys@[j]) && key_same(keys@[j], out@[j]),
        decreases keys@.len() - i,
    {
        let t = copy_type(&keys[i].ty);
        out.push(Key { name: keys[i].name.clone(), ty: t });
        i = i + 1;
    }
    out
}

/// Whether two key column lists are the same.
pub fn keys_eq(a: &Vec<Key>, b: &Vec<Key>) -> (r: bool)
    ensures
        r == keys_same(a@, b@),
{
    if a.len() != b.len() {
        return false;
    }
    let mut i: usize = 0;
    while i < a.len()
        invariant
            a@.len() == b@.len(),
            i <= a@.len(),
            forall|j: int| 0 <= j < i ==> key_same(#[trigger] a@[j], b@[j]),
        decreases a@.len() - i,
    {
        if !crate::value::str_eq(a[i].name.as_str(), b[i].name.as_str()) {
            return false;
        }
        if !type_eq(&a[i].ty, &b[i].ty) {
            return false;
        }
        i = i + 1;
    }
    true
}


/// A copy of a list of values.
pub fn copy_values(v: &Vec<Value>) -> (r: Vec<Value>)
    ensures
        r@.len() == v@.len(),
        forall|i: int| 0 <= i < v@.len() ==> value_same(#[trigger] r@[i], v@[i]),
        forall|i: int| 0 <= i < v@.len() ==> value_same(#[trigger] v@[i], r@[i]),
{
    let mut out: Vec<Value> = Vec::new();
    let mut i: usize = 0;
    while i < v.len()
        invariant
            i <= v@.len(),
            out@.len() == i,
            forall|j: int|
                0 <= j < i ==> value_same(#[trigger] out@[j], v@[j]) && value_same(v@[j], out@[j]),
        decreases v@.len() - i,
    {
        out.push(copy_value(&v[i]));
        i = i + 1;
    }
    out
}

/// A copy of an expression.
#[verifier::loop_isolation(false)]
pub fn copy_expr(e: &Expr) -> (r: Expr)
    ensures
        expr_same(r, *e),
        expr_same(*e, r),
    decreases *e,
{
    match e {
        Expr::Call(c) => {
            let mut out: Vec<Expr> = Vec::new();
            let mut i: usize = 0;
            while i < c.args.len()
                invariant
                    i <= c.args@.len(),
                    out@.len() == i,
                    forall|j: int|
                        0 <= j < i ==> expr_same(#[trigger] out@[j], c.args@[j]) && expr_same(
                            c.args@[j],
                            out@[j],
                        ),
                decreases c.args@.len() - i,
            {
                proof {
                    assert(decreases_to!(*e => *c));
                    assert(decreases_to!(*c => c.args));
                    assert(decreases_to!(c.args => c.args@));
                    assert(decreases_to!(c.args@ => c.args@[i as int]));
                }
                out.push(copy_expr(&c.args[i]));
                i = i + 1;
            }
            Expr::Call(Call { name: c.name.clone(), args: out })
        },
        Expr::Jpi(j) => {
            let inp = copy_expr(&j.inp);
            Expr::Jpi(Jpi { inp: Box::new(inp), idx: j.idx })
        },
        Expr::Jpk(j) => {
            let inp = copy_expr(&j.inp);
            Expr::Jpk(Jpk { inp: Box::new(inp), key: j.key.clone() })
        },
        Expr::Jpe(j) => {
            let inp = copy_expr(&j.inp);
            let exp = copy_expr(&j.exp);
            Expr::Jpe(Jpe { inp: Box::new(inp), exp: Box::new(exp) })
        },
        Expr::Lit(v) => Expr::Lit(copy_value(v)),
        Expr::Obj(ms) => {
            let mut out: Vec<Member> = Vec::new();
            let mut i: usize = 0;
            while i < ms.len()
                invariant
                    i <= ms@.len(),
                    out@.len() == i,
                    forall|j: int|
                        0 <= j < i ==> member_same(#[trigger] out@[j], ms@[j]) && member_same(
                            ms@[j],
                            out@[j],
                        ),
                decreases ms@.len() - i,
            {
                proof {
                    assert(decreases_to!(*e => *ms));
                    assert(decreases_to!(*ms => ms@));
                    assert(decreases_to!(ms@ => ms@[i as int]));
                }
                let m = match &ms[i] {
                    Member::Assign(k, x) => {
                        proof {
                            assert(decreases_to!(ms@[i as int] => *x));
                        }
                        Member::Assign(k.clone(), copy_expr(x))
                    },
                    Member::Spread(x) => {
                        proof {
                            assert(decreases_to!(ms@[i as int] => *x));
                        }
                        Member::Spread(copy_expr(x))
                    },
                };
                out.push(m);
                i = i + 1;
            }
            Expr::Obj(out)
        },
        Expr::Array(items) => {
            let mut out: Vec<Expr> = Vec::new();
            let mut i: usize = 0;
            while i < items.len()
                invariant
                    i <= items@.len(),
                    out@.len() == i,
                    forall|j: int|
                        0 <= j < i ==> expr_same(#[trigger] out@[j], items@[j]) && expr_same(
                            items@[j],
                            out@[j],
                        ),
                decreases items@.len() - i,
            {
                proof {
                    assert(decreases_to!(*e => *items));
                    assert(decreases_to!(*items => items@));
                    assert(decreases_to!(items@ => items@[i as int]));
                }
                out.push(copy_expr(&items[i]));
                i = i + 1;
            }
            Expr::Array(out)
        },
        Expr::Var(v) => Expr::Var(Var { name: v.name.clone(), bind: v.bind }),
        Expr::Subscript(sub) => {
            let base = copy_expr(&sub.base);
            let mut out: Vec<Expr> = Vec::new();
            let mut i: usize = 0;
            while i < sub.args.len()
                invariant
                    i <= sub.args@.len(),
                    out@.len() == i,
                    forall|j: int|
                        0 <= j < i ==> expr_same(#[trigger] out@[j], sub.args@[j]) && expr_same(
                            sub.args@[j],
                            out@[j],
                        ),
                decreases sub.args@.len() - i,
            {
                proof {
                    assert(decreases_to!(*e => *sub));
                    assert(decreases_to!(*sub => sub.args));
                    assert(decreases_to!(sub.args => sub.args@));
                    assert(decreases_to!(sub.args@ => sub.args@[i as int]));
                }
                out.push(copy_expr(&sub.args[i]));
                i = i + 1;
            }
            Expr::Subscript(Subscript { base: Box::new(base), args: out })
        },
        Expr::Get(g) => Expr::Get(
            Get { csr: g.csr, oid: g.oid, keys: copy_keys(&g.keys), args: copy_values(&g.args) },
        ),
        Expr::Agg(a) => {
            let arg = match &a.arg {
                Some(x) => Some(Box::new(copy_expr(x))),
                None => None,
            };
            Expr::Agg(Agg { kind: a.kind, arg, slot: a.slot })
        },
    }
}


/// Whether two expressions are the same.
#[verifier::loop_isolation(false)]
pub fn expr_eq(a: &Expr, b: &Expr) -> (r: bool)
    ensures
        r == expr_same(*a, *b),
    decreases *a,
{
    match (a, b) {
        (Expr::Call(x), Expr::Call(y)) => {
            if !crate::value::str_eq(x.name.as_str(), y.name.as_str()) {
                return false;
            }
            if x.args.len() != y.args.len() {
                return false;
            }
            let mut i: usize = 0;
            while i < x.args.len()
                invariant
                    x.args@.len() == y.args@.len(),
                    i <= x.args@.len(),
                    forall|j: int| 0 <= j < i ==> expr_same(#[trigger] x.args@[j], y.args@[j]),
                decreases x.args@.len() - i,
            {
                proof {
                    assert(decreases_to!(*a => *x));
                    assert(decreases_to!(*x => x.args));
                    assert(decreases_to!(x.args => x.args@));
                    assert(decreases_to!(x.args@ => x.args@[i as int]));
                }
                if !expr_eq(&x.args[i], &y.args[i]) {
                    return false;
                }
                i = i + 1;
            }
            true
        },
        (Expr::Jpi(x), Expr::Jpi(y)) => x.idx == y.idx && expr_eq(&x.inp, &y.inp),
        (Expr::Jpk(x), Expr::Jpk(y)) => crate::value::str_eq(x.key.as_str(), y.key.as_str())
            && expr_eq(&x.inp, &y.inp),
        (Expr::Jpe(x), Expr::Jpe(y)) => expr_eq(&x.inp, &y.inp) && expr_eq(&x.exp, &y.exp),
        (Expr::Lit(x), Expr::Lit(y)) => value_eq(x, y),
        (Expr::Obj(x), Expr::Obj(y)) => {
            if x.len() != y.len() {
                return false;
            }
            let mut i: usize = 0;
            while i < x.len()
                invariant
                    x@.len() == y@.len(),
                    i <= x@.len(),
                    forall|j: int| 0 <= j < i ==> member_same(#[trigger] x@[j], y@[j]),
                decreases x@.len() - i,
            {
                proof {
                    assert(decreases_to!(*a => *x));
                    assert(decreases_to!(*x => x@));
                    assert(decreases_to!(x@ => x@[i as int]));
                }
                let same = match (&x[i], &y[i]) {
                    (Member::Assign(k, p), Member::Assign(l, q)) => {
                        proof {
                            assert(decreases_to!(x@[i as int] => *p));
                        }
                        crate::value::str_eq(k.as_str(), l.as_str()) && expr_eq(p, q)
                    },
                    (Member::Spread(p), Member::Spread(q)) => {
                        proof {
                            assert(decreases_to!(x@[i as int] => *p));
                        }
                        expr_eq(p, q)
                    },
                    _ => false,
                };
                assert(same == member_same(x@[i as int], y@[i as int]));
                if !same {
                    return false;
                }
                i = i + 1;
            }
            true
        },
        (Expr::Array(x), Expr::Array(y)) => {
            if x.len() != y.len() {
                return false;
            }
            let mut i: usize = 0;
            while i < x.len()
                invariant
                    x@.len() == y@.len(),
                    i <= x@.len(),
                    forall|j: int| 0 <= j < i ==> expr_same(#[trigger] x@[j], y@[j]),
                decreases x@.len() - i,
            {
                proof {
                    assert(decreases_to!(*a => *x));
                    assert(decreases_to!(*x => x@));
                    assert(decreases_to!(x@ => x@[i as int]));
                }
                if !expr_eq(&x[i], &y[i]) {
                    return false;
                }
                i = i + 1;
            }
            true
        },
        (Expr::Var(x), Expr::Var(y)) => crate::value::str_eq(x.name.as_str(), y.name.as_str())
            && x.bind == y.bind,
        (Expr::Subscript(x), Expr::Subscript(y)) => {
            if !expr_eq(&x.base, &y.base) {
                return false;
            }
            if x.args.len() != y.args.len() {
                return false;
            }
            let mut i: usize = 0;
            while i < x.args.len()
                invariant
                    x.args@.len() == y.args@.len(),
                    i <= x.args@.len(),
                    forall|j: int| 0 <= j < i ==> expr_same(#[trigger] x.args@[j], y.args@[j]),
                decreases x.args@.len() - i,
            {
                proof {
                    assert(decreases_to!(*a => *x));
                    assert(decreases_to!(*x => x.args));
                    assert(decreases_to!(x.args => x.args@));
                    assert(decreases_to!(x.args@ => x.args@[i as int]));
                }
                if !expr_eq(&x.args[i], &y.args[i]) {
                    return false;
                }
                i = i + 1;
            }
            true
        },
        (Expr::Get(x), Expr::Get(y)) => {
            if x.csr != y.csr || x.oid != y.oid || !keys_eq(&x.keys, &y.keys) {
                return false;
            }
            if x.args.len() != y.args.len() {
                return false;
            }
            let mut i: usize = 0;
            while i < x.args.len()
                invariant
                    x.args@.len() == y.args@.len(),
                    i <= x.args@.len(),
                    forall|j: int| 0 <= j < i ==> value_same(#[trigger] x.args@[j], y.args@[j]),
                decreases x.args@.len() - i,
            {
                if !value_eq(&x.args[i], &y.args[i]) {
                    return false;
                }
                i = i + 1;
            }
            true
        },
        (Expr::Agg(x), Expr::Agg(y)) => {
            if x.kind != y.kind || x.slot != y.slot {
                return false;
            }
            match (&x.arg, &y.arg) {
                (None, None) => true,
                (Some(p), Some(q)) => expr_eq(p, q),
                _ => false,
            }
        },
        _ => false,
    }
}


/// `a` and `b` are the same projection.
pub open spec fn cons_same(a: Constructor, b: Constructor) -> bool {
    match a {
        Constructor::Identity => b is Identity,
        Constructor::Star => b is Star,
        Constructor::Expr(x) => b matches Constructor::Expr(y) && expr_same(x, y),
        Constructor::List(x) => b matches Constructor::List(y) && x@.len() == y@.len() && forall|
            i: int,
        | 0 <= i < x@.len() ==> member_same(#[trigger] x@[i], y@[i]),
        Constructor::Pivot(p) => b matches Constructor::Pivot(q) && expr_same(*p.value, *q.value)
            && expr_same(*p.name, *q.name),
    }
}

/// A copy of a constructor member.
pub fn copy_member(m: &Member) -> (r: Member)
    ensures
        member_same(r, *m),
        member_same(*m, r),
{
    match m {
        Member::Assign(k, x) => Member::Assign(k.clone(), copy_expr(x)),
        Member::Spread(x) => Member::Spread(copy_expr(x)),
    }
}

/// A copy of a projection.
pub fn copy_constructor(c: &Constructor) -> (r: Constructor)
    ensures
        cons_same(r, *c),
        cons_same(*c, r),
{
    match c {
        Constructor::Identity => Constructor::Identity,
        Constructor::Star => Constructor::Star,
        Constructor::Expr(e) => Constructor::Expr(copy_expr(e)),
        Constructor::List(ms) => {
            let mut out: Vec<Member> = Vec::new();
            let mut i: usize = 0;
            while i < ms.len()
                invariant
                    i <= ms@.len(),
                    out@.len() == i,
                    forall|j: int|
                        0 <= j < i ==> member_same(#[trigger] out@[j], ms@[j]) && member_same(
                            ms@[j],
                            out@[j],
                        ),
                decreases ms@.len() - i,
            {
                out.push(copy_member(&ms[i]));
                i = i + 1;
            }
            Constructor::List(out)
        },
        Constructor::Pivot(p) => Constructor::Pivot(
            Pivot { value: Box::new(copy_expr(&p.value)), name: Box::new(copy_expr(&p.name)) },
        ),
    }
}

} // verus!

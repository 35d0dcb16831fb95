//! The binder: name resolution and cursor-slot assignment.
//!
//! A pass over a statement that gives each from-source a cursor slot,
//! resolves table names to oids and variables to their bindings, lowers an
//! aggregate call to an aggregate term, and lowers a keyed-table subscript
//! (`t[k]`) to a keyed lookup. Tables are resolved against a snapshot of the
//! catalog's definitions. Errors are collected; the first is returned.
//!
//! A statement the binder accepts is bound: every variable resolved, every
//! source given its cursor (and a table its oid), aggregates only where a
//! projection or HAVING allows them.
use vstd::prelude::*;

use crate::compiler::{
    cons_ok, expr_ready, from_ready, groups_ok, has_agg, lemma_proj_plain, member_expr, plan_spec,
    proj_ok, select_ok, select_ready, statement_ok, Plan,
};
use crate::decimal::decimal;
use crate::error::Error;
use crate::ir::{
    eq_ignore_ascii_case, Agg, AggKind, Call, Clear, Constructor, Delete, Drop, Expr, Get, GroupBy,
    Insert, Jpe, Jpi, Jpk, Member, OrderBy, OrderKey, Pivot, Select, Source, Statement, Subscript,
    TableDefinition, Unpivot, Var,
};
use crate::same::{copy_keys, keys_same};
use crate::value::{str_eq, Value};

verus! {

/// An expression bound for its position: where aggregates are allowed (a
/// projection or HAVING), bound with plain aggregate arguments; elsewhere
/// plain.
pub open spec fn bound_at(e: Expr, allow_agg: bool) -> bool {
    if allow_agg {
        proj_ok(e)
    } else {
        expr_ready(e, 0)
    }
}

/// A bound projection: a pivot's two expressions bound as a projection,
/// anything else as the compiler takes it.
pub open spec fn cons_bound(c: Constructor) -> bool {
    match c {
        Constructor::Identity => true,
        Constructor::Star => true,
        Constructor::Expr(e) => proj_ok(e),
        Constructor::List(ms) => forall|i: int|
            0 <= i < ms@.len() ==> proj_ok(#[trigger] member_expr(ms@[i])),
        Constructor::Pivot(p) => proj_ok(*p.value) && proj_ok(*p.name),
    }
}

/// A bound SELECT.
pub open spec fn select_bound(s: Select) -> bool {
    &&& forall|i: int| 0 <= i < s.from@.len() ==> from_ready(#[trigger] s.from@[i])
    &&& (s.where_ matches Some(w) ==> expr_ready(w, 0))
    &&& (s.group matches Some(g) ==> groups_ok(g.keys@))
    &&& (s.having matches Some(h) ==> proj_ok(h))
    &&& (s.order matches Some(o) ==> forall|i: int|
        0 <= i < o.keys@.len() ==> expr_ready(#[trigger] o.keys@[i].expr, 0))
    &&& cons_bound(s.select)
}

/// A bound statement.
pub open spec fn statement_bound(s: Statement) -> bool {
    match s {
        Statement::Select(q) => select_bound(q),
        Statement::Insert(i) => i.target.oid is Some && forall|k: int|
            0 <= k < i.source@.len() ==> expr_ready(#[trigger] i.source@[k], 0),
        Statement::Delete(d) => from_ready(d.from) && (d.where_ matches Some(w) ==> expr_ready(
            w,
            0,
        )),
        Statement::Drop(d) => d.oid is Some,
        Statement::Clear(c) => c.oid is Some,
        Statement::Create(_) => true,
    }
}

/// The aggregate an aggregate function name (in any letter case) denotes.
pub open spec fn aggregate_of(name: Seq<char>) -> Option<AggKind> {
    let b = vstd::utf8::encode_utf8(name);
    if crate::ir::ascii_case_eq(b, vstd::utf8::encode_utf8("count"@)) {
        Some(AggKind::Count)
    } else if crate::ir::ascii_case_eq(b, vstd::utf8::encode_utf8("sum"@)) {
        Some(AggKind::Sum)
    } else if crate::ir::ascii_case_eq(b, vstd::utf8::encode_utf8("min"@)) {
        Some(AggKind::Min)
    } else if crate::ir::ascii_case_eq(b, vstd::utf8::encode_utf8("max"@)) {
        Some(AggKind::Max)
    } else if crate::ir::ascii_case_eq(b, vstd::utf8::encode_utf8("avg"@)) {
        Some(AggKind::Avg)
    } else {
        None
    }
}


/// ASCII lower-casing of a character code.
pub open spec fn lower_code(x: u32) -> u32 {
    if 65 <= x <= 90 {
        (x + 32) as u32
    } else {
        x
    }
}

/// `name` spells the lower-case word `word` in some letter case.
pub open spec fn spells_any_case(name: Seq<char>, word: Seq<char>) -> bool {
    name.len() == word.len() && forall|i: int| 0 <= i < name.len() ==> lower_code(name[i] as u32) == word[i] as u32
}

/// A word of lower-case ASCII letters.
pub open spec fn lower_word(word: Seq<char>) -> bool {
    forall|i: int| 0 <= i < word.len() ==> 97 <= (#[trigger] word[i] as u32) <= 122
}

/// ASCII text encodes to one byte per character, its code.
proof fn lemma_ascii_encode(s: Seq<char>)
    requires
        forall|i: int| 0 <= i < s.len() ==> (#[trigger] s[i] as u32) < 128,
    ensures
        vstd::utf8::encode_utf8(s).len() == s.len(),
        forall|i: int| 0 <= i < s.len() ==> #[trigger] vstd::utf8::encode_utf8(s)[i] == s[i] as u32 as u8,
    decreases s.len(),
{
    if s.len() > 0 {
        let c = s[0] as u32;
        assert(c < 128);
        assert(c & 0x7F == c) by (bit_vector)
            requires
                c < 128,
        ;
        let rest = s.drop_first();
        assert forall|i: int| 0 <= i < rest.len() implies (#[trigger] rest[i] as u32) < 128 by {
            assert(rest[i] == s[i + 1]);
        }
        lemma_ascii_encode(rest);
        let e = vstd::utf8::encode_utf8(s);
        assert(e == vstd::utf8::encode_scalar(c) + vstd::utf8::encode_utf8(rest));
        assert forall|i: int| 0 <= i < s.len() implies #[trigger] e[i] == s[i] as u32 as u8 by {
            if i > 0 {
                assert(rest[i - 1] == s[i]);
            }
        }
    }
}

/// A name that spells a lower-case word in some letter case has bytes that
/// lower-case to the word's bytes.
proof fn lemma_spelled_bytes(name: Seq<char>, word: Seq<char>)
    requires
        spells_any_case(name, word),
        lower_word(word),
    ensures
        vstd::utf8::encode_utf8(name).len() == word.len(),
        vstd::utf8::encode_utf8(word).len() == word.len(),
        forall|i: int| 0 <= i < word.len() ==> crate::ir::ascii_lower(#[trigger] vstd::utf8::encode_utf8(name)[i]) == word[i] as u32 as u8,
        forall|i: int| 0 <= i < word.len() ==> crate::ir::ascii_lower(#[trigger] vstd::utf8::encode_utf8(word)[i]) == word[i] as u32 as u8,
        crate::ir::ascii_case_eq(vstd::utf8::encode_utf8(name), vstd::utf8::encode_utf8(word)),
{
    assert forall|i: int| 0 <= i < name.len() implies (#[trigger] name[i] as u32) < 128 by {
        assert(lower_code(name[i] as u32) == word[i] as u32);
        assert(97 <= word[i] as u32 <= 122);
    }
    assert forall|i: int| 0 <= i < word.len() implies (#[trigger] word[i] as u32) < 128 by {
        assert(97 <= word[i] as u32 <= 122);
    }
    lemma_ascii_encode(name);
    lemma_ascii_encode(word);
    assert forall|i: int| 0 <= i < word.len() implies crate::ir::ascii_lower(#[trigger] vstd::utf8::encode_utf8(name)[i]) == word[i] as u32 as u8 by {
        assert(lower_code(name[i] as u32) == word[i] as u32);
        assert(97 <= word[i] as u32 <= 122);
    }
    assert forall|i: int| 0 <= i < word.len() implies crate::ir::ascii_lower(#[trigger] vstd::utf8::encode_utf8(word)[i]) == word[i] as u32 as u8 by {
        assert(97 <= word[i] as u32 <= 122);
    }
}

/// An aggregate's name, in any letter case, denotes the aggregate it
/// spells: `count` counts, `sum` sums, `min` takes the least, `max` the
/// greatest and `avg` the mean (`MIN(age)` is a minimum, never a maximum).
pub proof fn law_aggregate_names(name: Seq<char>)
    ensures
        spells_any_case(name, "count"@) ==> aggregate_of(name) == Some(AggKind::Count),
        spells_any_case(name, "sum"@) ==> aggregate_of(name) == Some(AggKind::Sum),
        spells_any_case(name, "min"@) ==> aggregate_of(name) == Some(AggKind::Min),
        spells_any_case(name, "max"@) ==> aggregate_of(name) == Some(AggKind::Max),
        spells_any_case(name, "avg"@) ==> aggregate_of(name) == Some(AggKind::Avg),
{
    reveal_strlit("count");
    reveal_strlit("sum");
    reveal_strlit("min");
    reveal_strlit("max");
    reveal_strlit("avg");
    let words = seq!["count"@, "sum"@, "min"@, "max"@, "avg"@];
    assert forall|k: int| 0 <= k < 5 implies lower_word(#[trigger] words[k]) by {
        assert forall|i: int| 0 <= i < words[k].len() implies 97 <= (#[trigger] words[k][i] as u32) <= 122 by {
        }
    }
    let b = vstd::utf8::encode_utf8(name);
    assert forall|k: int| 0 <= k < 5 implies #[trigger] lower_word(words[k]) ==> {
        &&& vstd::utf8::encode_utf8(words[k]).len() == words[k].len()
        &&& forall|i: int| 0 <= i < words[k].len() ==> crate::ir::ascii_lower(#[trigger] vstd::utf8::encode_utf8(words[k])[i]) == words[k][i] as u32 as u8
    } by {
        assert forall|i: int| 0 <= i < words[k].len() implies (#[trigger] words[k][i] as u32) < 128 by {}
        lemma_ascii_encode(words[k]);
    }
    assert(words[0] == "count"@);
    assert(words[1] == "sum"@);
    assert(words[2] == "min"@);
    assert(words[3] == "max"@);
    assert(words[4] == "avg"@);
    let ec = vstd::utf8::encode_utf8("count"@);
    let es = vstd::utf8::encode_utf8("sum"@);
    let en = vstd::utf8::encode_utf8("min"@);
    let ex = vstd::utf8::encode_utf8("max"@);
    if spells_any_case(name, "count"@) {
        lemma_spelled_bytes(name, "count"@);
    }
    if spells_any_case(name, "sum"@) {
        lemma_spelled_bytes(name, "sum"@);
        assert(crate::ir::ascii_lower(b[0]) != crate::ir::ascii_lower(ec[0]) || b.len() != ec.len());
    }
    if spells_any_case(name, "min"@) {
        lemma_spelled_bytes(name, "min"@);
        assert(b.len() != ec.len());
        assert(crate::ir::ascii_lower(b[0]) != crate::ir::ascii_lower(es[0]));
    }
    if spells_any_case(name, "max"@) {
        lemma_spelled_bytes(name, "max"@);
        assert(b.len() != ec.len());
        assert(crate::ir::ascii_lower(b[0]) != crate::ir::ascii_lower(es[0]));
        assert(crate::ir::ascii_lower(b[1]) != crate::ir::ascii_lower(en[1]));
    }
    if spells_any_case(name, "avg"@) {
        lemma_spelled_bytes(name, "avg"@);
        assert(b.len() != ec.len());
        assert(crate::ir::ascii_lower(b[0]) != crate::ir::ascii_lower(es[0]));
        assert(crate::ir::ascii_lower(b[0]) != crate::ir::ascii_lower(en[0]));
        assert(crate::ir::ascii_lower(b[0]) != crate::ir::ascii_lower(ex[0]));
    }
}

/// Classifies a call name as an aggregate, ignoring ASCII case.
pub fn is_aggregate(name: &str) -> (r: Option<AggKind>)
    ensures
        r == aggregate_of(name@),
{
    if eq_ignore_ascii_case(name, "count") {
        Some(AggKind::Count)
    } else if eq_ignore_ascii_case(name, "sum") {
        Some(AggKind::Sum)
    } else if eq_ignore_ascii_case(name, "min") {
        Some(AggKind::Min)
    } else if eq_ignore_ascii_case(name, "max") {
        Some(AggKind::Max)
    } else if eq_ignore_ascii_case(name, "avg") {
        Some(AggKind::Avg)
    } else {
        None
    }
}

/// The innermost binding of `name` in a scope (the last one pushed wins).
pub open spec fn scope_resolve(scope: Seq<(String, u32)>, name: Seq<char>) -> Option<u32>
    decreases scope.len(),
{
    if scope.len() == 0 {
        None
    } else if scope.last().0@ == name {
        Some(scope.last().1)
    } else {
        scope_resolve(scope.drop_last(), name)
    }
}

/// The index of the first catalog table named `name`.
pub open spec fn table_index(tables: Seq<TableDefinition>, name: Seq<char>) -> Option<int>
    decreases tables.len(),
{
    if tables.len() == 0 {
        None
    } else if tables[0].name@ == name {
        Some(0)
    } else {
        match table_index(tables.drop_first(), name) {
            Some(i) => Some(i + 1),
            None => None,
        }
    }
}

/// The active cursor aliases of a query, innermost last.
pub struct Scope {
    bindings: Vec<(String, u32)>,
}

impl Scope {
    /// The bindings, outermost first.
    pub closed spec fn view_bindings(&self) -> Seq<(String, u32)> {
        self.bindings@
    }

    /// An empty scope.
    pub fn new() -> (r: Self)
        ensures
            r.view_bindings().len() == 0,
    {
        Scope { bindings: Vec::new() }
    }

    /// Binds `name` to cursor `csr`, shadowing any earlier binding.
    pub fn push(&mut self, name: String, csr: u32)
        ensures
            final(self).view_bindings() == old(self).view_bindings().push((name, csr)),
    {
        self.bindings.push((name, csr));
    }

    /// The innermost binding of `name`.
    pub fn resolve(&self, name: &str) -> (r: Option<u32>)
        ensures
            r == scope_resolve(self.view_bindings(), name@),
    {
        let mut i: usize = self.bindings.len();
        assert(self.bindings@.take(i as int) =~= self.bindings@);
        while i > 0
            invariant
                i <= self.bindings@.len(),
                scope_resolve(self.bindings@, name@) == scope_resolve(
                    self.bindings@.take(i as int),
                    name@,
                ),
            decreases i,
        {
            assert(self.bindings@.take(i as int).drop_last() =~= self.bindings@.take(i - 1));
            if str_eq(self.bindings[i - 1].0.as_str(), name) {
                return Some(self.bindings[i - 1].1);
            }
            i = i - 1;
        }
        assert(self.bindings@.take(0) =~= Seq::<(String, u32)>::empty());
        None
    }

    /// A restore point: the number of bindings now.
    pub fn mark(&self) -> (r: usize)
        ensures
            r == self.view_bindings().len(),
    {
        self.bindings.len()
    }

    /// Drops every binding added since `mark`.
    pub fn truncate(&mut self, mark: usize)
        ensures
            final(self).view_bindings() == if mark < old(self).view_bindings().len() {
                old(self).view_bindings().take(mark as int)
            } else {
                old(self).view_bindings()
            },
    {
        self.bindings.truncate(mark);
    }
}

/// The outcome of trying to lower a subscript to a keyed-table lookup:
/// handled here (lowered, or an error recorded), or handed back untouched.
pub enum Lowering {
    Handled(Expr),
    NotGet(Expr),
}

/// Binds statements against a snapshot of the catalog's table definitions.
pub struct Binder {
    tables: Vec<TableDefinition>,
    scope: Scope,
    next_cursor: u32,
    allow_agg: bool,
    errors: Vec<Error>,
}

impl Binder {
    /// Every table of the snapshot has its oid.
    pub closed spec fn wf(&self) -> bool {
        forall|i: int| 0 <= i < self.tables@.len() ==> (#[trigger] self.tables@[i]).oid is Some
    }

    /// The errors recorded so far.
    pub closed spec fn errors_view(&self) -> Seq<Error> {
        self.errors@
    }

    /// Whether aggregates are allowed at the current position.
    pub closed spec fn allows_agg(&self) -> bool {
        self.allow_agg
    }

    /// The catalog snapshot the binder resolves against.
    pub closed spec fn tables_view(&self) -> Seq<TableDefinition> {
        self.tables@
    }

    /// The bindings in scope, outermost first.
    pub closed spec fn scope_view(&self) -> Seq<(String, u32)> {
        self.scope.bindings@
    }

    /// The next cursor slot to hand out.
    pub closed spec fn next_slot(&self) -> u32 {
        self.next_cursor
    }

    /// Creates a binder over a catalog snapshot, each table with its oid.
    pub fn new(tables: Vec<TableDefinition>) -> (b: Self)
        requires
            forall|i: int| 0 <= i < tables@.len() ==> (#[trigger] tables@[i]).oid is Some,
        ensures
            b.wf(),
            b.errors_view().len() == 0,
            !b.allows_agg(),
            b.tables_view() == tables@,
            b.scope_view().len() == 0,
            b.next_slot() == 0,
    {
        Binder { tables, scope: Scope::new(), next_cursor: 0, allow_agg: false, errors: Vec::new() }
    }

    /// `self` is `old` with more errors, perhaps more bindings and cursors,
    /// the same snapshot and the same aggregate permission.
    pub closed spec fn went_on(&self, old: &Binder) -> bool {
        &&& self.tables == old.tables
        &&& self.allow_agg == old.allow_agg
        &&& old.errors@.len() <= self.errors@.len()
    }

    /// Allocates and returns the next cursor slot.
    fn fresh_cursor(&mut self) -> (r: u32)
        ensures
            final(self).went_on(old(self)),
            final(self).scope == old(self).scope,
            r == old(self).next_cursor,
            old(self).next_cursor < u32::MAX ==> final(self).next_cursor == old(self).next_cursor + 1
                && final(self).errors@ == old(self).errors@,
            old(self).next_cursor == u32::MAX ==> final(self).next_cursor == old(self).next_cursor
                && final(self).errors@.len() == old(self).errors@.len() + 1,
    {
        let id = self.next_cursor;
        if id == u32::MAX {
            self.errors.push(Error::InternalError(String::from_str("cursor slot overflow")));
        } else {
            self.next_cursor = id + 1;
        }
        id
    }

    /// The innermost binding of `name`.
    fn resolve(&self, name: &str) -> (r: Option<u32>)
        ensures
            r == scope_resolve(self.scope.bindings@, name@),
    {
        self.scope.resolve(name)
    }

    /// The index of the catalog table named `name`, if any.
    fn find_table(&self, name: &str) -> (r: Option<usize>)
        ensures
            match r {
                Some(i) => i < self.tables@.len() && self.tables@[i as int].name@ == name@
                    && table_index(self.tables@, name@) == Some(i as int),
                None => table_index(self.tables@, name@) is None,
            },
    {
        let mut i: usize = 0;
        assert(self.tables@.skip(0) =~= self.tables@);
        while i < self.tables.len()
            invariant
                i <= self.tables@.len(),
                table_index(self.tables@, name@) == match table_index(
                    self.tables@.skip(i as int),
                    name@,
                ) {
                    Some(j) => Some(j + i),
                    None => None,
                },
            decreases self.tables@.len() - i,
        {
            assert(self.tables@.skip(i as int).drop_first() =~= self.tables@.skip(i + 1));
            if str_eq(self.tables[i].name.as_str(), name) {
                return Some(i);
            }
            i = i + 1;
        }
        None
    }

    /// A copy of the definition of the catalog table named `name`; records
    /// an unbound-table error when there is none.
    fn get_table(&mut self, name: &str) -> (r: Option<TableDefinition>)
        requires
            old(self).wf(),
        ensures
            final(self).went_on(old(self)),
            final(self).scope == old(self).scope,
            final(self).next_cursor == old(self).next_cursor,
            r matches Some(d) ==> d.oid is Some,
            r is None ==> final(self).errors@.len() > old(self).errors@.len(),
            r is Some <==> table_index(old(self).tables@, name@) is Some,
            r matches Some(d) ==> d.oid == old(self).tables@[table_index(
                old(self).tables@,
                name@,
            )->0].oid && keys_same(
                d.keys@,
                old(self).tables@[table_index(old(self).tables@, name@)->0].keys@,
            ),
            r is Some ==> final(self).errors@ == old(self).errors@,
    {
        match self.find_table(name) {
            Some(i) => {
                let t = &self.tables[i];
                Some(TableDefinition { oid: t.oid, name: t.name.clone(), keys: copy_keys(&t.keys) })
            },
            None => {
                self.errors.push(Error::UnboundTable(String::from_str(name)));
                None
            },
        }
    }
}


/// The message of an aggregate call where aggregates are not allowed.
pub open spec fn agg_here_text(name: Seq<char>) -> Seq<char> {
    "aggregate '"@ + name + "' is not allowed here"@
}

/// The index of the catalog table that `e` looks up by key: `e` is a
/// computed path step (`t[k]`) or a subscript (`t[k, ..]`) whose base is a
/// name, not bound in `scope`, of a catalog table.
pub open spec fn get_target(
    e: Expr,
    scope: Seq<(String, u32)>,
    tables: Seq<TableDefinition>,
) -> Option<int> {
    let base = match e {
        Expr::Jpe(j) => Some(*j.inp),
        Expr::Subscript(sub) => Some(*sub.base),
        _ => None,
    };
    match base {
        Some(Expr::Var(v)) => if v.bind is None && scope_resolve(scope, v.name@) is None {
            table_index(tables, v.name@)
        } else {
            None
        },
        _ => None,
    }
}

/// The key expressions of a keyed lookup.
pub open spec fn key_args(e: Expr) -> Seq<Expr> {
    match e {
        Expr::Jpe(j) => seq![*j.exp],
        Expr::Subscript(sub) => sub.args@,
        _ => Seq::empty(),
    }
}

/// The value of a literal key.
pub open spec fn lit_value(e: Expr) -> Value {
    match e {
        Expr::Lit(v) => v,
        _ => Value::Null,
    }
}

/// `r` is the keyed lookup of table `t` that `e` lowers to: the table's oid
/// and key columns, and the literal keys in order.
pub open spec fn lowered_get(e: Expr, r: Expr, t: TableDefinition) -> bool {
    &&& r matches Expr::Get(g)
    &&& t.oid == Some(g.oid)
    &&& keys_same(g.keys@, t.keys@)
    &&& g.args@ == key_args(e).map_values(|a: Expr| lit_value(a))
}

/// `r` is `e` bound against `scope` and the catalog `tables`, aggregates
/// allowed at the top when `allow`: each variable without a binding takes
/// its innermost binding in `scope`, an aggregate call becomes an aggregate
/// term over its bound argument (aggregates not allowed inside), a keyed
/// table access becomes a keyed lookup, and everything else keeps its shape.
pub open spec fn binds(
    e: Expr,
    r: Expr,
    scope: Seq<(String, u32)>,
    tables: Seq<TableDefinition>,
    allow: bool,
) -> bool
    decreases e,
{
    match get_target(e, scope, tables) {
        Some(ti) => lowered_get(e, r, tables[ti]),
        None => match e {
            Expr::Call(c) => match aggregate_of(c.name@) {
                Some(kind) => allow && c.args@.len() == 1 && (r matches Expr::Agg(a) && a.kind
                    == kind && a.slot is None && (a.arg matches Some(x) && binds(
                    c.args@[0],
                    *x,
                    scope,
                    tables,
                    false,
                ))),
                None => r matches Expr::Call(d) && d.name == c.name && d.args@.len()
                    == c.args@.len() && forall|i: int|
                    0 <= i < c.args@.len() ==> binds(
                        #[trigger] c.args@[i],
                        d.args@[i],
                        scope,
                        tables,
                        allow,
                    ),
            },
            Expr::Agg(a) => allow && (r matches Expr::Agg(b) && b.kind == a.kind && b.slot
                == a.slot && match (a.arg, b.arg) {
                (None, None) => true,
                (Some(x), Some(y)) => binds(*x, *y, scope, tables, false),
                _ => false,
            }),
            Expr::Jpe(j) => r matches Expr::Jpe(k) && binds(*j.inp, *k.inp, scope, tables, allow)
                && binds(*j.exp, *k.exp, scope, tables, allow),
            Expr::Subscript(sub) => r matches Expr::Subscript(t) && binds(
                *sub.base,
                *t.base,
                scope,
                tables,
                allow,
            ) && t.args@.len() == sub.args@.len() && forall|i: int|
                0 <= i < sub.args@.len() ==> binds(
                    #[trigger] sub.args@[i],
                    t.args@[i],
                    scope,
                    tables,
                    allow,
                ),
            Expr::Var(v) => r == Expr::Var(
                Var {
                    name: v.name,
                    bind: match v.bind {
                        Some(b) => Some(b),
                        None => scope_resolve(scope, v.name@),
                    },
                },
            ),
            Expr::Jpi(j) => r matches Expr::Jpi(k) && k.idx == j.idx && binds(
                *j.inp,
                *k.inp,
                scope,
                tables,
                allow,
            ),
            Expr::Jpk(j) => r matches Expr::Jpk(k) && k.key == j.key && binds(
                *j.inp,
                *k.inp,
                scope,
                tables,
                allow,
            ),
            Expr::Obj(ms) => r matches Expr::Obj(ns) && ns@.len() == ms@.len() && forall|i: int|
                0 <= i < ms@.len() ==> member_binds(
                    #[trigger] ms@[i],
                    ns@[i],
                    scope,
                    tables,
                    allow,
                ),
            Expr::Array(xs) => r matches Expr::Array(ys) && ys@.len() == xs@.len() && forall|i: int|
                0 <= i < xs@.len() ==> binds(#[trigger] xs@[i], ys@[i], scope, tables, allow),
            Expr::Lit(_) => r == e,
            Expr::Get(_) => r == e,
        },
    }
}

/// The bindings a bound from-item adds to the scope: its alias to its
/// cursor, or for an unpivot its alias to the value cursor and its
/// attribute alias, if any, to the attribute cursor.
pub open spec fn item_scope(f: crate::ir::From) -> Seq<(String, u32)> {
    match f.src {
        Source::Unpivot(u) => seq![(f.var, u.val_csr.unwrap())] + match u.att {
            Some(a) => seq![(a, u.att_csr.unwrap())],
            None => Seq::empty(),
        },
        _ => seq![(f.var, f.csr.unwrap())],
    }
}

/// The bindings a bound from clause adds, in order.
pub open spec fn from_scope(from: Seq<crate::ir::From>) -> Seq<(String, u32)>
    decreases from.len(),
{
    if from.len() == 0 {
        Seq::empty()
    } else {
        from_scope(from.drop_last()) + item_scope(from.last())
    }
}

/// `r` is the from-item `f` bound against `scope`: same alias, a cursor
/// given, a table source resolved to its catalog oid, a value or unpivot
/// source's expression bound (aggregates not allowed), an unpivot given
/// its value cursor and, with an attribute alias, its attribute cursor.
pub open spec fn from_binds(
    f: crate::ir::From,
    r: crate::ir::From,
    scope: Seq<(String, u32)>,
    tables: Seq<TableDefinition>,
) -> bool {
    &&& r.var == f.var
    &&& r.csr is Some
    &&& match f.src {
        Source::Table(name) => r.src == Source::Table(name) && (table_index(tables, name@) matches Some(
            i,
        ) && r.oid == tables[i].oid),
        Source::Value(x) => r.oid == f.oid && (r.src matches Source::Value(y) && binds(
            *x,
            *y,
            scope,
            tables,
            false,
        )),
        Source::Unpivot(u) => r.oid == f.oid && (r.src matches Source::Unpivot(w) && binds(
            *u.expr,
            *w.expr,
            scope,
            tables,
            false,
        ) && w.att == u.att && w.val_csr is Some && (u.att is Some ==> w.att_csr is Some) && (
        u.att is None ==> w.att_csr == u.att_csr)),
    }
}

/// Two optional expressions, bound as [`binds`] says.
pub open spec fn opt_binds(
    a: Option<Expr>,
    b: Option<Expr>,
    scope: Seq<(String, u32)>,
    tables: Seq<TableDefinition>,
    allow: bool,
) -> bool {
    match (a, b) {
        (None, None) => true,
        (Some(x), Some(y)) => binds(x, y, scope, tables, allow),
        _ => false,
    }
}

/// A projection bound with aggregates allowed.
pub open spec fn cons_binds(
    c: Constructor,
    d: Constructor,
    scope: Seq<(String, u32)>,
    tables: Seq<TableDefinition>,
) -> bool {
    match c {
        Constructor::Identity => d is Identity,
        Constructor::Star => d is Star,
        Constructor::Expr(e) => d matches Constructor::Expr(x) && binds(e, x, scope, tables, true),
        Constructor::List(ms) => d matches Constructor::List(ns) && ns@.len() == ms@.len()
            && forall|i: int|
            0 <= i < ms@.len() ==> member_binds(#[trigger] ms@[i], ns@[i], scope, tables, true),
        Constructor::Pivot(p) => d matches Constructor::Pivot(q) && binds(
            *p.value,
            *q.value,
            scope,
            tables,
            true,
        ) && binds(*p.name, *q.name, scope, tables, true),
    }
}

/// `r` is the SELECT `s` bound against `scope`: each from-item in turn
/// against the bindings before it, then the rest against all of them — the
/// WHERE clause, the group keys and the order keys plain, HAVING and the
/// projection with aggregates allowed.
pub open spec fn select_binds(
    s: Select,
    r: Select,
    scope: Seq<(String, u32)>,
    tables: Seq<TableDefinition>,
) -> bool {
    let sc = scope + from_scope(r.from@);
    &&& r.from@.len() == s.from@.len()
    &&& forall|i: int|
        0 <= i < s.from@.len() ==> from_binds(
            #[trigger] s.from@[i],
            r.from@[i],
            scope + from_scope(r.from@.take(i)),
            tables,
        )
    &&& opt_binds(s.where_, r.where_, sc, tables, false)
    &&& match (s.group, r.group) {
        (None, None) => true,
        (Some(g), Some(h)) => h.keys@.len() == g.keys@.len() && forall|i: int|
            0 <= i < g.keys@.len() ==> binds(#[trigger] g.keys@[i], h.keys@[i], sc, tables, false),
        _ => false,
    }
    &&& opt_binds(s.having, r.having, sc, tables, true)
    &&& match (s.order, r.order) {
        (None, None) => true,
        (Some(o), Some(p)) => p.keys@.len() == o.keys@.len() && forall|i: int|
            0 <= i < o.keys@.len() ==> (#[trigger] o.keys@[i]).desc == p.keys@[i].desc && binds(
                o.keys@[i].expr,
                p.keys@[i].expr,
                sc,
                tables,
                false,
            ),
        _ => false,
    }
    &&& r.limit == s.limit
    &&& cons_binds(s.select, r.select, sc, tables)
}

/// `r` is the statement `s` bound against `scope`: a SELECT as
/// [`select_binds`] says; an INSERT's target resolved (when it has no oid)
/// and its rows bound; a DELETE's from-item and then its WHERE clause
/// bound; a DROP's or CLEAR's table resolved to its oid.
pub open spec fn statement_binds(
    s: Statement,
    r: Statement,
    scope: Seq<(String, u32)>,
    tables: Seq<TableDefinition>,
) -> bool {
    match s {
        Statement::Select(q) => r matches Statement::Select(q2) && select_binds(q, q2, scope, tables),
        Statement::Insert(i) => r matches Statement::Insert(j) && j.target.name == i.target.name
            && (if i.target.oid is Some {
            j.target == i.target
        } else {
            table_index(tables, i.target.name@) matches Some(k) && j.target.oid == tables[k].oid
                && keys_same(j.target.keys@, tables[k].keys@)
        }) && j.source@.len() == i.source@.len() && forall|k: int|
            0 <= k < i.source@.len() ==> binds(
                #[trigger] i.source@[k],
                j.source@[k],
                scope,
                tables,
                false,
            ),
        Statement::Delete(d) => r matches Statement::Delete(e) && from_binds(
            d.from,
            e.from,
            scope,
            tables,
        ) && opt_binds(d.where_, e.where_, scope + item_scope(e.from), tables, false),
        Statement::Drop(d) => r matches Statement::Drop(e) && e.name == d.name && (table_index(
            tables,
            d.name@,
        ) matches Some(k) && e.oid == tables[k].oid),
        Statement::Clear(c) => r matches Statement::Clear(e) && e.name == c.name && (table_index(
            tables,
            c.name@,
        ) matches Some(k) && e.oid == tables[k].oid),
        Statement::Create(_) => r == s,
    }
}

/// The names a scope binds, outermost first.
pub open spec fn names_of(scope: Seq<(String, u32)>) -> Seq<Seq<char>> {
    scope.map_values(|p: (String, u32)| p.0@)
}

/// A name resolves in a scope exactly when the scope binds it.
pub proof fn lemma_resolve_names(scope: Seq<(String, u32)>, name: Seq<char>)
    ensures
        (scope_resolve(scope, name) is Some) == names_of(scope).contains(name),
    decreases scope.len(),
{
    if scope.len() > 0 {
        let d = scope.drop_last();
        lemma_resolve_names(d, name);
        assert(names_of(scope) =~= names_of(d).push(scope.last().0@));
        assert(names_of(scope)[scope.len() - 1] == scope.last().0@);
        if names_of(d).contains(name) {
            let i = choose|i: int| 0 <= i < names_of(d).len() && names_of(d)[i] == name;
            assert(names_of(scope)[i] == name);
        }
        if names_of(scope).contains(name) {
            let i = choose|i: int| 0 <= i < names_of(scope).len() && names_of(scope)[i] == name;
            if i < d.len() {
                assert(names_of(d)[i] == name);
            }
        }
    }
}

/// [`get_target`] over the names in scope.
pub open spec fn target_in(e: Expr, names: Seq<Seq<char>>, tables: Seq<TableDefinition>) -> Option<
    int,
> {
    let base = match e {
        Expr::Jpe(j) => Some(*j.inp),
        Expr::Subscript(sub) => Some(*sub.base),
        _ => None,
    };
    match base {
        Some(Expr::Var(v)) => if v.bind is None && !names.contains(v.name@) {
            table_index(tables, v.name@)
        } else {
            None
        },
        _ => None,
    }
}

/// The lookup target depends on the scope's names only.
pub proof fn lemma_target_names(e: Expr, scope: Seq<(String, u32)>, tables: Seq<TableDefinition>)
    ensures
        get_target(e, scope, tables) == target_in(e, names_of(scope), tables),
{
    match e {
        Expr::Jpe(j) => if let Expr::Var(v) = *j.inp {
            lemma_resolve_names(scope, v.name@);
        },
        Expr::Subscript(sub) => if let Expr::Var(v) = *sub.base {
            lemma_resolve_names(scope, v.name@);
        },
        _ => {},
    }
}

/// Whether `e` binds without error against the names in scope and the
/// catalog `tables`, aggregates allowed at the top when `allow`: every
/// variable has a binding, aggregates stand only where allowed (and then
/// with one argument, itself free of aggregates), and a keyed table access
/// names a table with key columns, no more keys than it has, all literal.
pub open spec fn bindable(
    e: Expr,
    names: Seq<Seq<char>>,
    tables: Seq<TableDefinition>,
    allow: bool,
) -> bool
    decreases e,
{
    match target_in(e, names, tables) {
        Some(ti) => {
            &&& tables[ti].keys@.len() > 0
            &&& key_args(e).len() <= tables[ti].keys@.len()
            &&& forall|i: int| 0 <= i < key_args(e).len() ==> (#[trigger] key_args(e)[i]) is Lit
        },
        None => match e {
            Expr::Call(c) => match aggregate_of(c.name@) {
                Some(_) => allow && c.args@.len() == 1 && bindable(c.args@[0], names, tables, false),
                None => forall|i: int|
                    0 <= i < c.args@.len() ==> bindable(#[trigger] c.args@[i], names, tables, allow),
            },
            Expr::Agg(a) => allow && match a.arg {
                Some(x) => bindable(*x, names, tables, false),
                None => true,
            },
            Expr::Jpe(j) => bindable(*j.inp, names, tables, allow) && bindable(
                *j.exp,
                names,
                tables,
                allow,
            ),
            Expr::Subscript(sub) => bindable(*sub.base, names, tables, allow) && forall|i: int|
                0 <= i < sub.args@.len() ==> bindable(#[trigger] sub.args@[i], names, tables, allow),
            Expr::Var(v) => v.bind is Some || names.contains(v.name@),
            Expr::Jpi(j) => bindable(*j.inp, names, tables, allow),
            Expr::Jpk(j) => bindable(*j.inp, names, tables, allow),
            Expr::Obj(ms) => forall|i: int|
                0 <= i < ms@.len() ==> member_bindable(#[trigger] ms@[i], names, tables, allow),
            Expr::Array(xs) => forall|i: int|
                0 <= i < xs@.len() ==> bindable(#[trigger] xs@[i], names, tables, allow),
            _ => true,
        },
    }
}

/// Whether a member's value binds without error.
pub open spec fn member_bindable(
    m: Member,
    names: Seq<Seq<char>>,
    tables: Seq<TableDefinition>,
    allow: bool,
) -> bool
    decreases m,
{
    match m {
        Member::Assign(_, x) => bindable(x, names, tables, allow),
        Member::Spread(x) => bindable(x, names, tables, allow),
    }
}

/// The number of cursor slots binding `e` hands out: one per keyed lookup.
pub open spec fn lookups(e: Expr, names: Seq<Seq<char>>, tables: Seq<TableDefinition>) -> nat
    decreases e, 0int,
{
    match target_in(e, names, tables) {
        Some(_) => 1,
        None => match e {
            Expr::Call(c) => lookups_list(c.args@, c.args@.len() as int, names, tables),
            Expr::Agg(a) => match a.arg {
                Some(x) => lookups(*x, names, tables),
                None => 0,
            },
            Expr::Jpe(j) => lookups(*j.inp, names, tables) + lookups(*j.exp, names, tables),
            Expr::Subscript(sub) => lookups(*sub.base, names, tables) + lookups_list(
                sub.args@,
                sub.args@.len() as int,
                names,
                tables,
            ),
            Expr::Jpi(j) => lookups(*j.inp, names, tables),
            Expr::Jpk(j) => lookups(*j.inp, names, tables),
            Expr::Obj(ms) => lookups_members(ms@, ms@.len() as int, names, tables),
            Expr::Array(xs) => lookups_list(xs@, xs@.len() as int, names, tables),
            _ => 0,
        },
    }
}

/// [`lookups`] over the first `n` expressions of a list.
pub open spec fn lookups_list(
    items: Seq<Expr>,
    n: int,
    names: Seq<Seq<char>>,
    tables: Seq<TableDefinition>,
) -> nat
    decreases items, n,
{
    if n <= 0 || n > items.len() {
        0
    } else {
        lookups_list(items, n - 1, names, tables) + lookups(items[n - 1], names, tables)
    }
}

/// [`lookups`] over the first `n` members.
pub open spec fn lookups_members(
    ms: Seq<Member>,
    n: int,
    names: Seq<Seq<char>>,
    tables: Seq<TableDefinition>,
) -> nat
    decreases ms, n,
{
    if n <= 0 || n > ms.len() {
        0
    } else {
        lookups_members(ms, n - 1, names, tables) + match ms[n - 1] {
            Member::Assign(_, x) => lookups(x, names, tables),
            Member::Spread(x) => lookups(x, names, tables),
        }
    }
}

/// The names a from-item brings into scope: its alias, and for an unpivot
/// with one, its attribute alias.
pub open spec fn item_names(f: crate::ir::From) -> Seq<Seq<char>> {
    match f.src {
        Source::Unpivot(u) => seq![f.var@] + match u.att {
            Some(a) => seq![a@],
            None => Seq::empty(),
        },
        _ => seq![f.var@],
    }
}

/// The names a from clause brings into scope, in order.
pub open spec fn from_names(from: Seq<crate::ir::From>) -> Seq<Seq<char>>
    decreases from.len(),
{
    if from.len() == 0 {
        Seq::empty()
    } else {
        from_names(from.drop_last()) + item_names(from.last())
    }
}

/// Whether a from-item binds without error against `names`: a table the
/// catalog holds; a value or unpivot source with an alias and an
/// expression that binds (aggregates not allowed).
pub open spec fn from_bindable(
    f: crate::ir::From,
    names: Seq<Seq<char>>,
    tables: Seq<TableDefinition>,
) -> bool {
    match f.src {
        Source::Table(name) => table_index(tables, name@) is Some,
        Source::Value(e) => f.var@.len() > 0 && bindable(*e, names, tables, false),
        Source::Unpivot(u) => f.var@.len() > 0 && bindable(*u.expr, names, tables, false),
    }
}

/// The cursor slots binding a from-item hands out: its own, its
/// expression's lookups, and an unpivot's value and attribute cursors.
pub open spec fn from_cursors(
    f: crate::ir::From,
    names: Seq<Seq<char>>,
    tables: Seq<TableDefinition>,
) -> nat {
    match f.src {
        Source::Table(_) => 1,
        Source::Value(e) => 1 + lookups(*e, names, tables),
        Source::Unpivot(u) => 2 + lookups(*u.expr, names, tables) + if u.att is Some {
            1nat
        } else {
            0nat
        },
    }
}

/// [`from_cursors`] over the first `n` items of a from clause, each against
/// the names before it.
pub open spec fn from_cursors_sum(
    from: Seq<crate::ir::From>,
    n: int,
    names: Seq<Seq<char>>,
    tables: Seq<TableDefinition>,
) -> nat
    decreases n,
{
    if n <= 0 {
        0
    } else {
        from_cursors_sum(from, n - 1, names, tables) + from_cursors(
            from[n - 1],
            names + from_names(from.take(n - 1)),
            tables,
        )
    }
}

/// [`lookups`] over the first `n` order keys.
pub open spec fn order_lookups(
    keys: Seq<OrderKey>,
    n: int,
    names: Seq<Seq<char>>,
    tables: Seq<TableDefinition>,
) -> nat
    decreases n,
{
    if n <= 0 {
        0
    } else {
        order_lookups(keys, n - 1, names, tables) + lookups(keys[n - 1].expr, names, tables)
    }
}

/// Whether a projection binds without error (aggregates allowed).
pub open spec fn cons_bindable(c: Constructor, names: Seq<Seq<char>>, tables: Seq<TableDefinition>) -> bool {
    match c {
        Constructor::Expr(e) => bindable(e, names, tables, true),
        Constructor::List(ms) => forall|i: int|
            0 <= i < ms@.len() ==> member_bindable(#[trigger] ms@[i], names, tables, true),
        Constructor::Pivot(p) => bindable(*p.value, names, tables, true) && bindable(
            *p.name,
            names,
            tables,
            true,
        ),
        _ => true,
    }
}

/// The lookups of a projection.
pub open spec fn cons_lookups(c: Constructor, names: Seq<Seq<char>>, tables: Seq<TableDefinition>) -> nat {
    match c {
        Constructor::Expr(e) => lookups(e, names, tables),
        Constructor::List(ms) => lookups_members(ms@, ms@.len() as int, names, tables),
        Constructor::Pivot(p) => lookups(*p.value, names, tables) + lookups(*p.name, names, tables),
        _ => 0,
    }
}

/// Whether each from-item binds against the names before it.
pub open spec fn from_bindable_all(
    from: Seq<crate::ir::From>,
    names: Seq<Seq<char>>,
    tables: Seq<TableDefinition>,
) -> bool {
    forall|i: int|
        0 <= i < from.len() ==> from_bindable(
            #[trigger] from[i],
            names + from_names(from.take(i)),
            tables,
        )
}

/// Whether an optional expression binds.
pub open spec fn opt_bindable(
    o: Option<Expr>,
    names: Seq<Seq<char>>,
    tables: Seq<TableDefinition>,
    allow: bool,
) -> bool {
    match o {
        Some(x) => bindable(x, names, tables, allow),
        None => true,
    }
}

/// The lookups of an optional expression.
pub open spec fn opt_lookups(o: Option<Expr>, names: Seq<Seq<char>>, tables: Seq<TableDefinition>) -> nat {
    match o {
        Some(x) => lookups(x, names, tables),
        None => 0,
    }
}

/// Whether the group keys bind (aggregates not allowed).
pub open spec fn group_bindable(
    g: Option<GroupBy>,
    names: Seq<Seq<char>>,
    tables: Seq<TableDefinition>,
) -> bool {
    match g {
        Some(g) => forall|i: int|
            0 <= i < g.keys@.len() ==> bindable(#[trigger] g.keys@[i], names, tables, false),
        None => true,
    }
}

/// The lookups of the group keys.
pub open spec fn group_lookups(
    g: Option<GroupBy>,
    names: Seq<Seq<char>>,
    tables: Seq<TableDefinition>,
) -> nat {
    match g {
        Some(g) => lookups_list(g.keys@, g.keys@.len() as int, names, tables),
        None => 0,
    }
}

/// Whether the order keys bind (aggregates not allowed).
pub open spec fn order_bindable(
    o: Option<OrderBy>,
    names: Seq<Seq<char>>,
    tables: Seq<TableDefinition>,
) -> bool {
    match o {
        Some(o) => forall|i: int|
            0 <= i < o.keys@.len() ==> bindable(#[trigger] o.keys@[i].expr, names, tables, false),
        None => true,
    }
}

/// The lookups of the order keys.
pub open spec fn order_lookups_of(
    o: Option<OrderBy>,
    names: Seq<Seq<char>>,
    tables: Seq<TableDefinition>,
) -> nat {
    match o {
        Some(o) => order_lookups(o.keys@, o.keys@.len() as int, names, tables),
        None => 0,
    }
}

/// Whether a SELECT binds without error against `names`: each from-item
/// against the names before it, then the rest against all of them — the
/// WHERE clause, group keys and order keys plain, HAVING and the
/// projection with aggregates allowed.
#[verifier::opaque]
pub open spec fn select_bindable(s: Select, names: Seq<Seq<char>>, tables: Seq<TableDefinition>) -> bool {
    let sc = names + from_names(s.from@);
    &&& from_bindable_all(s.from@, names, tables)
    &&& opt_bindable(s.where_, sc, tables, false)
    &&& group_bindable(s.group, sc, tables)
    &&& opt_bindable(s.having, sc, tables, true)
    &&& order_bindable(s.order, sc, tables)
    &&& cons_bindable(s.select, sc, tables)
}

/// The cursor slots binding a SELECT hands out.
#[verifier::opaque]
pub open spec fn select_cursors(s: Select, names: Seq<Seq<char>>, tables: Seq<TableDefinition>) -> nat {
    let sc = names + from_names(s.from@);
    from_cursors_sum(s.from@, s.from@.len() as int, names, tables) + opt_lookups(s.where_, sc, tables)
        + group_lookups(s.group, sc, tables) + opt_lookups(s.having, sc, tables) + order_lookups_of(
        s.order,
        sc,
        tables,
    ) + cons_lookups(s.select, sc, tables)
}

/// A SELECT's condition and cursor count, part by part.
pub proof fn lemma_select_total(s: Select, names: Seq<Seq<char>>, tables: Seq<TableDefinition>)
    ensures
        ({
            let sc = names + from_names(s.from@);
            &&& select_bindable(s, names, tables) == (from_bindable_all(s.from@, names, tables)
                && opt_bindable(s.where_, sc, tables, false) && group_bindable(s.group, sc, tables)
                && opt_bindable(s.having, sc, tables, true) && order_bindable(s.order, sc, tables)
                && cons_bindable(s.select, sc, tables))
            &&& select_cursors(s, names, tables) == from_cursors_sum(
                s.from@,
                s.from@.len() as int,
                names,
                tables,
            ) + opt_lookups(s.where_, sc, tables) + group_lookups(s.group, sc, tables) + opt_lookups(
                s.having,
                sc,
                tables,
            ) + order_lookups_of(s.order, sc, tables) + cons_lookups(s.select, sc, tables)
        }),
{
    reveal(select_bindable);
    reveal(select_cursors);
}

/// One more from-item: its names and cursors follow the prefix's.
pub proof fn lemma_from_step(
    from: Seq<crate::ir::From>,
    k: int,
    names: Seq<Seq<char>>,
    tables: Seq<TableDefinition>,
)
    requires
        0 <= k < from.len(),
    ensures
        names + from_names(from.take(k + 1)) == names + from_names(from.take(k)) + item_names(
            from[k],
        ),
        from_cursors_sum(from, k + 1, names, tables) == from_cursors_sum(from, k, names, tables)
            + from_cursors(from[k], names + from_names(from.take(k)), tables),
{
    assert(from.take(k + 1).drop_last() =~= from.take(k));
    assert(from.take(k + 1).last() == from[k]);
    assert(names + from_names(from.take(k + 1)) =~= names + from_names(from.take(k)) + item_names(
        from[k],
    ));
}

/// Whether a statement binds without error against `names` and the
/// catalog `tables`: a SELECT as [`select_bindable`] says; an INSERT into a
/// known table (or one with its oid) with rows that bind; a DELETE whose
/// from-item and then WHERE clause bind; a DROP or CLEAR of a known table.
pub open spec fn statement_bindable(
    s: Statement,
    names: Seq<Seq<char>>,
    tables: Seq<TableDefinition>,
) -> bool {
    match s {
        Statement::Select(q) => select_bindable(q, names, tables),
        Statement::Insert(i) => (i.target.oid is Some || table_index(tables, i.target.name@) is Some)
            && forall|k: int|
            0 <= k < i.source@.len() ==> bindable(#[trigger] i.source@[k], names, tables, false),
        Statement::Delete(d) => from_bindable(d.from, names, tables) && (d.where_ matches Some(w)
            ==> bindable(w, names + item_names(d.from), tables, false)),
        Statement::Drop(d) => table_index(tables, d.name@) is Some,
        Statement::Clear(c) => table_index(tables, c.name@) is Some,
        Statement::Create(_) => true,
    }
}

/// The cursor slots binding a statement hands out.
pub open spec fn statement_cursors(
    s: Statement,
    names: Seq<Seq<char>>,
    tables: Seq<TableDefinition>,
) -> nat {
    match s {
        Statement::Select(q) => select_cursors(q, names, tables),
        Statement::Insert(i) => lookups_list(i.source@, i.source@.len() as int, names, tables),
        Statement::Delete(d) => from_cursors(d.from, names, tables) + match d.where_ {
            Some(w) => lookups(w, names + item_names(d.from), tables),
            None => 0,
        },
        _ => 0,
    }
}

/// `n` is the member `m` with its expression bound as [`binds`] says.
pub open spec fn member_binds(
    m: Member,
    n: Member,
    scope: Seq<(String, u32)>,
    tables: Seq<TableDefinition>,
    allow: bool,
) -> bool
    decreases m,
{
    match m {
        Member::Assign(k, x) => n matches Member::Assign(l, y) && l == k && binds(
            x,
            y,
            scope,
            tables,
            allow,
        ),
        Member::Spread(x) => n matches Member::Spread(y) && binds(x, y, scope, tables, allow),
    }
}

impl Binder {
    /// Binds an expression: lowers an aggregate call (allowed only in a
    /// projection or HAVING) to an aggregate term, a keyed-table subscript
    /// to a keyed lookup, and resolves each variable. With no error
    /// recorded, the result is bound for its position.
    fn visit_expr(&mut self, e: Expr) -> (r: Expr)
        requires
            old(self).wf(),
        ensures
            final(self).wf(),
            final(self).went_on(old(self)),
            final(self).errors@.len() == old(self).errors@.len() ==> bound_at(
                r,
                old(self).allow_agg,
            ),
            final(self).scope == old(self).scope,
            final(self).errors@.len() == old(self).errors@.len() ==> binds(
                e,
                r,
                old(self).scope.bindings@,
                old(self).tables@,
                old(self).allow_agg,
            ),
            (final(self).errors@.len() == old(self).errors@.len()) <==> (bindable(
                e,
                names_of(old(self).scope.bindings@),
                old(self).tables@,
                old(self).allow_agg,
            ) && old(self).next_cursor + lookups(e, names_of(old(self).scope.bindings@), old(self).tables@)
                <= u32::MAX),
            final(self).errors@.len() == old(self).errors@.len() ==> final(self).next_cursor == old(
                self,
            ).next_cursor + lookups(e, names_of(old(self).scope.bindings@), old(self).tables@),
        decreases e, 1nat,
    {
        proof {
            lemma_target_names(e, self.scope.bindings@, self.tables@);
        }
        let ghost e0 = e;
        match e {
            Expr::Call(c) => {
                match is_aggregate(c.name.as_str()) {
                    Some(kind) => {
                        if !self.allow_agg {
                            let msg = String::from_str("aggregate '").concat(c.name.as_str()).concat(
                                "' is not allowed here",
                            );
                            self.errors.push(Error::BindError(msg));
                            return Expr::Call(c);
                        }
                        let Call { name, args } = c;
                        if args.len() != 1 {
                            let msg = String::from_str("aggregate '").concat(name.as_str()).concat(
                                "' takes exactly one argument",
                            );
                            self.errors.push(Error::BindError(msg));
                            return Expr::Lit(Value::Null);
                        }
                        let mut args = args;
                        let ghost a0 = args@[0];
                        proof {
                            assert(decreases_to!(e0 => args));
                            assert(decreases_to!(args => args@));
                            assert(decreases_to!(args@ => args@[0]));
                        }
                        proof {
                            let nm = names_of(self.scope.bindings@);
                            let tb = self.tables@;
                            assert(lookups_list(args@, 0, nm, tb) == 0);
                            assert(lookups_list(args@, 1, nm, tb) == lookups(a0, nm, tb));
                            assert(lookups(e0, nm, tb) == lookups(a0, nm, tb));
                        }
                        let arg = args.remove(0);
                        let saved = self.allow_agg;
                        self.allow_agg = false;
                        let arg2 = self.visit_expr(arg);
                        self.allow_agg = saved;
                        Expr::Agg(Agg { kind, arg: Some(Box::new(arg2)), slot: None })
                    },
                    None => {
                        let Call { name, args } = c;
                        let args2 = self.visit_exprs(args);
                        Expr::Call(Call { name, args: args2 })
                    },
                }
            },
            Expr::Agg(a) => {
                if !self.allow_agg {
                    self.errors.push(
                        Error::BindError(String::from_str("aggregate is not allowed here")),
                    );
                }
                let Agg { kind, arg, slot } = a;
                let arg2 = match arg {
                    Some(x) => {
                        let saved = self.allow_agg;
                        self.allow_agg = false;
                        let y = self.visit_expr(*x);
                        self.allow_agg = saved;
                        Some(Box::new(y))
                    },
                    None => None,
                };
                Expr::Agg(Agg { kind, arg: arg2, slot })
            },
            Expr::Jpe(j) => {
                let ghost nm = names_of(self.scope.bindings@);
                let ghost tb = self.tables@;
                let ghost al = self.allow_agg;
                match self.try_lower_get(Expr::Jpe(j)) {
                    Lowering::Handled(x) => {
                        assert(target_in(e0, nm, tb) is Some);
                        assert(lookups(e0, nm, tb) == 1);
                        x
                    },
                    Lowering::NotGet(x) => {
                        match x {
                            Expr::Jpe(j) => {
                                let Jpe { inp, exp } = j;
                                let ghost i0 = *inp;
                                let ghost x0 = *exp;
                                assert(target_in(e0, nm, tb) is None);
                                assert(lookups(e0, nm, tb) == lookups(i0, nm, tb) + lookups(x0, nm, tb));
                                assert(bindable(e0, nm, tb, al) == (bindable(i0, nm, tb, al) && bindable(
                                    x0,
                                    nm,
                                    tb,
                                    al,
                                )));
                                let inp2 = self.visit_expr(*inp);
                                let exp2 = self.visit_expr(*exp);
                                Expr::Jpe(Jpe { inp: Box::new(inp2), exp: Box::new(exp2) })
                            },
                            other => other,
                        }
                    },
                }
            },
            Expr::Subscript(sub) => {
                let ghost nm = names_of(self.scope.bindings@);
                let ghost tb = self.tables@;
                let ghost al = self.allow_agg;
                match self.try_lower_get(Expr::Subscript(sub)) {
                    Lowering::Handled(x) => {
                        assert(target_in(e0, nm, tb) is Some);
                        assert(lookups(e0, nm, tb) == 1);
                        x
                    },
                    Lowering::NotGet(x) => {
                        match x {
                            Expr::Subscript(sub) => {
                                let Subscript { base, args } = sub;
                                let ghost b0 = *base;
                                let ghost as0 = args@;
                                assert(target_in(e0, nm, tb) is None);
                                assert(lookups(e0, nm, tb) == lookups(b0, nm, tb) + lookups_list(
                                    as0,
                                    as0.len() as int,
                                    nm,
                                    tb,
                                ));
                                let base2 = self.visit_expr(*base);
                                let args2 = self.visit_exprs(args);
                                Expr::Subscript(Subscript { base: Box::new(base2), args: args2 })
                            },
                            other => other,
                        }
                    },
                }
            },
            Expr::Var(v) => {
                proof {
                    lemma_resolve_names(self.scope.bindings@, v.name@);
                }
                let Var { name, bind } = v;
                match bind {
                    Some(b) => Expr::Var(Var { name, bind: Some(b) }),
                    None => {
                        let found = self.resolve(name.as_str());
                        if found.is_none() {
                            let msg = String::from_str("unresolved variable: ").concat(
                                name.as_str(),
                            );
                            self.errors.push(Error::BindError(msg));
                        }
                        Expr::Var(Var { name, bind: found })
                    },
                }
            },
            Expr::Jpi(j) => {
                let Jpi { inp, idx } = j;
                let inp2 = self.visit_expr(*inp);
                Expr::Jpi(Jpi { inp: Box::new(inp2), idx })
            },
            Expr::Jpk(j) => {
                let Jpk { inp, key } = j;
                let inp2 = self.visit_expr(*inp);
                Expr::Jpk(Jpk { inp: Box::new(inp2), key })
            },
            Expr::Obj(ms) => Expr::Obj(self.visit_members(ms)),
            Expr::Array(items) => Expr::Array(self.visit_exprs(items)),
            Expr::Lit(v) => Expr::Lit(v),
            Expr::Get(g) => Expr::Get(g),
        }
    }

    /// Binds each expression of a list, in order.
    #[verifier::loop_isolation(false)]
    #[verifier::rlimit(30)]
    fn visit_exprs(&mut self, items: Vec<Expr>) -> (r: Vec<Expr>)
        requires
            old(self).wf(),
        ensures
            final(self).wf(),
            final(self).went_on(old(self)),
            r@.len() == items@.len(),
            final(self).errors@.len() == old(self).errors@.len() ==> forall|i: int|
                0 <= i < r@.len() ==> bound_at(#[trigger] r@[i], old(self).allow_agg),
            final(self).scope == old(self).scope,
            final(self).errors@.len() == old(self).errors@.len() ==> forall|i: int|
                0 <= i < r@.len() ==> binds(
                    #[trigger] items@[i],
                    r@[i],
                    old(self).scope.bindings@,
                    old(self).tables@,
                    old(self).allow_agg,
                ),
            (final(self).errors@.len() == old(self).errors@.len()) <==> ((forall|i: int|
                0 <= i < items@.len() ==> bindable(
                    #[trigger] items@[i],
                    names_of(old(self).scope.bindings@),
                    old(self).tables@,
                    old(self).allow_agg,
                )) && old(self).next_cursor + lookups_list(
                items@,
                items@.len() as int,
                names_of(old(self).scope.bindings@),
                old(self).tables@,
            ) <= u32::MAX),
            final(self).errors@.len() == old(self).errors@.len() ==> final(self).next_cursor == old(
                self,
            ).next_cursor + lookups_list(
                items@,
                items@.len() as int,
                names_of(old(self).scope.bindings@),
                old(self).tables@,
            ),
        decreases items, 1nat,
    {
        let ghost orig = items;
        let ghost all = items@;
        let mut rest = items;
        let mut out: Vec<Expr> = Vec::new();
        let ghost mut k: int = 0;
        while rest.len() > 0
            invariant
                all == orig@,
                0 <= k <= all.len(),
                rest@ == all.skip(k),
                out@.len() == k,
                self.wf(),
                self.went_on(old(self)),
                self.errors@.len() == old(self).errors@.len() ==> forall|i: int|
                    0 <= i < out@.len() ==> bound_at(#[trigger] out@[i], old(self).allow_agg),
                self.scope == old(self).scope,
                self.errors@.len() == old(self).errors@.len() ==> forall|i: int|
                    0 <= i < out@.len() ==> binds(
                        #[trigger] all[i],
                        out@[i],
                        old(self).scope.bindings@,
                        old(self).tables@,
                        old(self).allow_agg,
                    ),
                (self.errors@.len() == old(self).errors@.len()) <==> ((forall|i: int|
                    0 <= i < k ==> bindable(
                        #[trigger] all[i],
                        names_of(old(self).scope.bindings@),
                        old(self).tables@,
                        old(self).allow_agg,
                    )) && old(self).next_cursor + lookups_list(
                    all,
                    k,
                    names_of(old(self).scope.bindings@),
                    old(self).tables@,
                ) <= u32::MAX),
                self.errors@.len() == old(self).errors@.len() ==> self.next_cursor == old(
                    self,
                ).next_cursor + lookups_list(
                    all,
                    k,
                    names_of(old(self).scope.bindings@),
                    old(self).tables@,
                ),
            decreases rest.len(),
        {
            let item = rest.remove(0);
            proof {
                assert(item == all[k]);
                assert(decreases_to!(orig => orig@));
                assert(decreases_to!(orig@ => orig@[k]));
                k = k + 1;
            }
            let ghost nm = names_of(old(self).scope.bindings@);
            let ghost tb = old(self).tables@;
            let ghost kk = k - 1;
            assert(lookups_list(all, kk + 1, nm, tb) == lookups_list(all, kk, nm, tb) + lookups(
                all[kk],
                nm,
                tb,
            ));
            let x = self.visit_expr(item);
            out.push(x);
            assert((forall|i: int| 0 <= i < kk + 1 ==> bindable(#[trigger] all[i], nm, tb, old(self).allow_agg))
                == ((forall|i: int| 0 <= i < kk ==> bindable(#[trigger] all[i], nm, tb, old(self).allow_agg)) && bindable(all[kk], nm, tb, old(self).allow_agg)));
        }
        out
    }

    /// Binds each member of an object constructor, in order.
    #[verifier::loop_isolation(false)]
    fn visit_members(&mut self, ms: Vec<Member>) -> (r: Vec<Member>)
        requires
            old(self).wf(),
        ensures
            final(self).wf(),
            final(self).went_on(old(self)),
            final(self).errors@.len() == old(self).errors@.len() ==> forall|i: int|
                0 <= i < r@.len() ==> bound_at(#[trigger] member_expr(r@[i]), old(self).allow_agg),
            final(self).scope == old(self).scope,
            r@.len() == ms@.len(),
            final(self).errors@.len() == old(self).errors@.len() ==> forall|i: int|
                0 <= i < r@.len() ==> member_binds(
                    #[trigger] ms@[i],
                    r@[i],
                    old(self).scope.bindings@,
                    old(self).tables@,
                    old(self).allow_agg,
                ),
            (final(self).errors@.len() == old(self).errors@.len()) <==> ((forall|i: int|
                0 <= i < ms@.len() ==> member_bindable(
                    #[trigger] ms@[i],
                    names_of(old(self).scope.bindings@),
                    old(self).tables@,
                    old(self).allow_agg,
                )) && old(self).next_cursor + lookups_members(
                ms@,
                ms@.len() as int,
                names_of(old(self).scope.bindings@),
                old(self).tables@,
            ) <= u32::MAX),
            final(self).errors@.len() == old(self).errors@.len() ==> final(self).next_cursor == old(
                self,
            ).next_cursor + lookups_members(
                ms@,
                ms@.len() as int,
                names_of(old(self).scope.bindings@),
                old(self).tables@,
            ),
        decreases ms, 1nat,
    {
        let ghost orig = ms;
        let ghost all = ms@;
        let mut rest = ms;
        let mut out: Vec<Member> = Vec::new();
        let ghost mut k: int = 0;
        while rest.len() > 0
            invariant
                all == orig@,
                0 <= k <= all.len(),
                rest@ == all.skip(k),
                self.wf(),
                self.went_on(old(self)),
                self.errors@.len() == old(self).errors@.len() ==> forall|i: int|
                    0 <= i < out@.len() ==> bound_at(
                        #[trigger] member_expr(out@[i]),
                        old(self).allow_agg,
                    ),
                out@.len() == k,
                self.scope == old(self).scope,
                (self.errors@.len() == old(self).errors@.len()) <==> ((forall|i: int|
                    0 <= i < k ==> member_bindable(
                        #[trigger] all[i],
                        names_of(old(self).scope.bindings@),
                        old(self).tables@,
                        old(self).allow_agg,
                    )) && old(self).next_cursor + lookups_members(
                    all,
                    k,
                    names_of(old(self).scope.bindings@),
                    old(self).tables@,
                ) <= u32::MAX),
                self.errors@.len() == old(self).errors@.len() ==> self.next_cursor == old(
                    self,
                ).next_cursor + lookups_members(
                    all,
                    k,
                    names_of(old(self).scope.bindings@),
                    old(self).tables@,
                ),
                self.errors@.len() == old(self).errors@.len() ==> forall|i: int|
                    0 <= i < out@.len() ==> member_binds(
                        #[trigger] all[i],
                        out@[i],
                        old(self).scope.bindings@,
                        old(self).tables@,
                        old(self).allow_agg,
                    ),
            decreases rest.len(),
        {
            let m = rest.remove(0);
            proof {
                assert(m == all[k]);
                assert(decreases_to!(orig => orig@));
                assert(decreases_to!(orig@ => orig@[k]));
                k = k + 1;
            }
            let nm = match m {
                Member::Assign(name, x) => {
                    proof {
                        assert(decreases_to!(m => x));
                    }
                    Member::Assign(name, self.visit_expr(x))
                },
                Member::Spread(x) => {
                    proof {
                        assert(decreases_to!(m => x));
                    }
                    Member::Spread(self.visit_expr(x))
                },
            };
            out.push(nm);
        }
        out
    }

    /// If `e` is a subscript whose base is an unbound name of a catalog
    /// table not shadowed by a binding, lowers it to a keyed lookup (or
    /// records why it cannot be one); otherwise hands it back untouched.
    fn try_lower_get(&mut self, e: Expr) -> (r: Lowering)
        requires
            old(self).wf(),
        ensures
            final(self).wf(),
            final(self).went_on(old(self)),
            r matches Lowering::NotGet(x) ==> x == e && final(self).errors@.len() == old(
                self,
            ).errors@.len(),
            r matches Lowering::Handled(x) ==> (final(self).errors@.len() == old(self).errors@.len()
                ==> x is Get),
            final(self).scope == old(self).scope,
            r is NotGet <==> get_target(e, old(self).scope.bindings@, old(self).tables@) is None,
            r matches Lowering::Handled(x) ==> (final(self).errors@.len() == old(self).errors@.len()
                ==> lowered_get(
                e,
                x,
                old(self).tables@[get_target(e, old(self).scope.bindings@, old(self).tables@)->0],
            )),
            r is NotGet ==> final(self).next_cursor == old(self).next_cursor,
            r is Handled ==> ((final(self).errors@.len() == old(self).errors@.len()) <==> (bindable(
                e,
                names_of(old(self).scope.bindings@),
                old(self).tables@,
                old(self).allow_agg,
            ) && old(self).next_cursor < u32::MAX)),
            r is Handled ==> (final(self).errors@.len() == old(self).errors@.len()
                ==> final(self).next_cursor == old(self).next_cursor + 1),
        decreases e, 0nat,
    {
        proof {
            lemma_target_names(e, self.scope.bindings@, self.tables@);
        }
        let parts = match &e {
            Expr::Jpe(j) => match &*j.inp {
                Expr::Var(v) => if v.bind.is_none() {
                    Some((v.name.clone(), 1usize))
                } else {
                    None
                },
                _ => None,
            },
            Expr::Subscript(sub) => match &*sub.base {
                Expr::Var(v) => if v.bind.is_none() {
                    Some((v.name.clone(), sub.args.len()))
                } else {
                    None
                },
                _ => None,
            },
            _ => None,
        };
        let (name, arity) = match parts {
            Some(p) => p,
            None => {
                return Lowering::NotGet(e);
            },
        };
        if self.resolve(name.as_str()).is_some() {
            return Lowering::NotGet(e);
        }
        let ti = match self.find_table(name.as_str()) {
            Some(i) => i,
            None => {
                return Lowering::NotGet(e);
            },
        };
        let n = self.tables[ti].keys.len();
        if n == 0 {
            let msg = String::from_str("table '").concat(name.as_str()).concat(
                "' has no key columns to index",
            );
            self.errors.push(Error::BindError(msg));
            return Lowering::Handled(e);
        }
        if arity > n {
            let msg = String::from_str("key tuple of ").concat(decimal(arity).as_str()).concat(
                " exceeds ",
            ).concat(decimal(n).as_str()).concat(" key column(s) of table '").concat(
                name.as_str(),
            ).concat("'");
            self.errors.push(Error::BindError(msg));
            return Lowering::Handled(e);
        }
        let ghost e0 = e;
        let all_literal = match &e {
            Expr::Jpe(j) => matches!(*j.exp, Expr::Lit(_)),
            Expr::Subscript(sub) => {
                let mut ok = true;
                let mut i: usize = 0;
                while i < sub.args.len()
                    invariant
                        i <= sub.args@.len(),
                        ok <==> forall|j: int| 0 <= j < i ==> (#[trigger] sub.args@[j]) is Lit,
                    decreases sub.args@.len() - i,
                {
                    if !matches!(sub.args[i], Expr::Lit(_)) {
                        ok = false;
                    }
                    i = i + 1;
                }
                ok
            },
            _ => true,
        };
        proof {
            let ka = key_args(e0);
            if !all_literal {
                match e0 {
                    Expr::Jpe(j) => {
                        assert(ka[0] == *j.exp);
                    },
                    Expr::Subscript(sub) => {
                        let w = choose|w: int| 0 <= w < sub.args@.len() && !(sub.args@[w] is Lit);
                        assert(ka[w] == sub.args@[w]);
                    },
                    _ => {},
                }
                assert(!(forall|i: int| 0 <= i < ka.len() ==> (#[trigger] ka[i]) is Lit));
            } else {
                assert(forall|i: int| 0 <= i < ka.len() ==> (#[trigger] ka[i]) is Lit);
            }
        }
        if !all_literal {
            let visited = match e {
                Expr::Jpe(j) => {
                    let Jpe { inp, exp } = j;
                    let exp2 = self.visit_expr(*exp);
                    Expr::Jpe(Jpe { inp, exp: Box::new(exp2) })
                },
                Expr::Subscript(sub) => {
                    let Subscript { base, args } = sub;
                    let args2 = self.visit_exprs(args);
                    Expr::Subscript(Subscript { base, args: args2 })
                },
                other => other,
            };
            self.errors.push(
                Error::Unsupported(String::from_str("keyed access requires literal keys")),
            );
            return Lowering::Handled(visited);
        }
        let args: Vec<Expr> = match e {
            Expr::Jpe(j) => vec![*j.exp],
            Expr::Subscript(sub) => sub.args,
            _ => Vec::new(),
        };
        let oid = match self.tables[ti].oid {
            Some(o) => o,
            None => {
                let msg = String::from_str("table '").concat(name.as_str()).concat("' has no oid");
                self.errors.push(Error::InternalError(msg));
                return Lowering::Handled(Expr::Lit(Value::Null));
            },
        };
        let ghost kargs = args@;
        assert(kargs == key_args(e0));
        let mut values: Vec<Value> = Vec::new();
        let mut rest = args;
        let ghost mut k: int = 0;
        while rest.len() > 0
            invariant
                0 <= k <= kargs.len(),
                rest@ == kargs.skip(k),
                values@ == kargs.take(k).map_values(|a: Expr| lit_value(a)),
            decreases rest.len(),
        {
            let a = rest.remove(0);
            proof {
                assert(a == kargs[k]);
                assert(kargs.take(k + 1).map_values(|a: Expr| lit_value(a)) =~= kargs.take(
                    k,
                ).map_values(|a: Expr| lit_value(a)).push(lit_value(kargs[k])));
                k = k + 1;
            }
            let v = match a {
                Expr::Lit(v) => v,
                _ => Value::Null,
            };
            values.push(v);
        }
        assert(kargs.take(k) =~= kargs);
        let keys = copy_keys(&self.tables[ti].keys);
        let csr = self.fresh_cursor();
        Lowering::Handled(Expr::Get(Get { csr, oid, keys, args: values }))
    }
}


impl Binder {
    /// Gives a from-item its cursor slot, resolves a table source to its oid,
    /// binds a value or unpivot source's expression against the bindings
    /// before it, and adds the item's bindings to the scope.
    fn visit_from(&mut self, f: crate::ir::From) -> (r: crate::ir::From)
        requires
            old(self).wf(),
            !old(self).allow_agg,
        ensures
            final(self).wf(),
            final(self).went_on(old(self)),
            final(self).errors@.len() == old(self).errors@.len() ==> from_ready(r),
            final(self).errors@.len() == old(self).errors@.len() ==> from_binds(
                f,
                r,
                old(self).scope.bindings@,
                old(self).tables@,
            ) && final(self).scope.bindings@ == old(self).scope.bindings@ + item_scope(r),
            (final(self).errors@.len() == old(self).errors@.len()) <==> (from_bindable(
                f,
                names_of(old(self).scope.bindings@),
                old(self).tables@,
            ) && old(self).next_cursor + from_cursors(f, names_of(old(self).scope.bindings@), old(self).tables@)
                <= u32::MAX),
            final(self).errors@.len() == old(self).errors@.len() ==> final(self).next_cursor == old(
                self,
            ).next_cursor + from_cursors(f, names_of(old(self).scope.bindings@), old(self).tables@),
            final(self).errors@.len() == old(self).errors@.len() ==> names_of(
                final(self).scope.bindings@,
            ) == names_of(old(self).scope.bindings@) + item_names(f),
    {
        let ghost f0 = f;
        let ghost nm = names_of(self.scope.bindings@);
        let crate::ir::From { src, var, csr: _, oid } = f;
        let csr = self.fresh_cursor();
        match src {
            Source::Table(name) => {
                let oid = match self.get_table(name.as_str()) {
                    Some(d) => d.oid,
                    None => None,
                };
                self.scope.push(var.clone(), csr);
                assert(old(self).scope.bindings@.push((var, csr)) =~= old(self).scope.bindings@
                    + seq![(var, csr)]);
                assert(names_of(self.scope.bindings@) =~= nm + item_names(f0));
                crate::ir::From { src: Source::Table(name), var, csr: Some(csr), oid }
            },
            Source::Value(expr) => {
                if var.as_str().is_empty() {
                    self.errors.push(
                        Error::BindError(String::from_str("value source requires an alias")),
                    );
                    return crate::ir::From { src: Source::Value(expr), var, csr: Some(csr), oid };
                }
                let e2 = self.visit_expr(*expr);
                self.scope.push(var.clone(), csr);
                assert(old(self).scope.bindings@.push((var, csr)) =~= old(self).scope.bindings@
                    + seq![(var, csr)]);
                assert(names_of(self.scope.bindings@) =~= nm + item_names(f0));
                crate::ir::From { src: Source::Value(Box::new(e2)), var, csr: Some(csr), oid }
            },
            Source::Unpivot(u) => {
                if var.as_str().is_empty() {
                    self.errors.push(
                        Error::BindError(String::from_str("unpivot source requires a value alias")),
                    );
                    return crate::ir::From { src: Source::Unpivot(u), var, csr: Some(csr), oid };
                }
                let Unpivot { expr, val_csr: _, att, att_csr } = u;
                let e2 = self.visit_expr(*expr);
                let val_csr = self.fresh_cursor();
                self.scope.push(var.clone(), val_csr);
                let ghost s1 = self.scope.bindings@;
                let att_csr = match &att {
                    Some(a) => {
                        let ac = self.fresh_cursor();
                        self.scope.push(a.clone(), ac);
                        assert(s1.push((*a, ac)) =~= s1 + seq![(*a, ac)]);
                        Some(ac)
                    },
                    None => att_csr,
                };
                proof {
                    let ghost att0 = att;
                    let added = seq![(var, val_csr)] + match att0 {
                        Some(a) => seq![(a, att_csr.unwrap())],
                        None => Seq::empty(),
                    };
                    assert(self.scope.bindings@ =~= old(self).scope.bindings@ + added);
                    assert(names_of(self.scope.bindings@) =~= nm + item_names(f0));
                }
                crate::ir::From {
                    src: Source::Unpivot(
                        Unpivot { expr: Box::new(e2), val_csr: Some(val_csr), att, att_csr },
                    ),
                    var,
                    csr: Some(csr),
                    oid,
                }
            },
        }
    }

    /// Binds a projection with aggregates allowed.
    fn visit_constructor(&mut self, c: Constructor) -> (r: Constructor)
        requires
            old(self).wf(),
        ensures
            final(self).wf(),
            final(self).tables == old(self).tables,
            final(self).allow_agg == old(self).allow_agg,
            old(self).errors@.len() <= final(self).errors@.len(),
            final(self).errors@.len() == old(self).errors@.len() ==> cons_bound(r),
            final(self).scope == old(self).scope,
            final(self).errors@.len() == old(self).errors@.len() ==> cons_binds(
                c,
                r,
                old(self).scope.bindings@,
                old(self).tables@,
            ),
            (final(self).errors@.len() == old(self).errors@.len()) <==> (cons_bindable(
                c,
                names_of(old(self).scope.bindings@),
                old(self).tables@,
            ) && old(self).next_cursor + cons_lookups(c, names_of(old(self).scope.bindings@), old(self).tables@)
                <= u32::MAX),
            final(self).errors@.len() == old(self).errors@.len() ==> final(self).next_cursor == old(
                self,
            ).next_cursor + cons_lookups(c, names_of(old(self).scope.bindings@), old(self).tables@),
    {
        let saved = self.allow_agg;
        self.allow_agg = true;
        let r = match c {
            Constructor::Identity => Constructor::Identity,
            Constructor::Star => Constructor::Star,
            Constructor::Expr(e) => Constructor::Expr(self.visit_expr(e)),
            Constructor::List(ms) => Constructor::List(self.visit_members(ms)),
            Constructor::Pivot(p) => {
                let Pivot { value, name } = p;
                let value2 = self.visit_expr(*value);
                let name2 = self.visit_expr(*name);
                Constructor::Pivot(Pivot { value: Box::new(value2), name: Box::new(name2) })
            },
        };
        self.allow_agg = saved;
        r
    }

    /// Binds an expression where aggregates are not allowed.
    fn visit_plain(&mut self, e: Expr) -> (r: Expr)
        requires
            old(self).wf(),
            !old(self).allow_agg,
        ensures
            final(self).wf(),
            final(self).went_on(old(self)),
            final(self).errors@.len() == old(self).errors@.len() ==> expr_ready(r, 0),
            final(self).scope == old(self).scope,
            final(self).errors@.len() == old(self).errors@.len() ==> binds(
                e,
                r,
                old(self).scope.bindings@,
                old(self).tables@,
                false,
            ),
            (final(self).errors@.len() == old(self).errors@.len()) <==> (bindable(
                e,
                names_of(old(self).scope.bindings@),
                old(self).tables@,
                false,
            ) && old(self).next_cursor + lookups(e, names_of(old(self).scope.bindings@), old(self).tables@)
                <= u32::MAX),
            final(self).errors@.len() == old(self).errors@.len() ==> final(self).next_cursor == old(
                self,
            ).next_cursor + lookups(e, names_of(old(self).scope.bindings@), old(self).tables@),
    {
        self.visit_expr(e)
    }

    /// Binds a SELECT: its from-items in order, then WHERE, the group keys,
    /// HAVING (aggregates allowed), the order keys and the projection
    /// (aggregates allowed).
    #[verifier::loop_isolation(false)]
    #[verifier::spinoff_prover]
    #[verifier::rlimit(100)]
    fn visit_select(&mut self, s: Select) -> (r: Select)
        requires
            old(self).wf(),
            !old(self).allow_agg,
        ensures
            final(self).wf(),
            final(self).went_on(old(self)),
            final(self).errors@.len() == old(self).errors@.len() ==> select_bound(r),
            final(self).errors@.len() == old(self).errors@.len() ==> select_binds(
                s,
                r,
                old(self).scope.bindings@,
                old(self).tables@,
            ),
            (final(self).errors@.len() == old(self).errors@.len()) <==> (select_bindable(
                s,
                names_of(old(self).scope.bindings@),
                old(self).tables@,
            ) && old(self).next_cursor + select_cursors(s, names_of(old(self).scope.bindings@), old(self).tables@)
                <= u32::MAX),
            final(self).errors@.len() == old(self).errors@.len() ==> final(self).next_cursor == old(
                self,
            ).next_cursor + select_cursors(s, names_of(old(self).scope.bindings@), old(self).tables@),
    {
        let ghost scope0 = self.scope.bindings@;
        let ghost tables0 = self.tables@;
        let ghost nm = names_of(scope0);
        let ghost n0 = self.next_cursor as int;
        let ghost e0 = self.errors@.len();
        let ghost s0 = s;
        let Select { from, where_, group, having, order, limit, select } = s;
        let ghost all = from@;
        let mut from2: Vec<crate::ir::From> = Vec::new();
        let mut rest = from;
        let ghost mut k: int = 0;
        while rest.len() > 0
            invariant
                self.wf(),
                self.went_on(old(self)),
                self.errors@.len() == old(self).errors@.len() ==> forall|i: int|
                    0 <= i < from2@.len() ==> from_ready(#[trigger] from2@[i]),
                0 <= k <= all.len(),
                rest@ == all.skip(k),
                from2@.len() == k,
                self.errors@.len() == old(self).errors@.len() ==> self.scope.bindings@ == scope0
                    + from_scope(from2@),
                self.errors@.len() == old(self).errors@.len() ==> forall|i: int|
                    0 <= i < from2@.len() ==> from_binds(
                        #[trigger] all[i],
                        from2@[i],
                        scope0 + from_scope(from2@.take(i)),
                        tables0,
                    ),
                (self.errors@.len() == e0) <==> ((forall|i: int|
                    0 <= i < k ==> from_bindable(
                        #[trigger] all[i],
                        nm + from_names(all.take(i)),
                        tables0,
                    )) && n0 + from_cursors_sum(all, k, nm, tables0) <= u32::MAX),
                self.errors@.len() == e0 ==> self.next_cursor == n0 + from_cursors_sum(
                    all,
                    k,
                    nm,
                    tables0,
                ),
                self.errors@.len() == e0 ==> names_of(self.scope.bindings@) == nm + from_names(
                    all.take(k),
                ),
            decreases rest.len(),
        {
            let f = rest.remove(0);
            assert(f == all[k]);
            let ghost before = from2@;
            proof {
                lemma_from_step(all, k, nm, tables0);
            }
            let f2 = self.visit_from(f);
            from2.push(f2);
            proof {
                assert(from2@.drop_last() =~= before);
                assert(from2@.take(k) =~= before);
                assert forall|i: int| 0 <= i < k implies #[trigger] from2@.take(i) =~= before.take(
                    i,
                ) by {}
                assert(scope0 + from_scope(before) + item_scope(f2) =~= scope0 + from_scope(
                    from2@,
                ));
                k = k + 1;
            }
        }
        let ghost sc = self.scope.bindings@;
        let ghost nsc = nm + from_names(s0.from@);
        let ghost c1 = from_bindable_all(all, nm, tables0) && n0 + from_cursors_sum(
            all,
            all.len() as int,
            nm,
            tables0,
        ) <= u32::MAX;
        proof {
            assert(all.take(all.len() as int) =~= all);
        }
        let ghost n1 = n0 + from_cursors_sum(all, all.len() as int, nm, tables0);
        assert((self.errors@.len() == e0) <==> c1);
        assert(self.errors@.len() == e0 ==> self.next_cursor == n1);
        assert(self.errors@.len() == e0 ==> names_of(self.scope.bindings@) == nsc);
        let where2 = match where_ {
            Some(w) => Some(self.visit_plain(w)),
            None => None,
        };
        let ghost c2 = c1 && opt_bindable(s0.where_, nsc, tables0, false) && n1 + opt_lookups(
            s0.where_,
            nsc,
            tables0,
        ) <= u32::MAX;
        let ghost n2 = n1 + opt_lookups(s0.where_, nsc, tables0);
        assert((self.errors@.len() == e0) <==> c2);
        assert(self.errors@.len() == e0 ==> self.next_cursor == n2);
        let group2 = match group {
            Some(g) => {
                let keys = self.visit_exprs(g.keys);
                Some(GroupBy { keys })
            },
            None => None,
        };
        let ghost c3 = c2 && group_bindable(s0.group, nsc, tables0) && n2 + group_lookups(
            s0.group,
            nsc,
            tables0,
        ) <= u32::MAX;
        let ghost n3 = n2 + group_lookups(s0.group, nsc, tables0);
        assert((self.errors@.len() == e0) <==> c3);
        assert(self.errors@.len() == e0 ==> self.next_cursor == n3);
        let having2 = match having {
            Some(h) => {
                let saved = self.allow_agg;
                self.allow_agg = true;
                let h2 = self.visit_expr(h);
                self.allow_agg = saved;
                Some(h2)
            },
            None => None,
        };
        let ghost c4 = c3 && opt_bindable(s0.having, nsc, tables0, true) && n3 + opt_lookups(
            s0.having,
            nsc,
            tables0,
        ) <= u32::MAX;
        let ghost n4 = n3 + opt_lookups(s0.having, nsc, tables0);
        assert((self.errors@.len() == e0) <==> c4);
        assert(self.errors@.len() == e0 ==> self.next_cursor == n4);
        let ghost mid = self.errors@.len();
        let order2 = match order {
            Some(o) => {
                let mut keys: Vec<OrderKey> = Vec::new();
                let ghost okeys = o.keys@;
                let mut rest = o.keys;
                let ghost mut k2: int = 0;
                while rest.len() > 0
                    invariant
                        self.wf(),
                        self.went_on(old(self)),
                        mid <= self.errors@.len(),
                        self.errors@.len() == old(self).errors@.len() ==> forall|i: int|
                            0 <= i < keys@.len() ==> expr_ready(#[trigger] keys@[i].expr, 0),
                        0 <= k2 <= okeys.len(),
                        rest@ == okeys.skip(k2),
                        keys@.len() == k2,
                        self.scope.bindings@ == sc,
                        self.errors@.len() == old(self).errors@.len() ==> forall|i: int|
                            0 <= i < keys@.len() ==> (#[trigger] okeys[i]).desc == keys@[i].desc
                                && binds(okeys[i].expr, keys@[i].expr, sc, tables0, false),
                        okeys == s0.order->0.keys@,
                        (self.errors@.len() == e0) <==> (c4 && (forall|i: int|
                            0 <= i < k2 ==> bindable(#[trigger] okeys[i].expr, nsc, tables0, false))
                            && n4 + order_lookups(okeys, k2, nsc, tables0) <= u32::MAX),
                        self.errors@.len() == e0 ==> self.next_cursor == n4 + order_lookups(
                            okeys,
                            k2,
                            nsc,
                            tables0,
                        ),
                        self.errors@.len() == e0 ==> names_of(self.scope.bindings@) == nsc,
                    decreases rest.len(),
                {
                    let k = rest.remove(0);
                    assert(k == okeys[k2]);
                    assert(order_lookups(okeys, k2 + 1, nsc, tables0) == order_lookups(
                        okeys,
                        k2,
                        nsc,
                        tables0,
                    ) + lookups(okeys[k2].expr, nsc, tables0));
                    let x = self.visit_plain(k.expr);
                    keys.push(OrderKey { expr: x, desc: k.desc });
                    proof {
                        k2 = k2 + 1;
                    }
                }
                Some(OrderBy { keys })
            },
            None => None,
        };
        let ghost c5 = c4 && order_bindable(s0.order, nsc, tables0) && n4 + order_lookups_of(
            s0.order,
            nsc,
            tables0,
        ) <= u32::MAX;
        let ghost n5 = n4 + order_lookups_of(s0.order, nsc, tables0);
        assert((self.errors@.len() == e0) <==> c5);
        assert(self.errors@.len() == e0 ==> self.next_cursor == n5);
        let ghost before_cons = self.errors@.len();
        let select2 = self.visit_constructor(select);
        proof {
            let c6 = c5 && cons_bindable(s0.select, nsc, tables0) && n5 + cons_lookups(
                s0.select,
                nsc,
                tables0,
            ) <= u32::MAX;
            assert((self.errors@.len() == e0) <==> c6);
            assert(self.errors@.len() == e0 ==> self.next_cursor == n5 + cons_lookups(
                s0.select,
                nsc,
                tables0,
            ));
            lemma_select_total(s0, nm, tables0);
        }
        Select {
            from: from2,
            where_: where2,
            group: group2,
            having: having2,
            order: order2,
            limit,
            select: select2,
        }
    }

    /// Binds a statement.
    #[verifier::loop_isolation(false)]
    fn visit_statement(&mut self, s: Statement) -> (r: Statement)
        requires
            old(self).wf(),
            !old(self).allow_agg,
        ensures
            final(self).wf(),
            final(self).went_on(old(self)),
            final(self).errors@.len() == old(self).errors@.len() ==> statement_bound(r),
            final(self).errors@.len() == old(self).errors@.len() ==> statement_binds(
                s,
                r,
                old(self).scope.bindings@,
                old(self).tables@,
            ),
            (final(self).errors@.len() == old(self).errors@.len()) <==> (statement_bindable(
                s,
                names_of(old(self).scope.bindings@),
                old(self).tables@,
            ) && old(self).next_cursor + statement_cursors(
                s,
                names_of(old(self).scope.bindings@),
                old(self).tables@,
            ) <= u32::MAX),
            final(self).errors@.len() == old(self).errors@.len() ==> final(self).next_cursor == old(
                self,
            ).next_cursor + statement_cursors(s, names_of(old(self).scope.bindings@), old(self).tables@),
    {
        let ghost scope0 = self.scope.bindings@;
        let ghost tables0 = self.tables@;
        let ghost nm = names_of(scope0);
        let ghost n0 = self.next_cursor as int;
        let ghost e0 = self.errors@.len();
        match s {
            Statement::Select(q) => Statement::Select(self.visit_select(q)),
            Statement::Insert(i) => {
                let Insert { target, source } = i;
                let mut target = target;
                if target.oid.is_none() {
                    if let Some(def) = self.get_table(target.name.as_str()) {
                        target.oid = def.oid;
                        target.keys = def.keys;
                    }
                }
                let mut src: Vec<Expr> = Vec::new();
                let ghost all = source@;
                let mut rest = source;
                let ghost mid = self.errors@.len();
                let ghost ct = (i.target.oid is Some || table_index(tables0, i.target.name@) is Some);
                assert((self.errors@.len() == e0) <==> ct);
                assert(self.errors@.len() == e0 ==> self.next_cursor == n0);
                let ghost mut n: int = 0;
                while rest.len() > 0
                    invariant
                        self.wf(),
                        self.went_on(old(self)),
                        mid <= self.errors@.len(),
                        self.errors@.len() == old(self).errors@.len() ==> forall|k: int|
                            0 <= k < src@.len() ==> expr_ready(#[trigger] src@[k], 0),
                        0 <= n <= all.len(),
                        rest@ == all.skip(n),
                        src@.len() == n,
                        self.scope.bindings@ == scope0,
                        self.errors@.len() == old(self).errors@.len() ==> forall|k: int|
                            0 <= k < src@.len() ==> binds(
                                #[trigger] all[k],
                                src@[k],
                                scope0,
                                tables0,
                                false,
                            ),
                        (self.errors@.len() == e0) <==> (ct && (forall|k: int|
                            0 <= k < n ==> bindable(#[trigger] all[k], nm, tables0, false)) && n0
                            + lookups_list(all, n, nm, tables0) <= u32::MAX),
                        self.errors@.len() == e0 ==> self.next_cursor == n0 + lookups_list(
                            all,
                            n,
                            nm,
                            tables0,
                        ),
                    decreases rest.len(),
                {
                    let x = rest.remove(0);
                    assert(x == all[n]);
                    assert(lookups_list(all, n + 1, nm, tables0) == lookups_list(all, n, nm, tables0)
                        + lookups(all[n], nm, tables0));
                    let y = self.visit_plain(x);
                    src.push(y);
                    proof {
                        n = n + 1;
                    }
                }
                Statement::Insert(Insert { target, source: src })
            },
            Statement::Delete(d) => {
                let Delete { from, where_ } = d;
                let from2 = self.visit_from(from);
                let where2 = match where_ {
                    Some(w) => Some(self.visit_plain(w)),
                    None => None,
                };
                Statement::Delete(Delete { from: from2, where_: where2 })
            },
            Statement::Drop(d) => {
                let oid = match self.get_table(d.name.as_str()) {
                    Some(def) => def.oid,
                    None => None,
                };
                Statement::Drop(Drop { name: d.name, oid })
            },
            Statement::Clear(c) => {
                let oid = match self.get_table(c.name.as_str()) {
                    Some(def) => def.oid,
                    None => None,
                };
                Statement::Clear(Clear { name: c.name, oid })
            },
            Statement::Create(c) => Statement::Create(c),
        }
    }

    /// Binds a statement, returning it bound, or the first error met.
    pub fn bind(&mut self, statement: Statement) -> (r: Result<Statement, Error>)
        requires
            old(self).wf(),
            !old(self).allows_agg(),
            old(self).errors_view().len() == 0,
        ensures
            final(self).wf(),
            r matches Ok(s) ==> statement_bound(s),
            r matches Ok(s) ==> statement_binds(
                statement,
                s,
                old(self).scope_view(),
                old(self).tables_view(),
            ),
            r is Err <==> final(self).errors_view().len() > 0,
            r is Ok <==> statement_bindable(
                statement,
                names_of(old(self).scope_view()),
                old(self).tables_view(),
            ) && old(self).next_slot() + statement_cursors(
                statement,
                names_of(old(self).scope_view()),
                old(self).tables_view(),
            ) <= u32::MAX,
            r matches Err(e) ==> e == final(self).errors_view()[0],
    {
        let s = self.visit_statement(statement);
        if self.errors.len() > 0 {
            Err(self.errors[0].duplicate())
        } else {
            Ok(s)
        }
    }
}


/// A statement whose shape the compiler takes: an ordered query has a from
/// clause, and a pivot's name and value hold no aggregate.
pub open spec fn compilable_shape(s: Statement) -> bool {
    match s {
        Statement::Select(q) => (plan_spec(q) == Plan::Order ==> q.from@.len() >= 1) && (
        q.select matches Constructor::Pivot(p) ==> !has_agg(*p.value) && !has_agg(*p.name)),
        _ => true,
    }
}

/// A bound statement of a shape the compiler takes is one the compiler
/// accepts: binding establishes everything compilation relies on.
pub proof fn law_bound_statement_compiles(s: Statement)
    requires
        statement_bound(s),
        compilable_shape(s),
    ensures
        statement_ok(s),
{
    if let Statement::Select(q) = s {
        if let Constructor::Pivot(p) = q.select {
            lemma_proj_plain(*p.value);
            lemma_proj_plain(*p.name);
        }
        assert(cons_ok(q.select));
        assert(select_ready(q));
        assert(select_ok(q));
    }
}

} // verus!

//! Translation of bound SQL statements into a bytecode program.
//!
//! The compiler lays a program out in three blocks: `Init` jumps over the body
//! to the transaction block, which opens the transaction and jumps back, so
//! the body always runs inside a live transaction; the body ends at `Halt`.
//! Every jump it emits lands inside the program, and every cursor, counter
//! and accumulator slot an instruction names is one the program allocates.
use vstd::prelude::*;

use crate::error::Error;
use crate::functions::{accepts, arity_ok, builtin_arity, builtin_name_spec, lookup, BUILTIN_COUNT};
use crate::ir::{
    Agg, AggKind, Call, CmpOp, Constructor, Create, Delete, Expr, Get, Insert, Jpe, Jpi, Jpk, Key, Limit, Member,
    Select, Source, Statement, TableDefinition, Type,
    Subscript, Var,
};
use crate::same::{
    cons_same, copy_constructor, copy_expr, copy_keys, expr_eq, keys_same, expr_same, member_same, opt_expr_same,
};
use crate::schema::{encode_key_tuple, fields_result, tuple_fields};
use crate::value::{Field, Value};
use crate::ddl::table_text;
use crate::display::ToSql;

verus! {

/// The oid of the catalog table.
pub const CATALOG_OID: u32 = 0;

/// The transaction a program needs.
#[derive(Debug, Clone, Copy, PartialEq, Eq, Structural)]
pub enum TransactionMode {
    Read,
    Write,
}

/// The stronger of two transaction needs: a write dominates a read.
pub open spec fn mode_join(a: TransactionMode, b: Option<TransactionMode>) -> TransactionMode {
    match (a, b) {
        (TransactionMode::Write, _) | (_, Some(TransactionMode::Write)) => TransactionMode::Write,
        _ => TransactionMode::Read,
    }
}

impl TransactionMode {
    /// This mode raised to at least `other`.
    pub fn coalesce(self, other: Option<TransactionMode>) -> (r: TransactionMode)
        ensures
            r == mode_join(self, other),
    {
        match (self, other) {
            (TransactionMode::Write, _) | (_, Some(TransactionMode::Write)) => TransactionMode::Write,
            _ => TransactionMode::Read,
        }
    }
}

/// Where a scan starts: the whole table, or the encoded key prefix on top
/// of the stack.
#[derive(Debug, Clone, Copy, PartialEq, Eq, Structural)]
pub enum ScanPrefix {
    Whole,
    Stack,
}

/// One bytecode instruction.
#[derive(Debug)]
pub enum Vop {
    Init { jmp: usize },
    Halt,
    Jump { jmp: usize },
    Transaction { txm: TransactionMode },
    Open { csr: usize, tbl: u32 },
    OpenOid { csr: usize },
    Close { csr: usize },
    Scan { csr: usize, jmp: usize, prefix: ScanPrefix },
    Iter { csr: usize, jmp: usize },
    Next { csr: usize, jmp: usize },
    If(usize),
    IfNot(usize),
    CntSet(usize, u64),
    CntIfPos(usize, usize),
    CntIfZero(usize, usize),
    GroupBreak { slot: usize, jmp: usize },
    Insert { csr: usize },
    Delete { csr: usize },
    Clear { tbl: u32 },
    NewOid { csr: usize },
    NewBtree,
    EncodeKey { keys: Vec<Key> },
    EncodeKeyTuple { keys: Vec<Key>, cnt: usize },
    LoadKey { csr: usize },
    LoadVal { csr: usize },
    SetVal { csr: usize },
    Jpe,
    Jpi(usize),
    Jpk(String),
    Push { val: Value },
    Obj,
    ObjAssign(String),
    ObjSpread,
    ObjMerge(String),
    ObjSet,
    Entries,
    Arr,
    ArrPush,
    Scalar,
    Exists,
    Quantify { op: CmpOp, all: bool },
    OrderKey { dirs: Vec<bool> },
    Sort,
    AggInit { slot: usize, kind: AggKind },
    AggStep { slot: usize, kind: AggKind },
    AggFinal { slot: usize, kind: AggKind },
    Dup,
    Get { csr: usize },
    GetRange { csr: usize },
    Yield,
    Call { fun: usize, cnt: usize },
    Mul,
    Div,
    Rem,
    Add,
    Sub,
    Lt,
    Le,
    Eq,
    Ge,
    Gt,
    Ne,
    And,
    Or,
    Not,
    IsNull,
    IsTrue,
    IsFalse,
    IsUnknown,
    Between,
    InList(usize),
}

/// The target of a control-flow instruction.
pub open spec fn jump_target(op: Vop) -> Option<usize> {
    match op {
        Vop::Init { jmp } => Some(jmp),
        Vop::Jump { jmp } => Some(jmp),
        Vop::Next { jmp, .. } => Some(jmp),
        Vop::Scan { jmp, .. } => Some(jmp),
        Vop::Iter { jmp, .. } => Some(jmp),
        Vop::If(jmp) => Some(jmp),
        Vop::IfNot(jmp) => Some(jmp),
        Vop::CntIfPos(_, jmp) => Some(jmp),
        Vop::CntIfZero(_, jmp) => Some(jmp),
        Vop::GroupBreak { jmp, .. } => Some(jmp),
        _ => None,
    }
}

/// Whether an instruction's jump target can be back-patched.
pub open spec fn patchable(op: Vop) -> bool {
    jump_target(op) is Some && !(op is Jump)
}

/// The instruction with its jump target replaced (for a patchable one).
pub open spec fn with_target(op: Vop, dst: usize) -> Vop {
    match op {
        Vop::Init { .. } => Vop::Init { jmp: dst },
        Vop::Next { csr, .. } => Vop::Next { csr, jmp: dst },
        Vop::Scan { csr, prefix, .. } => Vop::Scan { csr, jmp: dst, prefix },
        Vop::Iter { csr, .. } => Vop::Iter { csr, jmp: dst },
        Vop::If(_) => Vop::If(dst),
        Vop::IfNot(_) => Vop::IfNot(dst),
        Vop::CntIfPos(c, _) => Vop::CntIfPos(c, dst),
        Vop::CntIfZero(c, _) => Vop::CntIfZero(c, dst),
        Vop::GroupBreak { slot, .. } => Vop::GroupBreak { slot, jmp: dst },
        _ => op,
    }
}

/// The cursor slot an instruction names.
pub open spec fn cursor_of(op: Vop) -> Option<usize> {
    match op {
        Vop::Open { csr, .. } => Some(csr),
        Vop::OpenOid { csr } => Some(csr),
        Vop::Close { csr } => Some(csr),
        Vop::Scan { csr, .. } => Some(csr),
        Vop::Iter { csr, .. } => Some(csr),
        Vop::Next { csr, .. } => Some(csr),
        Vop::Insert { csr } => Some(csr),
        Vop::Delete { csr } => Some(csr),
        Vop::NewOid { csr } => Some(csr),
        Vop::LoadKey { csr } => Some(csr),
        Vop::LoadVal { csr } => Some(csr),
        Vop::SetVal { csr } => Some(csr),
        Vop::Get { csr } => Some(csr),
        Vop::GetRange { csr } => Some(csr),
        _ => None,
    }
}

/// The counter slot an instruction names.
pub open spec fn counter_of(op: Vop) -> Option<usize> {
    match op {
        Vop::CntSet(c, _) => Some(c),
        Vop::CntIfPos(c, _) => Some(c),
        Vop::CntIfZero(c, _) => Some(c),
        _ => None,
    }
}

/// The accumulator slot an instruction names.
pub open spec fn agg_of(op: Vop) -> Option<usize> {
    match op {
        Vop::AggInit { slot, .. } => Some(slot),
        Vop::AggStep { slot, .. } => Some(slot),
        Vop::AggFinal { slot, .. } => Some(slot),
        Vop::GroupBreak { slot, .. } => Some(slot),
        _ => None,
    }
}

/// An instruction whose jump (if any) lands at or before `len` and whose
/// slots are within the given counts.
pub open spec fn op_ok(op: Vop, len: nat, cursors: nat, counters: nat, aggs: nat) -> bool {
    &&& (jump_target(op) matches Some(t) ==> t <= len)
    &&& (cursor_of(op) matches Some(c) ==> c < cursors)
    &&& (counter_of(op) matches Some(c) ==> c < counters)
    &&& (agg_of(op) matches Some(s) ==> s < aggs)
}

/// Every instruction of `code` is fine against the given bounds.
pub open spec fn code_ok(code: Seq<Vop>, len: nat, cursors: nat, counters: nat, aggs: nat) -> bool {
    forall|k: int| 0 <= k < code.len() ==> op_ok(#[trigger] code[k], len, cursors, counters, aggs)
}

/// A compiled program.
#[derive(Debug)]
pub struct Program {
    /// Number of cursor slots required.
    pub cursors: usize,
    /// Number of counter slots required.
    pub counters: usize,
    /// Number of aggregate-accumulator slots required.
    pub aggs: usize,
    /// Whether the statement changes which tables the catalog holds.
    pub mutates_catalog: bool,
    /// The instructions.
    pub instructions: Vec<Vop>,
}

/// Where a SELECT plan sends each output row: yielded to the caller, or
/// collected onto an array (a subquery materializing its rows).
#[derive(Debug, Clone, Copy, PartialEq, Eq, Structural)]
pub enum Sink {
    Yield,
    Collect,
}

/// Translates a bound SQL statement into a program of bytecode.
pub struct Compiler {
    code: Vec<Vop>,
    cursor_slots: usize,
    counter_slots: usize,
    agg_slots: usize,
    sink: Sink,
    txm: Option<TransactionMode>,
    mutates_catalog: bool,
}

/// The message of a slot-count overflow.
pub open spec fn overflow_text() -> Seq<char> {
    "slot count overflow"@
}

impl Default for Compiler {
    /// An empty compiler, as [`Compiler::new`] makes.
    fn default() -> (c: Self)
        ensures
            c.fresh(),
            c.wf(),
    {
        Compiler::new()
    }
}

impl Compiler {
    /// Every instruction so far jumps at most one past the end and names
    /// only allocated slots.
    pub closed spec fn wf(&self) -> bool {
        code_ok(
            self.code@,
            self.code@.len(),
            self.cursor_slots as nat,
            self.counter_slots as nat,
            self.agg_slots as nat,
        )
    }

    /// The instructions so far.
    pub closed spec fn code_view(&self) -> Seq<Vop> {
        self.code@
    }

    /// The number of cursor slots so far.
    pub closed spec fn cursors(&self) -> nat {
        self.cursor_slots as nat
    }

    /// The number of counter slots so far.
    pub closed spec fn counters(&self) -> nat {
        self.counter_slots as nat
    }

    /// The number of accumulator slots so far.
    pub closed spec fn aggs(&self) -> nat {
        self.agg_slots as nat
    }

    /// `self` grew from `old`: code and slot counts only grow, and nothing else
    /// about the compiler changed.
    pub closed spec fn grew_from(&self, old: &Compiler) -> bool {
        &&& old.code@.len() <= self.code@.len()
        &&& old.cursor_slots <= self.cursor_slots
        &&& old.counter_slots <= self.counter_slots
        &&& old.agg_slots <= self.agg_slots
        &&& self.sink == old.sink
    }

    /// Creates an empty compiler.
    pub fn new() -> (c: Self)
        ensures
            c.fresh(),
            c.wf(),
            c.code_view().len() == 0,
            c.cursors() == 0 && c.counters() == 0 && c.aggs() == 0,
    {
        Compiler {
            code: Vec::new(),
            cursor_slots: 0,
            counter_slots: 0,
            agg_slots: 0,
            sink: Sink::Yield,
            txm: None,
            mutates_catalog: false,
        }
    }

    /// The instructions so far.
    pub fn code(&self) -> (r: &Vec<Vop>)
        ensures
            r@ == self.code_view(),
    {
        &self.code
    }

    /// Returns the index of the last emitted instruction.
    fn pc(&self) -> (r: usize)
        requires
            self.code@.len() > 0,
        ensures
            r == self.code@.len() - 1,
    {
        self.code.len() - 1
    }

    /// Appends one instruction that is fine against the bounds after it.
    fn emit(&mut self, op: Vop)
        requires
            old(self).wf(),
            op_ok(
                op,
                old(self).code@.len() + 1,
                old(self).cursor_slots as nat,
                old(self).counter_slots as nat,
                old(self).agg_slots as nat,
            ),
        ensures
            final(self).wf(),
            final(self).code@ == old(self).code@.push(op),
            final(self).cursor_slots == old(self).cursor_slots,
            final(self).counter_slots == old(self).counter_slots,
            final(self).agg_slots == old(self).agg_slots,
            final(self).sink == old(self).sink,
            final(self).txm == old(self).txm,
            final(self).mutates_catalog == old(self).mutates_catalog,
    {
        self.code.push(op);
        assert forall|k: int| 0 <= k < self.code@.len() implies op_ok(
            #[trigger] self.code@[k],
            self.code@.len(),
            self.cursor_slots as nat,
            self.counter_slots as nat,
            self.agg_slots as nat,
        ) by {
            if k < self.code@.len() - 1 {
                assert(op_ok(
                    old(self).code@[k],
                    old(self).code@.len(),
                    self.cursor_slots as nat,
                    self.counter_slots as nat,
                    self.agg_slots as nat,
                ));
            }
        }
    }

    /// Records that cursor slot `csr` is in use, growing the slot count.
    fn use_cursor(&mut self, csr: usize) -> (r: Result<(), Error>)
        requires
            old(self).wf(),
        ensures
            final(self).wf(),
            final(self).grew_from(old(self)),
            final(self).code@ == old(self).code@,
            final(self).counter_slots == old(self).counter_slots,
            final(self).agg_slots == old(self).agg_slots,
            final(self).txm == old(self).txm,
            final(self).mutates_catalog == old(self).mutates_catalog,
            r is Ok ==> csr < final(self).cursor_slots,
            r is Ok ==> final(self).cursor_slots == if csr >= old(self).cursor_slots {
                csr + 1
            } else {
                old(self).cursor_slots as int
            },
            r matches Err(e) ==> e matches Error::InternalError(m) && m@ == overflow_text(),
            csr < usize::MAX ==> r is Ok,
            r is Err ==> csr == usize::MAX,
    {
        if csr >= self.cursor_slots {
            if csr == usize::MAX {
                return Err(Error::InternalError(String::from_str("slot count overflow")));
            }
            self.cursor_slots = csr + 1;
        }
        assert forall|k: int| 0 <= k < self.code@.len() implies op_ok(
            #[trigger] self.code@[k],
            self.code@.len(),
            self.cursor_slots as nat,
            self.counter_slots as nat,
            self.agg_slots as nat,
        ) by {
            assert(op_ok(
                old(self).code@[k],
                old(self).code@.len(),
                old(self).cursor_slots as nat,
                self.counter_slots as nat,
                self.agg_slots as nat,
            ));
        }
        Ok(())
    }

    /// Allocates and returns the next cursor slot.
    fn alloc_cursor(&mut self) -> (r: Result<usize, Error>)
        requires
            old(self).wf(),
        ensures
            final(self).wf(),
            final(self).grew_from(old(self)),
            final(self).code@ == old(self).code@,
            final(self).counter_slots == old(self).counter_slots,
            final(self).agg_slots == old(self).agg_slots,
            final(self).txm == old(self).txm,
            final(self).mutates_catalog == old(self).mutates_catalog,
            r matches Ok(c) ==> c == old(self).cursor_slots && final(self).cursor_slots == c + 1,
            r matches Err(e) ==> e matches Error::InternalError(m) && m@ == overflow_text(),
            old(self).cursor_slots < usize::MAX ==> r is Ok,
            r is Ok <==> old(self).cursor_slots < usize::MAX,
    {
        let csr = self.cursor_slots;
        match self.use_cursor(csr) {
            Ok(()) => Ok(csr),
            Err(e) => Err(e),
        }
    }

    /// Allocates and returns the next counter slot.
    fn alloc_counter(&mut self) -> (r: Result<usize, Error>)
        requires
            old(self).wf(),
        ensures
            final(self).wf(),
            final(self).grew_from(old(self)),
            final(self).code@ == old(self).code@,
            final(self).cursor_slots == old(self).cursor_slots,
            final(self).agg_slots == old(self).agg_slots,
            final(self).txm == old(self).txm,
            final(self).mutates_catalog == old(self).mutates_catalog,
            r matches Ok(c) ==> c == old(self).counter_slots && c < final(self).counter_slots,
            r matches Err(e) ==> e matches Error::InternalError(m) && m@ == overflow_text(),
            r is Ok <==> old(self).counter_slots < usize::MAX,
            r is Ok ==> final(self).counter_slots == old(self).counter_slots + 1,
    {
        let c = self.counter_slots;
        if c == usize::MAX {
            return Err(Error::InternalError(String::from_str("slot count overflow")));
        }
        self.counter_slots = c + 1;
        assert forall|k: int| 0 <= k < self.code@.len() implies op_ok(
            #[trigger] self.code@[k],
            self.code@.len(),
            self.cursor_slots as nat,
            self.counter_slots as nat,
            self.agg_slots as nat,
        ) by {
            assert(op_ok(
                old(self).code@[k],
                old(self).code@.len(),
                self.cursor_slots as nat,
                old(self).counter_slots as nat,
                self.agg_slots as nat,
            ));
        }
        Ok(c)
    }

    /// Allocates and returns the next aggregate-accumulator slot.
    fn alloc_agg(&mut self) -> (r: Result<usize, Error>)
        requires
            old(self).wf(),
        ensures
            final(self).wf(),
            final(self).grew_from(old(self)),
            final(self).code@ == old(self).code@,
            final(self).cursor_slots == old(self).cursor_slots,
            final(self).counter_slots == old(self).counter_slots,
            final(self).txm == old(self).txm,
            final(self).mutates_catalog == old(self).mutates_catalog,
            r matches Ok(s) ==> s == old(self).agg_slots && s < final(self).agg_slots,
            r matches Err(e) ==> e matches Error::InternalError(m) && m@ == overflow_text(),
            r is Ok <==> old(self).agg_slots < usize::MAX,
            r is Ok ==> final(self).agg_slots == old(self).agg_slots + 1,
    {
        let s = self.agg_slots;
        if s == usize::MAX {
            return Err(Error::InternalError(String::from_str("slot count overflow")));
        }
        self.agg_slots = s + 1;
        assert forall|k: int| 0 <= k < self.code@.len() implies op_ok(
            #[trigger] self.code@[k],
            self.code@.len(),
            self.cursor_slots as nat,
            self.counter_slots as nat,
            self.agg_slots as nat,
        ) by {
            assert(op_ok(
                old(self).code@[k],
                old(self).code@.len(),
                self.cursor_slots as nat,
                self.counter_slots as nat,
                old(self).agg_slots as nat,
            ));
        }
        Ok(s)
    }
}

} // verus!

verus! {

/// `a` is `b` with possibly more instructions after, the instructions of `b`
/// untouched.
pub open spec fn extends(a: Seq<Vop>, b: Seq<Vop>) -> bool {
    b.len() <= a.len() && forall|k: int| 0 <= k < b.len() ==> a[k] == b[k]
}

impl Compiler {
    /// The transaction need so far.
    pub closed spec fn txn_mode(&self) -> Option<TransactionMode> {
        self.txm
    }

    /// The output sink.
    pub closed spec fn sink_of(&self) -> Sink {
        self.sink
    }

    /// Same slot counts, sink, transaction need and catalog flag as `old`.
    pub closed spec fn same_slots(&self, old: &Compiler) -> bool {
        &&& self.cursor_slots == old.cursor_slots
        &&& self.counter_slots == old.counter_slots
        &&& self.agg_slots == old.agg_slots
        &&& self.sink == old.sink
        &&& self.txm == old.txm
        &&& self.mutates_catalog == old.mutates_catalog
    }

    /// Appends an instruction naming no slot and no jump.
    fn emit_plain(&mut self, op: Vop)
        requires
            old(self).wf(),
            jump_target(op) is None,
            cursor_of(op) is None,
            counter_of(op) is None,
            agg_of(op) is None,
        ensures
            final(self).wf(),
            final(self).grew_from(old(self)),
            final(self).code@ == old(self).code@.push(op),
            final(self).cursor_slots == old(self).cursor_slots,
            final(self).counter_slots == old(self).counter_slots,
            final(self).agg_slots == old(self).agg_slots,
            final(self).txm == old(self).txm,
            final(self).mutates_catalog == old(self).mutates_catalog,
    {
        self.emit(op);
    }

    /// Appends an instruction naming cursor `csr` (allocating it if new) and
    /// jumping at most to the next instruction.
    fn emit_cursor_op(&mut self, op: Vop, csr: usize) -> (r: Result<(), Error>)
        requires
            old(self).wf(),
            cursor_of(op) == Some(csr),
            counter_of(op) is None,
            agg_of(op) is None,
            jump_target(op) matches Some(t) ==> t <= old(self).code@.len(),
        ensures
            final(self).wf(),
            final(self).grew_from(old(self)),
            final(self).counter_slots == old(self).counter_slots,
            final(self).agg_slots == old(self).agg_slots,
            final(self).txm == old(self).txm,
            final(self).mutates_catalog == old(self).mutates_catalog,
            r is Ok ==> final(self).code@ == old(self).code@.push(op),
            r is Ok ==> csr < final(self).cursor_slots,
            r is Err ==> final(self).code@ == old(self).code@,
            r matches Err(e) ==> e matches Error::InternalError(m) && m@ == overflow_text(),
            csr < usize::MAX ==> r is Ok,
            r is Err ==> csr == usize::MAX,
            r is Ok ==> final(self).cursor_slots == if csr >= old(self).cursor_slots {
                csr + 1
            } else {
                old(self).cursor_slots as int
            },
    {
        match self.use_cursor(csr) {
            Ok(()) => {},
            Err(e) => {
                return Err(e);
            },
        }
        self.emit(op);
        Ok(())
    }

    /// Patches the jump target of the control-flow instruction at `src` to
    /// `dst`. An index past the code, or an instruction without a patchable
    /// jump, is an internal error.
    pub fn patch(&mut self, src: usize, dst: usize) -> (r: Result<(), Error>)
        ensures
            src < old(self).code_view().len() && patchable(old(self).code_view()[src as int]) ==> r
                is Ok && final(self).code_view() == old(self).code_view().update(
                src as int,
                with_target(old(self).code_view()[src as int], dst),
            ),
            !(src < old(self).code_view().len() && patchable(old(self).code_view()[src as int]))
                ==> (r matches Err(e) && e is InternalError && final(self).code_view()
                == old(self).code_view()),
            final(self).same_slots(old(self)),
            old(self).wf() && dst <= old(self).code_view().len() ==> final(self).wf(),
            final(self).code_view().len() == old(self).code_view().len(),
            src != 0 && old(self).code_view().len() >= 1 ==> final(self).code_view()[0] == old(self).code_view()[0],
    {
        if src >= self.code.len() {
            return Err(Error::InternalError(String::from_str("patch: pc is out of range")));
        }
        let ghost before = self.code@;
        let new_op = match &self.code[src] {
            Vop::Init { .. } => Vop::Init { jmp: dst },
            Vop::Next { csr, .. } => Vop::Next { csr: *csr, jmp: dst },
            Vop::Scan { csr, prefix, .. } => Vop::Scan { csr: *csr, jmp: dst, prefix: *prefix },
            Vop::Iter { csr, .. } => Vop::Iter { csr: *csr, jmp: dst },
            Vop::If(_) => Vop::If(dst),
            Vop::IfNot(_) => Vop::IfNot(dst),
            Vop::CntIfPos(c, _) => Vop::CntIfPos(*c, dst),
            Vop::CntIfZero(c, _) => Vop::CntIfZero(*c, dst),
            Vop::GroupBreak { slot, .. } => Vop::GroupBreak { slot: *slot, jmp: dst },
            _ => {
                return Err(
                    Error::InternalError(
                        String::from_str("patch: instruction is not a control-flow op"),
                    ),
                );
            },
        };
        assert(new_op == with_target(before[src as int], dst));
        self.code.set(src, new_op);
        proof {
            if old(self).wf() && dst <= old(self).code@.len() {
                assert forall|k: int| 0 <= k < self.code@.len() implies op_ok(
                    #[trigger] self.code@[k],
                    self.code@.len(),
                    self.cursor_slots as nat,
                    self.counter_slots as nat,
                    self.agg_slots as nat,
                ) by {
                    assert(op_ok(
                        before[k],
                        before.len(),
                        self.cursor_slots as nat,
                        self.counter_slots as nat,
                        self.agg_slots as nat,
                    ));
                }
            }
        }
        Ok(())
    }

    /// Raises the program's transaction mode to at least `txn`.
    fn ensure_txn(&mut self, txn: TransactionMode)
        ensures
            final(self).txm == Some(mode_join(txn, old(self).txm)),
            final(self).code@ == old(self).code@,
            final(self).cursor_slots == old(self).cursor_slots,
            final(self).counter_slots == old(self).counter_slots,
            final(self).agg_slots == old(self).agg_slots,
            final(self).sink == old(self).sink,
            final(self).mutates_catalog == old(self).mutates_catalog,
    {
        self.txm = Some(txn.coalesce(self.txm));
    }
}

/// The result of resolving a name against the built-in operator table.
#[derive(Debug)]
pub enum OpLookup {
    /// Not an operator — resolve as a standard-library function instead.
    NotAnOperator,
    /// A known operator applied with the wrong number of arguments.
    BadArity,
    /// A known operator at a valid arity, with its opcode.
    Op(Vop),
}

/// The opcode of a binary operator symbol.
pub open spec fn binary_op(name: Seq<char>) -> Option<Vop> {
    if name == "*"@ {
        Some(Vop::Mul)
    } else if name == "/"@ {
        Some(Vop::Div)
    } else if name == "%"@ {
        Some(Vop::Rem)
    } else if name == "+"@ {
        Some(Vop::Add)
    } else if name == "-"@ {
        Some(Vop::Sub)
    } else if name == "<"@ {
        Some(Vop::Lt)
    } else if name == "<="@ {
        Some(Vop::Le)
    } else if name == "="@ {
        Some(Vop::Eq)
    } else if name == ">="@ {
        Some(Vop::Ge)
    } else if name == ">"@ {
        Some(Vop::Gt)
    } else if name == "!="@ {
        Some(Vop::Ne)
    } else if name == "and"@ {
        Some(Vop::And)
    } else if name == "or"@ {
        Some(Vop::Or)
    } else {
        None
    }
}

/// The opcode of a unary operator name.
pub open spec fn unary_op(name: Seq<char>) -> Option<Vop> {
    if name == "not"@ {
        Some(Vop::Not)
    } else if name == "is_null"@ {
        Some(Vop::IsNull)
    } else if name == "is_true"@ {
        Some(Vop::IsTrue)
    } else if name == "is_false"@ {
        Some(Vop::IsFalse)
    } else if name == "is_unknown"@ {
        Some(Vop::IsUnknown)
    } else {
        None
    }
}

/// How a name resolves against the operator table: binary operators take
/// two arguments, unary ones one, `between` three, `in_list` at least one.
pub open spec fn operator_spec(name: Seq<char>, argc: usize) -> OpLookup {
    if binary_op(name) is Some {
        if argc == 2 {
            OpLookup::Op(binary_op(name)->0)
        } else {
            OpLookup::BadArity
        }
    } else if unary_op(name) is Some {
        if argc == 1 {
            OpLookup::Op(unary_op(name)->0)
        } else {
            OpLookup::BadArity
        }
    } else if name == "between"@ {
        if argc == 3 {
            OpLookup::Op(Vop::Between)
        } else {
            OpLookup::BadArity
        }
    } else if name == "in_list"@ {
        if argc >= 1 {
            OpLookup::Op(Vop::InList((argc - 1) as usize))
        } else {
            OpLookup::BadArity
        }
    } else {
        OpLookup::NotAnOperator
    }
}

/// `op` if `argc` is `want`, else a bad arity.
fn arity_gate(op: Vop, argc: usize, want: usize) -> (r: OpLookup)
    ensures
        argc == want ==> r == OpLookup::Op(op),
        argc != want ==> r is BadArity,
{
    if argc == want {
        OpLookup::Op(op)
    } else {
        OpLookup::BadArity
    }
}

/// Maps a built-in operator name to an [`OpLookup`], distinguishing unknown
/// names from known operators at the wrong arity.
pub fn operator_op(name: &str, argc: usize) -> (r: OpLookup)
    ensures
        r == operator_spec(name@, argc),
{
    if crate::value::str_eq(name, "*") {
        arity_gate(Vop::Mul, argc, 2)
    } else if crate::value::str_eq(name, "/") {
        arity_gate(Vop::Div, argc, 2)
    } else if crate::value::str_eq(name, "%") {
        arity_gate(Vop::Rem, argc, 2)
    } else if crate::value::str_eq(name, "+") {
        arity_gate(Vop::Add, argc, 2)
    } else if crate::value::str_eq(name, "-") {
        arity_gate(Vop::Sub, argc, 2)
    } else if crate::value::str_eq(name, "<") {
        arity_gate(Vop::Lt, argc, 2)
    } else if crate::value::str_eq(name, "<=") {
        arity_gate(Vop::Le, argc, 2)
    } else if crate::value::str_eq(name, "=") {
        arity_gate(Vop::Eq, argc, 2)
    } else if crate::value::str_eq(name, ">=") {
        arity_gate(Vop::Ge, argc, 2)
    } else if crate::value::str_eq(name, ">") {
        arity_gate(Vop::Gt, argc, 2)
    } else if crate::value::str_eq(name, "!=") {
        arity_gate(Vop::Ne, argc, 2)
    } else if crate::value::str_eq(name, "and") {
        arity_gate(Vop::And, argc, 2)
    } else if crate::value::str_eq(name, "or") {
        arity_gate(Vop::Or, argc, 2)
    } else if crate::value::str_eq(name, "not") {
        arity_gate(Vop::Not, argc, 1)
    } else if crate::value::str_eq(name, "is_null") {
        arity_gate(Vop::IsNull, argc, 1)
    } else if crate::value::str_eq(name, "is_true") {
        arity_gate(Vop::IsTrue, argc, 1)
    } else if crate::value::str_eq(name, "is_false") {
        arity_gate(Vop::IsFalse, argc, 1)
    } else if crate::value::str_eq(name, "is_unknown") {
        arity_gate(Vop::IsUnknown, argc, 1)
    } else if crate::value::str_eq(name, "between") {
        arity_gate(Vop::Between, argc, 3)
    } else if crate::value::str_eq(name, "in_list") {
        if argc >= 1 {
            OpLookup::Op(Vop::InList(argc - 1))
        } else {
            OpLookup::BadArity
        }
    } else {
        OpLookup::NotAnOperator
    }
}


/// `op` when `argc` is the operand count `want`, else a bad arity.
pub open spec fn gated(op: Vop, want: usize, argc: usize) -> OpLookup {
    if argc == want {
        OpLookup::Op(op)
    } else {
        OpLookup::BadArity
    }
}

/// Each operator symbol compiles to the opcode of the operation it denotes
/// when given the operands that operation takes, and to a bad arity with any
/// other count: `<` is less-than, `<=` at-most, `=` equality, `>=` at-least,
/// `>` greater-than, `!=` inequality, the arithmetic signs their arithmetic,
/// `and`/`or`/`not` the logical connectives, the `is_*` tests their tests,
/// `between` takes three operands and `in_list` a value and its list.
pub proof fn law_operator_symbols(argc: usize)
    ensures
        operator_spec("*"@, argc) == gated(Vop::Mul, 2, argc),
        operator_spec("/"@, argc) == gated(Vop::Div, 2, argc),
        operator_spec("%"@, argc) == gated(Vop::Rem, 2, argc),
        operator_spec("+"@, argc) == gated(Vop::Add, 2, argc),
        operator_spec("-"@, argc) == gated(Vop::Sub, 2, argc),
        operator_spec("<"@, argc) == gated(Vop::Lt, 2, argc),
        operator_spec("<="@, argc) == gated(Vop::Le, 2, argc),
        operator_spec("="@, argc) == gated(Vop::Eq, 2, argc),
        operator_spec(">="@, argc) == gated(Vop::Ge, 2, argc),
        operator_spec(">"@, argc) == gated(Vop::Gt, 2, argc),
        operator_spec("!="@, argc) == gated(Vop::Ne, 2, argc),
        operator_spec("and"@, argc) == gated(Vop::And, 2, argc),
        operator_spec("or"@, argc) == gated(Vop::Or, 2, argc),
        operator_spec("not"@, argc) == gated(Vop::Not, 1, argc),
        operator_spec("is_null"@, argc) == gated(Vop::IsNull, 1, argc),
        operator_spec("is_true"@, argc) == gated(Vop::IsTrue, 1, argc),
        operator_spec("is_false"@, argc) == gated(Vop::IsFalse, 1, argc),
        operator_spec("is_unknown"@, argc) == gated(Vop::IsUnknown, 1, argc),
        operator_spec("between"@, argc) == gated(Vop::Between, 3, argc),
        operator_spec("in_list"@, argc) == (if argc >= 1 { OpLookup::Op(Vop::InList((argc - 1) as usize)) } else { OpLookup::BadArity }),
{
    reveal_strlit("*");
    reveal_strlit("/");
    reveal_strlit("%");
    reveal_strlit("+");
    reveal_strlit("-");
    reveal_strlit("<");
    reveal_strlit("<=");
    reveal_strlit("=");
    reveal_strlit(">=");
    reveal_strlit(">");
    reveal_strlit("!=");
    reveal_strlit("and");
    reveal_strlit("or");
    reveal_strlit("not");
    reveal_strlit("is_null");
    reveal_strlit("is_true");
    reveal_strlit("is_false");
    reveal_strlit("is_unknown");
    reveal_strlit("between");
    reveal_strlit("in_list");
    assert("/"@[0] != "*"@[0]);
    assert("%"@[0] != "*"@[0]);
    assert("%"@[0] != "/"@[0]);
    assert("+"@[0] != "*"@[0]);
    assert("+"@[0] != "/"@[0]);
    assert("+"@[0] != "%"@[0]);
    assert("-"@[0] != "*"@[0]);
    assert("-"@[0] != "/"@[0]);
    assert("-"@[0] != "%"@[0]);
    assert("-"@[0] != "+"@[0]);
    assert("<"@[0] != "*"@[0]);
    assert("<"@[0] != "/"@[0]);
    assert("<"@[0] != "%"@[0]);
    assert("<"@[0] != "+"@[0]);
    assert("<"@[0] != "-"@[0]);
    assert("<="@.len() != "*"@.len());
    assert("<="@.len() != "/"@.len());
    assert("<="@.len() != "%"@.len());
    assert("<="@.len() != "+"@.len());
    assert("<="@.len() != "-"@.len());
    assert("<="@.len() != "<"@.len());
    assert("="@[0] != "*"@[0]);
    assert("="@[0] != "/"@[0]);
    assert("="@[0] != "%"@[0]);
    assert("="@[0] != "+"@[0]);
    assert("="@[0] != "-"@[0]);
    assert("="@[0] != "<"@[0]);
    assert("="@.len() != "<="@.len());
    assert(">="@.len() != "*"@.len());
    assert(">="@.len() != "/"@.len());
    assert(">="@.len() != "%"@.len());
    assert(">="@.len() != "+"@.len());
    assert(">="@.len() != "-"@.len());
    assert(">="@.len() != "<"@.len());
    assert(">="@[0] != "<="@[0]);
    assert(">="@.len() != "="@.len());
    assert(">"@[0] != "*"@[0]);
    assert(">"@[0] != "/"@[0]);
    assert(">"@[0] != "%"@[0]);
    assert(">"@[0] != "+"@[0]);
    assert(">"@[0] != "-"@[0]);
    assert(">"@[0] != "<"@[0]);
    assert(">"@.len() != "<="@.len());
    assert(">"@[0] != "="@[0]);
    assert(">"@.len() != ">="@.len());
    assert("!="@.len() != "*"@.len());
    assert("!="@.len() != "/"@.len());
    assert("!="@.len() != "%"@.len());
    assert("!="@.len() != "+"@.len());
    assert("!="@.len() != "-"@.len());
    assert("!="@.len() != "<"@.len());
    assert("!="@[0] != "<="@[0]);
    assert("!="@.len() != "="@.len());
    assert("!="@[0] != ">="@[0]);
    assert("!="@.len() != ">"@.len());
    assert("and"@.len() != "*"@.len());
    assert("and"@.len() != "/"@.len());
    assert("and"@.len() != "%"@.len());
    assert("and"@.len() != "+"@.len());
    assert("and"@.len() != "-"@.len());
    assert("and"@.len() != "<"@.len());
    assert("and"@.len() != "<="@.len());
    assert("and"@.len() != "="@.len());
    assert("and"@.len() != ">="@.len());
    assert("and"@.len() != ">"@.len());
    assert("and"@.len() != "!="@.len());
    assert("or"@.len() != "*"@.len());
    assert("or"@.len() != "/"@.len());
    assert("or"@.len() != "%"@.len());
    assert("or"@.len() != "+"@.len());
    assert("or"@.len() != "-"@.len());
    assert("or"@.len() != "<"@.len());
    assert("or"@[0] != "<="@[0]);
    assert("or"@.len() != "="@.len());
    assert("or"@[0] != ">="@[0]);
    assert("or"@.len() != ">"@.len());
    assert("or"@[0] != "!="@[0]);
    assert("or"@.len() != "and"@.len());
    assert("not"@.len() != "*"@.len());
    assert("not"@.len() != "/"@.len());
    assert("not"@.len() != "%"@.len());
    assert("not"@.len() != "+"@.len());
    assert("not"@.len() != "-"@.len());
    assert("not"@.len() != "<"@.len());
    assert("not"@.len() != "<="@.len());
    assert("not"@.len() != "="@.len());
    assert("not"@.len() != ">="@.len());
    assert("not"@.len() != ">"@.len());
    assert("not"@.len() != "!="@.len());
    assert("not"@[0] != "and"@[0]);
    assert("not"@.len() != "or"@.len());
    assert("is_null"@.len() != "*"@.len());
    assert("is_null"@.len() != "/"@.len());
    assert("is_null"@.len() != "%"@.len());
    assert("is_null"@.len() != "+"@.len());
    assert("is_null"@.len() != "-"@.len());
    assert("is_null"@.len() != "<"@.len());
    assert("is_null"@.len() != "<="@.len());
    assert("is_null"@.len() != "="@.len());
    assert("is_null"@.len() != ">="@.len());
    assert("is_null"@.len() != ">"@.len());
    assert("is_null"@.len() != "!="@.len());
    assert("is_null"@.len() != "and"@.len());
    assert("is_null"@.len() != "or"@.len());
    assert("is_null"@.len() != "not"@.len());
    assert("is_true"@.len() != "*"@.len());
    assert("is_true"@.len() != "/"@.len());
    assert("is_true"@.len() != "%"@.len());
    assert("is_true"@.len() != "+"@.len());
    assert("is_true"@.len() != "-"@.len());
    assert("is_true"@.len() != "<"@.len());
    assert("is_true"@.len() != "<="@.len());
    assert("is_true"@.len() != "="@.len());
    assert("is_true"@.len() != ">="@.len());
    assert("is_true"@.len() != ">"@.len());
    assert("is_true"@.len() != "!="@.len());
    assert("is_true"@.len() != "and"@.len());
    assert("is_true"@.len() != "or"@.len());
    assert("is_true"@.len() != "not"@.len());
    assert("is_true"@[3] != "is_null"@[3]);
    assert("is_false"@.len() != "*"@.len());
    assert("is_false"@.len() != "/"@.len());
    assert("is_false"@.len() != "%"@.len());
    assert("is_false"@.len() != "+"@.len());
    assert("is_false"@.len() != "-"@.len());
    assert("is_false"@.len() != "<"@.len());
    assert("is_false"@.len() != "<="@.len());
    assert("is_false"@.len() != "="@.len());
    assert("is_false"@.len() != ">="@.len());
    assert("is_false"@.len() != ">"@.len());
    assert("is_false"@.len() != "!="@.len());
    assert("is_false"@.len() != "and"@.len());
    assert("is_false"@.len() != "or"@.len());
    assert("is_false"@.len() != "not"@.len());
    assert("is_false"@.len() != "is_null"@.len());
    assert("is_false"@.len() != "is_true"@.len());
    assert("is_unknown"@.len() != "*"@.len());
    assert("is_unknown"@.len() != "/"@.len());
    assert("is_unknown"@.len() != "%"@.len());
    assert("is_unknown"@.len() != "+"@.len());
    assert("is_unknown"@.len() != "-"@.len());
    assert("is_unknown"@.len() != "<"@.len());
    assert("is_unknown"@.len() != "<="@.len());
    assert("is_unknown"@.len() != "="@.len());
    assert("is_unknown"@.len() != ">="@.len());
    assert("is_unknown"@.len() != ">"@.len());
    assert("is_unknown"@.len() != "!="@.len());
    assert("is_unknown"@.len() != "and"@.len());
    assert("is_unknown"@.len() != "or"@.len());
    assert("is_unknown"@.len() != "not"@.len());
    assert("is_unknown"@.len() != "is_null"@.len());
    assert("is_unknown"@.len() != "is_true"@.len());
    assert("is_unknown"@.len() != "is_false"@.len());
    assert("between"@.len() != "*"@.len());
    assert("between"@.len() != "/"@.len());
    assert("between"@.len() != "%"@.len());
    assert("between"@.len() != "+"@.len());
    assert("between"@.len() != "-"@.len());
    assert("between"@.len() != "<"@.len());
    assert("between"@.len() != "<="@.len());
    assert("between"@.len() != "="@.len());
    assert("between"@.len() != ">="@.len());
    assert("between"@.len() != ">"@.len());
    assert("between"@.len() != "!="@.len());
    assert("between"@.len() != "and"@.len());
    assert("between"@.len() != "or"@.len());
    assert("between"@.len() != "not"@.len());
    assert("between"@[0] != "is_null"@[0]);
    assert("between"@[0] != "is_true"@[0]);
    assert("between"@.len() != "is_false"@.len());
    assert("between"@.len() != "is_unknown"@.len());
    assert("in_list"@.len() != "*"@.len());
    assert("in_list"@.len() != "/"@.len());
    assert("in_list"@.len() != "%"@.len());
    assert("in_list"@.len() != "+"@.len());
    assert("in_list"@.len() != "-"@.len());
    assert("in_list"@.len() != "<"@.len());
    assert("in_list"@.len() != "<="@.len());
    assert("in_list"@.len() != "="@.len());
    assert("in_list"@.len() != ">="@.len());
    assert("in_list"@.len() != ">"@.len());
    assert("in_list"@.len() != "!="@.len());
    assert("in_list"@.len() != "and"@.len());
    assert("in_list"@.len() != "or"@.len());
    assert("in_list"@.len() != "not"@.len());
    assert("in_list"@[1] != "is_null"@[1]);
    assert("in_list"@[1] != "is_true"@[1]);
    assert("in_list"@.len() != "is_false"@.len());
    assert("in_list"@.len() != "is_unknown"@.len());
    assert("in_list"@[0] != "between"@[0]);
}

} // verus!

verus! {

/// An expression every variable of which is bound and every aggregate of
/// which has an accumulator slot below `aggs`.
pub open spec fn expr_ready(e: Expr, aggs: nat) -> bool
    decreases e,
{
    match e {
        Expr::Call(c) => forall|i: int| 0 <= i < c.args@.len() ==> expr_ready(c.args@[i], aggs),
        Expr::Jpi(j) => expr_ready(*j.inp, aggs),
        Expr::Jpk(j) => expr_ready(*j.inp, aggs),
        Expr::Jpe(j) => expr_ready(*j.inp, aggs) && expr_ready(*j.exp, aggs),
        Expr::Lit(_) => true,
        Expr::Obj(ms) => forall|i: int|
            0 <= i < ms@.len() ==> expr_ready(#[trigger] member_expr(ms@[i]), aggs),
        Expr::Array(items) => forall|i: int| 0 <= i < items@.len() ==> expr_ready(items@[i], aggs),
        Expr::Var(v) => v.bind is Some,
        Expr::Subscript(_) => true,
        Expr::Get(_) => true,
        Expr::Agg(a) => a.slot matches Some(s) && s < aggs,
    }
}

/// The expression of a constructor member.
pub open spec fn member_expr(m: Member) -> Expr {
    match m {
        Member::Assign(_, x) => x,
        Member::Spread(x) => x,
    }
}

/// Readiness survives more accumulator slots.
pub proof fn lemma_ready_mono(e: Expr, n: nat, m: nat)
    requires
        expr_ready(e, n),
        n <= m,
    ensures
        expr_ready(e, m),
    decreases e,
{
    match e {
        Expr::Call(c) => {
            assert forall|i: int| 0 <= i < c.args@.len() implies expr_ready(c.args@[i], m) by {
                assert(decreases_to!(c.args => c.args@));
                lemma_ready_mono(c.args@[i], n, m);
            }
        },
        Expr::Jpi(j) => lemma_ready_mono(*j.inp, n, m),
        Expr::Jpk(j) => lemma_ready_mono(*j.inp, n, m),
        Expr::Jpe(j) => {
            lemma_ready_mono(*j.inp, n, m);
            lemma_ready_mono(*j.exp, n, m);
        },
        Expr::Obj(ms) => {
            assert forall|i: int| 0 <= i < ms@.len() implies expr_ready(
                #[trigger] member_expr(ms@[i]),
                m,
            ) by {
                assert(decreases_to!(ms => ms@));
                assert(decreases_to!(ms@ => ms@[i]));
                lemma_ready_mono(member_expr(ms@[i]), n, m);
            }
        },
        Expr::Array(items) => {
            assert forall|i: int| 0 <= i < items@.len() implies expr_ready(items@[i], m) by {
                assert(decreases_to!(items => items@));
                lemma_ready_mono(items@[i], n, m);
            }
        },
        _ => {},
    }
}

/// The same expression is ready exactly when the other is.
pub proof fn lemma_ready_same(a: Expr, b: Expr, n: nat)
    requires
        expr_same(a, b),
    ensures
        expr_ready(a, n) == expr_ready(b, n),
    decreases a,
{
    match a {
        Expr::Call(x) => {
            let y = b->Call_0;
            assert forall|i: int| 0 <= i < x.args@.len() implies expr_ready(x.args@[i], n)
                == expr_ready(y.args@[i], n) by {
                assert(decreases_to!(x.args => x.args@));
                lemma_ready_same(x.args@[i], y.args@[i], n);
            }
            assert(b == Expr::Call(y));
            assert(x.args@.len() == y.args@.len());
            if expr_ready(a, n) {
                assert forall|i: int| 0 <= i < y.args@.len() implies expr_ready(y.args@[i], n) by {
                    assert(expr_ready(x.args@[i], n));
                }
            }
            if expr_ready(b, n) {
                assert forall|i: int| 0 <= i < x.args@.len() implies expr_ready(x.args@[i], n) by {
                    assert(expr_ready(y.args@[i], n));
                }
            }
        },
        Expr::Jpi(x) => lemma_ready_same(*x.inp, *b->Jpi_0.inp, n),
        Expr::Jpk(x) => lemma_ready_same(*x.inp, *b->Jpk_0.inp, n),
        Expr::Jpe(x) => {
            lemma_ready_same(*x.inp, *b->Jpe_0.inp, n);
            lemma_ready_same(*x.exp, *b->Jpe_0.exp, n);
        },
        Expr::Obj(x) => {
            let y = b->Obj_0;
            assert forall|i: int| 0 <= i < x@.len() implies expr_ready(
                #[trigger] member_expr(x@[i]),
                n,
            ) == expr_ready(member_expr(y@[i]), n) by {
                assert(decreases_to!(x => x@));
                assert(decreases_to!(x@ => x@[i]));
                assert(member_same(x@[i], y@[i]));
                lemma_ready_same(member_expr(x@[i]), member_expr(y@[i]), n);
            }
            assert(b == Expr::Obj(y));
            if expr_ready(a, n) {
                assert forall|i: int| 0 <= i < y@.len() implies expr_ready(
                    #[trigger] member_expr(y@[i]),
                    n,
                ) by {
                    assert(expr_ready(member_expr(x@[i]), n));
                }
            }
            if expr_ready(b, n) {
                assert forall|i: int| 0 <= i < x@.len() implies expr_ready(
                    #[trigger] member_expr(x@[i]),
                    n,
                ) by {
                    assert(expr_ready(member_expr(y@[i]), n));
                }
            }
        },
        Expr::Array(x) => {
            let y = b->Array_0;
            assert forall|i: int| 0 <= i < x@.len() implies expr_ready(x@[i], n) == expr_ready(
                y@[i],
                n,
            ) by {
                assert(decreases_to!(x => x@));
                lemma_ready_same(x@[i], y@[i], n);
            }
            assert(expr_ready(a, n) == expr_ready(b, n));
        },
        Expr::Lit(_) => {},
        Expr::Var(_) => {},
        Expr::Subscript(_) => {},
        Expr::Get(_) => {},
        Expr::Agg(_) => {},
    }
}

proof fn lemma_obj_ready(ms: Vec<Member>, aggs: nat)
    requires
        expr_ready(Expr::Obj(ms), aggs),
    ensures
        forall|i: int| 0 <= i < ms@.len() ==> expr_ready(#[trigger] member_expr(ms@[i]), aggs),
{
}

/// One instruction of compiled code as contracts state it: a given
/// instruction, or a push of key bytes known by their contents.
pub enum CodeItem {
    Op(Vop),
    PushKey(Seq<u8>),
    EncodeKey(Seq<Key>),
}

/// `op` is the instruction `item` describes.
pub open spec fn item_is(op: Vop, item: CodeItem) -> bool {
    match item {
        CodeItem::Op(o) => op == o,
        CodeItem::PushKey(k) => op matches Vop::Push { val: Value::Bytes(b) } && b@ == k,
        CodeItem::EncodeKey(ks) => op matches Vop::EncodeKey { keys } && keys_same(keys@, ks),
    }
}

/// `code` is, instruction by instruction, what `items` describe.
pub open spec fn code_is(code: Seq<Vop>, items: Seq<CodeItem>) -> bool {
    &&& code.len() == items.len()
    &&& forall|i: int| 0 <= i < code.len() ==> item_is(#[trigger] code[i], items[i])
}

/// `id` is the first builtin named `name`.
pub open spec fn is_first_builtin(name: Seq<char>, id: usize) -> bool {
    &&& id < BUILTIN_COUNT
    &&& builtin_name_spec(id) == name
    &&& forall|j: usize| j < id ==> builtin_name_spec(j) != name
}

/// The builtin a function name resolves to.
pub open spec fn builtin_of(name: Seq<char>) -> Option<usize> {
    if exists|id: usize| is_first_builtin(name, id) {
        Some(choose|id: usize| is_first_builtin(name, id))
    } else {
        None
    }
}

/// The instruction a call of `name` with `argc` arguments ends in: its
/// operator's, else a call of the builtin it names, if the arity fits.
pub open spec fn call_op(name: Seq<char>, argc: usize) -> Option<Vop> {
    match operator_spec(name, argc) {
        OpLookup::Op(op) => Some(op),
        OpLookup::BadArity => None,
        OpLookup::NotAnOperator => match builtin_of(name) {
            Some(id) => if accepts(builtin_arity(id), argc) {
                Some(Vop::Call { fun: id, cnt: argc })
            } else {
                None
            },
            None => None,
        },
    }
}

/// The cursor a variable loads from.
pub open spec fn var_cursor(v: Var) -> usize {
    match v.bind {
        Some(b) => b as usize,
        None => 0,
    }
}

/// The code an expression compiles to, leaving its value on the stack;
/// `None` when it does not compile (an unknown function or a bad arity, a
/// key of the wrong type, a multi-element subscript of a value, a cursor
/// slot beyond the counter).
pub open spec fn expr_code(e: Expr) -> Option<Seq<CodeItem>>
    decreases e, 0int,
{
    match e {
        Expr::Call(c) => match (call_op(c.name@, c.args@.len() as usize), exprs_code(
            c.args@,
            c.args@.len() as int,
            false,
        )) {
            (Some(op), Some(args)) => Some(args.push(CodeItem::Op(op))),
            _ => None,
        },
        Expr::Jpe(j) => match (expr_code(*j.inp), expr_code(*j.exp)) {
            (Some(a), Some(b)) => Some(a + b + seq![CodeItem::Op(Vop::Jpe)]),
            _ => None,
        },
        Expr::Jpi(j) => match expr_code(*j.inp) {
            Some(a) => Some(a.push(CodeItem::Op(Vop::Jpi(j.idx)))),
            None => None,
        },
        Expr::Jpk(j) => match expr_code(*j.inp) {
            Some(a) => Some(a.push(CodeItem::Op(Vop::Jpk(j.key)))),
            None => None,
        },
        Expr::Lit(v) => Some(seq![CodeItem::Op(Vop::Push { val: v })]),
        Expr::Obj(ms) => match members_code(ms@, ms@.len() as int) {
            Some(a) => Some(seq![CodeItem::Op(Vop::Obj)] + a),
            None => None,
        },
        Expr::Array(items) => match exprs_code(items@, items@.len() as int, true) {
            Some(a) => Some(seq![CodeItem::Op(Vop::Arr)] + a),
            None => None,
        },
        Expr::Var(v) => if var_cursor(v) == usize::MAX {
            None
        } else {
            Some(seq![CodeItem::Op(Vop::LoadVal { csr: var_cursor(v) })])
        },
        Expr::Get(g) => get_code(g),
        Expr::Agg(a) => Some(
            seq![
                CodeItem::Op(
                    Vop::AggFinal {
                        slot: match a.slot {
                            Some(s) => s,
                            None => 0,
                        },
                        kind: a.kind,
                    },
                ),
            ],
        ),
        Expr::Subscript(_) => None,
    }
}

/// The code of a keyed-table lookup: open the table, push the encoded key,
/// and get the row (a full key) or the rows under a key prefix.
pub open spec fn get_code(g: Get) -> Option<Seq<CodeItem>> {
    let c = g.csr as usize;
    if c == usize::MAX {
        None
    } else {
        match fields_result(tuple_fields(g.args@), g.keys@) {
            Ok(b) => Some(
                seq![
                    CodeItem::Op(Vop::Open { csr: c, tbl: g.oid }),
                    CodeItem::PushKey(b),
                    CodeItem::Op(
                        if g.args@.len() == g.keys@.len() {
                            Vop::Get { csr: c }
                        } else {
                            Vop::GetRange { csr: c }
                        },
                    ),
                ],
            ),
            Err(_) => None,
        }
    }
}

/// The code of the first `n` expressions, each followed by `ArrPush` when
/// `push`.
pub open spec fn exprs_code(items: Seq<Expr>, n: int, push: bool) -> Option<Seq<CodeItem>>
    decreases items, n,
{
    if n <= 0 || n > items.len() {
        if n <= 0 {
            Some(Seq::empty())
        } else {
            None
        }
    } else {
        match (exprs_code(items, n - 1, push), expr_code(items[n - 1])) {
            (Some(a), Some(b)) => Some(
                a + b + if push {
                    seq![CodeItem::Op(Vop::ArrPush)]
                } else {
                    Seq::empty()
                },
            ),
            _ => None,
        }
    }
}

/// The code of the first `n` object members: each value, then its
/// assignment or spread.
pub open spec fn members_code(ms: Seq<Member>, n: int) -> Option<Seq<CodeItem>>
    decreases ms, n,
{
    if n <= 0 || n > ms.len() {
        if n <= 0 {
            Some(Seq::empty())
        } else {
            None
        }
    } else {
        match members_code(ms, n - 1) {
            Some(a) => match ms[n - 1] {
                Member::Assign(name, x) => match expr_code(x) {
                    Some(b) => Some(a + b + seq![CodeItem::Op(Vop::ObjAssign(name))]),
                    None => None,
                },
                Member::Spread(x) => match expr_code(x) {
                    Some(b) => Some(a + b + seq![CodeItem::Op(Vop::ObjSpread)]),
                    None => None,
                },
            },
            None => None,
        }
    }
}

/// Code that grew in two steps is the two steps' code, one after the other.
proof fn lemma_code_chain(
    c0: Seq<Vop>,
    c1: Seq<Vop>,
    c2: Seq<Vop>,
    a: Seq<CodeItem>,
    b: Seq<CodeItem>,
)
    requires
        extends(c1, c0),
        extends(c2, c1),
        code_is(c1.skip(c0.len() as int), a),
        code_is(c2.skip(c1.len() as int), b),
    ensures
        code_is(c2.skip(c0.len() as int), a + b),
        extends(c2, c0),
{
    let n0 = c0.len() as int;
    let n1 = c1.len() as int;
    assert forall|i: int| 0 <= i < c2.len() - n0 implies item_is(
        #[trigger] c2.skip(n0)[i],
        (a + b)[i],
    ) by {
        if i < n1 - n0 {
            assert(c2[n0 + i] == c1[n0 + i]);
            assert(c1.skip(n0)[i] == c1[n0 + i]);
        } else {
            assert(c2.skip(n1)[i - (n1 - n0)] == c2[n0 + i]);
        }
    }
}

/// No code compiles from some first expressions when it does not from fewer.
proof fn lemma_exprs_none(items: Seq<Expr>, k: int, m: int, push: bool)
    requires
        0 <= k <= m <= items.len(),
        exprs_code(items, k, push) is None,
    ensures
        exprs_code(items, m, push) is None,
    decreases m - k,
{
    if k < m {
        lemma_exprs_none(items, k, m - 1, push);
    }
}

/// No code compiles from some first members when it does not from fewer.
proof fn lemma_members_none(ms: Seq<Member>, k: int, m: int)
    requires
        0 <= k <= m <= ms.len(),
        members_code(ms, k) is None,
    ensures
        members_code(ms, m) is None,
    decreases m - k,
{
    if k < m {
        lemma_members_none(ms, k, m - 1);
    }
}

/// The first builtin of a name is the one it resolves to.
proof fn lemma_builtin_of(name: Seq<char>, id: usize)
    requires
        is_first_builtin(name, id),
    ensures
        builtin_of(name) == Some(id),
{
    let c = choose|x: usize| is_first_builtin(name, x);
    assert(is_first_builtin(name, c));
    if c < id {
        assert(builtin_name_spec(c) != name);
    } else if id < c {
        assert(builtin_name_spec(id) != name);
    }
}

impl Compiler {
    /// Appends `Halt`, the end of a program's body.
    pub fn emit_halt(&mut self)
        requires
            old(self).wf(),
        ensures
            final(self).wf(),
            final(self).code_view() == old(self).code_view().push(Vop::Halt),
            final(self).same_slots(old(self)),
    {
        self.emit_plain(Vop::Halt);
    }

    /// Appends a push of `val`.
    fn emit_push(&mut self, val: Value)
        requires
            old(self).wf(),
        ensures
            final(self).wf(),
            final(self).grew_from(old(self)),
            final(self).same_slots(old(self)),
            final(self).code@ == old(self).code@.push(Vop::Push { val }),
    {
        self.emit_plain(Vop::Push { val });
    }

    /// Compiles each expression in turn, each followed by `ArrPush` when
    /// `push` (an array constructor) — the values left on the stack in order
    /// otherwise.
    #[verifier::loop_isolation(false)]
    fn cc_exprs(&mut self, items: Vec<Expr>, push: bool) -> (r: Result<(), Error>)
        requires
            old(self).wf(),
            forall|i: int|
                0 <= i < items@.len() ==> expr_ready(items@[i], old(self).agg_slots as nat),
        ensures
            final(self).wf(),
            final(self).grew_from(old(self)),
            extends(final(self).code@, old(self).code@),
            final(self).counter_slots == old(self).counter_slots,
            final(self).agg_slots == old(self).agg_slots,
            final(self).txm == old(self).txm,
            final(self).mutates_catalog == old(self).mutates_catalog,
            r is Ok <==> exprs_code(items@, items@.len() as int, push) is Some,
            r is Ok ==> code_is(
                final(self).code@.skip(old(self).code@.len() as int),
                exprs_code(items@, items@.len() as int, push)->0,
            ),
        decreases items,
    {
        let ghost orig = items;
        let ghost all = items@;
        let ghost c0 = self.code@;
        let mut items = items;
        let ghost mut k: int = 0;
        proof {
            assert(self.code@.skip(c0.len() as int) =~= Seq::<Vop>::empty());
        }
        while items.len() > 0
            invariant
                all == orig@,
                self.wf(),
                self.grew_from(old(self)),
                extends(self.code@, old(self).code@),
                c0 == old(self).code@,
                self.counter_slots == old(self).counter_slots,
                self.agg_slots == old(self).agg_slots,
                self.txm == old(self).txm,
                self.mutates_catalog == old(self).mutates_catalog,
                0 <= k <= all.len(),
                items@ == all.skip(k),
                forall|i: int| 0 <= i < all.len() ==> expr_ready(all[i], old(self).agg_slots as nat),
                exprs_code(all, k, push) is Some,
                code_is(self.code@.skip(c0.len() as int), exprs_code(all, k, push)->0),
            decreases items.len(),
        {
            let item = items.remove(0);
            let ghost c1 = self.code@;
            proof {
                assert(item == all[k]);
                assert(decreases_to!(orig => orig@));
                assert(decreases_to!(orig@ => orig@[k]));
            }
            let r1 = self.cc_expr(item);
            if r1.is_err() {
                proof {
                    lemma_exprs_none(all, k + 1, all.len() as int, push);
                    assert(all.skip(0) =~= orig@);
                }
                return r1;
            }
            let ghost c2 = self.code@;
            proof {
                lemma_code_chain(c0, c1, c2, exprs_code(all, k, push)->0, expr_code(all[k])->0);
            }
            if push {
                self.emit_plain(Vop::ArrPush);
                proof {
                    assert(self.code@.skip(c2.len() as int) =~= seq![Vop::ArrPush]);
                    lemma_code_chain(
                        c0,
                        c2,
                        self.code@,
                        exprs_code(all, k, push)->0 + expr_code(all[k])->0,
                        seq![CodeItem::Op(Vop::ArrPush)],
                    );
                }
            } else {
                proof {
                    assert(exprs_code(all, k, push)->0 + expr_code(all[k])->0 + Seq::<
                        CodeItem,
                    >::empty() =~= exprs_code(all, k, push)->0 + expr_code(all[k])->0);
                }
            }
            proof {
                k = k + 1;
            }
        }
        proof {
            assert(all.skip(k) =~= Seq::<Expr>::empty());
        }
        Ok(())
    }

    /// Compiles a builtin call. A built-in operator compiles to its dedicated
    /// opcode; any other name resolves against the standard-library registry
    /// and compiles to a generic call. An unknown name or a bad arity errors.
    fn cc_expr_call(&mut self, call: Call) -> (r: Result<(), Error>)
        requires
            old(self).wf(),
            forall|i: int|
                0 <= i < call.args@.len() ==> expr_ready(call.args@[i], old(self).agg_slots as nat),
        ensures
            final(self).wf(),
            final(self).grew_from(old(self)),
            extends(final(self).code@, old(self).code@),
            final(self).counter_slots == old(self).counter_slots,
            final(self).agg_slots == old(self).agg_slots,
            final(self).txm == old(self).txm,
            final(self).mutates_catalog == old(self).mutates_catalog,
            r is Ok <==> expr_code(Expr::Call(call)) is Some,
            r is Ok ==> code_is(
                final(self).code@.skip(old(self).code@.len() as int),
                expr_code(Expr::Call(call))->0,
            ),
        decreases call,
    {
        let ghost c0 = self.code@;
        let ghost whole = Expr::Call(call);
        let Call { name, args } = call;
        let argc = args.len();
        let ghost args_code = exprs_code(args@, args@.len() as int, false);
        let op = match operator_op(name.as_str(), argc) {
            OpLookup::Op(op) => op,
            OpLookup::BadArity => {
                return Err(Error::UnknownFunction(name));
            },
            OpLookup::NotAnOperator => {
                match lookup(name.as_str()) {
                    Some(fun) => {
                        proof {
                            lemma_builtin_of(name@, fun);
                        }
                        if arity_ok(fun, argc) {
                            Vop::Call { fun, cnt: argc }
                        } else {
                            return Err(Error::UnknownFunction(name));
                        }
                    },
                    None => {
                        proof {
                            assert(!exists|id: usize| is_first_builtin(name@, id));
                        }
                        return Err(Error::UnknownFunction(name));
                    },
                }
            },
        };
        assert(call_op(name@, argc) == Some(op));
        let r1 = self.cc_exprs(args, false);
        if r1.is_err() {
            return r1;
        }
        let ghost c1 = self.code@;
        self.emit_plain(op);
        proof {
            assert(self.code@.skip(c1.len() as int) =~= seq![op]);
            lemma_code_chain(c0, c1, self.code@, args_code->0, seq![CodeItem::Op(op)]);
            assert(args_code->0 + seq![CodeItem::Op(op)] =~= args_code->0.push(CodeItem::Op(op)));
        }
        Ok(())
    }

    /// Compiles an object constructor, assigning or spreading each member.
    #[verifier::loop_isolation(false)]
    fn cc_expr_obj(&mut self, obj: Vec<Member>) -> (r: Result<(), Error>)
        requires
            old(self).wf(),
            forall|i: int|
                0 <= i < obj@.len() ==> expr_ready(#[trigger] member_expr(obj@[i]), old(self).agg_slots as nat),
        ensures
            final(self).wf(),
            final(self).grew_from(old(self)),
            extends(final(self).code@, old(self).code@),
            final(self).counter_slots == old(self).counter_slots,
            final(self).agg_slots == old(self).agg_slots,
            final(self).txm == old(self).txm,
            final(self).mutates_catalog == old(self).mutates_catalog,
            r is Ok <==> expr_code(Expr::Obj(obj)) is Some,
            r is Ok ==> code_is(
                final(self).code@.skip(old(self).code@.len() as int),
                expr_code(Expr::Obj(obj))->0,
            ),
        decreases obj,
    {
        let ghost c0 = self.code@;
        self.emit_plain(Vop::Obj);
        let ghost c1 = self.code@;
        let ghost orig = obj;
        let ghost all = obj@;
        let mut ms = obj;
        let ghost mut k: int = 0;
        proof {
            assert(self.code@.skip(c1.len() as int) =~= Seq::<Vop>::empty());
        }
        while ms.len() > 0
            invariant
                all == orig@,
                self.wf(),
                self.grew_from(old(self)),
                extends(self.code@, c1),
                extends(c1, old(self).code@),
                c0 == old(self).code@,
                c1 == c0.push(Vop::Obj),
                self.counter_slots == old(self).counter_slots,
                self.agg_slots == old(self).agg_slots,
                self.txm == old(self).txm,
                self.mutates_catalog == old(self).mutates_catalog,
                0 <= k <= all.len(),
                ms@ == all.skip(k),
                forall|i: int|
                    0 <= i < all.len() ==> expr_ready(#[trigger] member_expr(all[i]), old(self).agg_slots as nat),
                members_code(all, k) is Some,
                code_is(self.code@.skip(c1.len() as int), members_code(all, k)->0),
            decreases ms.len(),
        {
            let m = ms.remove(0);
            let ghost c2 = self.code@;
            let ghost before = members_code(all, k)->0;
            proof {
                assert(m == all[k]);
                assert(expr_ready(member_expr(all[k]), old(self).agg_slots as nat));
                assert(decreases_to!(orig => orig@));
                assert(decreases_to!(orig@ => orig@[k]));
            }
            match m {
                Member::Assign(name, x) => {
                    proof {
                        assert(decreases_to!(m => x));
                    }
                    let r1 = self.cc_expr(x);
                    if r1.is_err() {
                        proof {
                            lemma_members_none(all, k + 1, all.len() as int);
                        }
                        return r1;
                    }
                    let ghost c3 = self.code@;
                    let ghost op = Vop::ObjAssign(name);
                    self.emit_plain(Vop::ObjAssign(name));
                    proof {
                        lemma_code_chain(c1, c2, c3, before, expr_code(x)->0);
                        assert(self.code@.skip(c3.len() as int) =~= seq![op]);
                        lemma_code_chain(
                            c1,
                            c3,
                            self.code@,
                            before + expr_code(x)->0,
                            seq![CodeItem::Op(op)],
                        );
                    }
                },
                Member::Spread(x) => {
                    proof {
                        assert(decreases_to!(m => x));
                    }
                    let r1 = self.cc_expr(x);
                    if r1.is_err() {
                        proof {
                            lemma_members_none(all, k + 1, all.len() as int);
                        }
                        return r1;
                    }
                    let ghost c3 = self.code@;
                    self.emit_plain(Vop::ObjSpread);
                    proof {
                        lemma_code_chain(c1, c2, c3, before, expr_code(x)->0);
                        assert(self.code@.skip(c3.len() as int) =~= seq![Vop::ObjSpread]);
                        lemma_code_chain(
                            c1,
                            c3,
                            self.code@,
                            before + expr_code(x)->0,
                            seq![CodeItem::Op(Vop::ObjSpread)],
                        );
                    }
                },
            }
            proof {
                k = k + 1;
            }
        }
        proof {
            assert(all.skip(k) =~= Seq::<Member>::empty());
            assert(c1.skip(c0.len() as int) =~= seq![Vop::Obj]);
            lemma_code_chain(
                c0,
                c1,
                self.code@,
                seq![CodeItem::Op(Vop::Obj)],
                members_code(all, k)->0,
            );
        }
        Ok(())
    }

    /// Keyed-table access `table[key, ...]`: the literal key is encoded now
    /// (a type mismatch surfaces as a schema error); a full key is a point
    /// lookup, a leading prefix a range lookup.
    fn cc_expr_get(&mut self, get: Get) -> (r: Result<(), Error>)
        requires
            old(self).wf(),
        ensures
            final(self).wf(),
            final(self).grew_from(old(self)),
            extends(final(self).code@, old(self).code@),
            final(self).counter_slots == old(self).counter_slots,
            final(self).agg_slots == old(self).agg_slots,
            final(self).txm == old(self).txm,
            final(self).mutates_catalog == old(self).mutates_catalog,
            r is Ok <==> get_code(get) is Some,
            r is Ok ==> code_is(
                final(self).code@.skip(old(self).code@.len() as int),
                get_code(get)->0,
            ),
    {
        let ghost g0 = get;
        let ghost c0 = self.code@;
        let Get { csr, oid, keys, args } = get;
        let full = args.len() == keys.len();
        let c = csr as usize;
        let r1 = self.emit_cursor_op(Vop::Open { csr: c, tbl: oid }, c);
        if r1.is_err() {
            return r1;
        }
        let key = match encode_key_tuple(args.as_slice(), keys.as_slice()) {
            Ok(k) => k,
            Err(e) => {
                return Err(e);
            },
        };
        let ghost kb = key@;
        self.emit_push(Value::Bytes(key));
        let last = if full {
            Vop::Get { csr: c }
        } else {
            Vop::GetRange { csr: c }
        };
        let ghost lastv = last;
        let r2 = self.emit_cursor_op(last, c);
        proof {
            let items = seq![
                CodeItem::Op(Vop::Open { csr: c, tbl: oid }),
                CodeItem::PushKey(kb),
                CodeItem::Op(lastv),
            ];
            assert(get_code(g0) == Some(items));
            let d = self.code@.skip(c0.len() as int);
            assert(d.len() == 3);
            assert(item_is(d[0], items[0]));
            assert(item_is(d[1], items[1]));
            assert(item_is(d[2], items[2]));
        }
        r2
    }

    /// Compiles an expression, leaving its value on top of the stack.
    fn cc_expr(&mut self, expr: Expr) -> (r: Result<(), Error>)
        requires
            old(self).wf(),
            expr_ready(expr, old(self).agg_slots as nat),
        ensures
            final(self).wf(),
            final(self).grew_from(old(self)),
            extends(final(self).code@, old(self).code@),
            final(self).counter_slots == old(self).counter_slots,
            final(self).agg_slots == old(self).agg_slots,
            final(self).txm == old(self).txm,
            final(self).mutates_catalog == old(self).mutates_catalog,
            r is Ok <==> expr_code(expr) is Some,
            r is Ok ==> code_is(
                final(self).code@.skip(old(self).code@.len() as int),
                expr_code(expr)->0,
            ),
        decreases expr,
    {
        let ghost c0 = self.code@;
        match expr {
            Expr::Call(call) => self.cc_expr_call(call),
            Expr::Jpe(jpe) => {
                let Jpe { inp, exp } = jpe;
                let ghost (a, b) = (*inp, *exp);
                let r1 = self.cc_expr(*inp);
                if r1.is_err() {
                    return r1;
                }
                let ghost c1 = self.code@;
                let r2 = self.cc_expr(*exp);
                if r2.is_err() {
                    return r2;
                }
                let ghost c2 = self.code@;
                self.emit_plain(Vop::Jpe);
                proof {
                    lemma_code_chain(c0, c1, c2, expr_code(a)->0, expr_code(b)->0);
                    assert(self.code@.skip(c2.len() as int) =~= seq![Vop::Jpe]);
                    lemma_code_chain(
                        c0,
                        c2,
                        self.code@,
                        expr_code(a)->0 + expr_code(b)->0,
                        seq![CodeItem::Op(Vop::Jpe)],
                    );
                }
                Ok(())
            },
            Expr::Jpi(jpi) => {
                let Jpi { inp, idx } = jpi;
                let ghost a = *inp;
                let r1 = self.cc_expr(*inp);
                if r1.is_err() {
                    return r1;
                }
                let ghost c1 = self.code@;
                self.emit_plain(Vop::Jpi(idx));
                proof {
                    assert(self.code@.skip(c1.len() as int) =~= seq![Vop::Jpi(idx)]);
                    lemma_code_chain(
                        c0,
                        c1,
                        self.code@,
                        expr_code(a)->0,
                        seq![CodeItem::Op(Vop::Jpi(idx))],
                    );
                    assert(expr_code(a)->0 + seq![CodeItem::Op(Vop::Jpi(idx))] =~= expr_code(
                        a,
                    )->0.push(CodeItem::Op(Vop::Jpi(idx))));
                }
                Ok(())
            },
            Expr::Jpk(jpk) => {
                let Jpk { inp, key } = jpk;
                let ghost a = *inp;
                let ghost op = Vop::Jpk(key);
                let r1 = self.cc_expr(*inp);
                if r1.is_err() {
                    return r1;
                }
                let ghost c1 = self.code@;
                self.emit_plain(Vop::Jpk(key));
                proof {
                    assert(self.code@.skip(c1.len() as int) =~= seq![op]);
                    lemma_code_chain(c0, c1, self.code@, expr_code(a)->0, seq![CodeItem::Op(op)]);
                    assert(expr_code(a)->0 + seq![CodeItem::Op(op)] =~= expr_code(a)->0.push(
                        CodeItem::Op(op),
                    ));
                }
                Ok(())
            },
            Expr::Lit(val) => {
                let ghost op = Vop::Push { val };
                self.emit_push(val);
                proof {
                    assert(self.code@.skip(c0.len() as int) =~= seq![op]);
                }
                Ok(())
            },
            Expr::Obj(obj) => {
                proof {
                    lemma_obj_ready(obj, old(self).agg_slots as nat);
                }
                self.cc_expr_obj(obj)
            },
            Expr::Array(items) => {
                let ghost all = items@;
                self.emit_plain(Vop::Arr);
                let ghost c1 = self.code@;
                let r1 = self.cc_exprs(items, true);
                if r1.is_err() {
                    return r1;
                }
                proof {
                    assert(c1.skip(c0.len() as int) =~= seq![Vop::Arr]);
                    lemma_code_chain(
                        c0,
                        c1,
                        self.code@,
                        seq![CodeItem::Op(Vop::Arr)],
                        exprs_code(all, all.len() as int, true)->0,
                    );
                }
                Ok(())
            },
            Expr::Var(var) => {
                let csr = match var.bind {
                    Some(b) => b as usize,
                    None => 0,
                };
                let r1 = self.emit_cursor_op(Vop::LoadVal { csr }, csr);
                proof {
                    if r1 is Ok {
                        assert(self.code@.skip(c0.len() as int) =~= seq![Vop::LoadVal { csr }]);
                    }
                }
                r1
            },
            Expr::Get(get) => self.cc_expr_get(get),
            Expr::Agg(agg) => {
                let slot = match agg.slot {
                    Some(s) => s,
                    None => 0,
                };
                self.emit(Vop::AggFinal { slot, kind: agg.kind });
                proof {
                    assert(self.code@.skip(c0.len() as int) =~= seq![
                        Vop::AggFinal { slot, kind: agg.kind },
                    ]);
                }
                Ok(())
            },
            Expr::Subscript(_) => Err(
                Error::Unsupported(
                    String::from_str("multi-element subscript on a value is not supported"),
                ),
            ),
        }
    }
}

} // verus!

verus! {

/// An expression whose variables are bound and whose aggregates, wherever
/// they stand, have a plain argument (or none): what a projection or a HAVING
/// predicate may hold before its aggregates get accumulator slots.
pub open spec fn proj_ok(e: Expr) -> bool
    decreases e,
{
    match e {
        Expr::Call(c) => forall|i: int| 0 <= i < c.args@.len() ==> proj_ok(#[trigger] c.args@[i]),
        Expr::Jpi(j) => proj_ok(*j.inp),
        Expr::Jpk(j) => proj_ok(*j.inp),
        Expr::Jpe(j) => proj_ok(*j.inp) && proj_ok(*j.exp),
        Expr::Lit(_) => true,
        Expr::Obj(ms) => forall|i: int| 0 <= i < ms@.len() ==> proj_ok(#[trigger] member_expr(ms@[i])),
        Expr::Array(items) => forall|i: int| 0 <= i < items@.len() ==> proj_ok(#[trigger] items@[i]),
        Expr::Var(v) => v.bind is Some,
        Expr::Subscript(s) => proj_ok(*s.base) && forall|i: int|
            0 <= i < s.args@.len() ==> proj_ok(#[trigger] s.args@[i]),
        Expr::Get(_) => true,
        Expr::Agg(a) => match a.arg {
            Some(x) => expr_ready(*x, 0),
            None => true,
        },
    }
}

/// One aggregate term pulled out of a projection: its accumulator slot, its
/// kind, and its argument (`None` for `count(*)`).
pub struct AggTerm {
    pub slot: usize,
    pub kind: AggKind,
    pub arg: Option<Expr>,
}

/// Every term has an allocated slot and a plain argument.
pub open spec fn terms_ok(terms: Seq<AggTerm>, aggs: nat) -> bool {
    forall|i: int|
        0 <= i < terms.len() ==> (#[trigger] terms[i]).slot < aggs && (terms[i].arg matches Some(
            x,
        ) ==> expr_ready(x, 0))
}

/// Every group key is a plain expression.
pub open spec fn groups_ok(groups: Seq<Expr>) -> bool {
    forall|i: int| 0 <= i < groups.len() ==> expr_ready(#[trigger] groups[i], 0)
}

/// The first term with this kind and argument.
pub open spec fn term_index(terms: Seq<AggTerm>, kind: AggKind, arg: Option<Expr>) -> Option<int>
    decreases terms.len(),
{
    if terms.len() == 0 {
        None
    } else {
        match term_index(terms.drop_last(), kind, arg) {
            Some(i) => Some(i),
            None => if terms.last().kind == kind && opt_expr_same(terms.last().arg, arg) {
                Some(terms.len() - 1)
            } else {
                None
            },
        }
    }
}

/// No term matching: no first one.
proof fn lemma_term_index_none(terms: Seq<AggTerm>, kind: AggKind, arg: Option<Expr>)
    requires
        forall|j: int|
            0 <= j < terms.len() ==> !((#[trigger] terms[j]).kind == kind && opt_expr_same(
                terms[j].arg,
                arg,
            )),
    ensures
        term_index(terms, kind, arg) is None,
    decreases terms.len(),
{
    if terms.len() > 0 {
        let d = terms.drop_last();
        assert forall|j: int| 0 <= j < d.len() implies !((#[trigger] d[j]).kind == kind
            && opt_expr_same(d[j].arg, arg)) by {
            assert(d[j] == terms[j]);
        }
        lemma_term_index_none(d, kind, arg);
        assert(terms.last() == terms[terms.len() - 1]);
    }
}

/// A term that matches with none before it is the first one.
proof fn lemma_term_index_first(terms: Seq<AggTerm>, kind: AggKind, arg: Option<Expr>, i: int)
    requires
        0 <= i < terms.len(),
        terms[i].kind == kind && opt_expr_same(terms[i].arg, arg),
        forall|j: int|
            0 <= j < i ==> !((#[trigger] terms[j]).kind == kind && opt_expr_same(terms[j].arg, arg)),
    ensures
        term_index(terms, kind, arg) == Some(i),
    decreases terms.len(),
{
    let d = terms.drop_last();
    if i == terms.len() - 1 {
        assert forall|j: int| 0 <= j < d.len() implies !((#[trigger] d[j]).kind == kind
            && opt_expr_same(d[j].arg, arg)) by {
            assert(d[j] == terms[j]);
        }
        lemma_term_index_none(d, kind, arg);
    } else {
        assert forall|j: int| 0 <= j < i implies !((#[trigger] d[j]).kind == kind && opt_expr_same(
            d[j].arg,
            arg,
        )) by {
            assert(d[j] == terms[j]);
        }
        assert(d[i] == terms[i]);
        lemma_term_index_first(d, kind, arg, i);
    }
}

/// Whether `e` is one of the group keys.
pub open spec fn is_group_key(e: Expr, groups: Seq<Expr>) -> bool {
    exists|g: int| 0 <= g < groups.len() && expr_same(#[trigger] groups[g], e)
}

/// What pulling the aggregate terms out of `e` does, from `terms` and
/// `slots` accumulator slots: the terms after, the slot count after, and
/// whether a variable stood outside every group key and aggregate. A group
/// key is left whole; an aggregate whose kind and argument a term already
/// has shares its slot, any other gets the next slot and a new term.
pub open spec fn collect_state(
    e: Expr,
    groups: Seq<Expr>,
    terms: Seq<AggTerm>,
    slots: nat,
) -> (Seq<AggTerm>, nat, bool)
    decreases e, 0int,
{
    if is_group_key(e, groups) {
        (terms, slots, false)
    } else {
        match e {
            Expr::Agg(a) => match term_index(terms, a.kind, unbox_arg(a.arg)) {
                Some(_) => (terms, slots, false),
                None => (
                    terms.push(AggTerm { slot: slots as usize, kind: a.kind, arg: unbox_arg(a.arg) }),
                    slots + 1,
                    false,
                ),
            },
            Expr::Var(_) => (terms, slots, true),
            Expr::Call(c) => list_state(c.args@, c.args@.len() as int, groups, terms, slots),
            Expr::Array(xs) => list_state(xs@, xs@.len() as int, groups, terms, slots),
            Expr::Jpi(j) => collect_state(*j.inp, groups, terms, slots),
            Expr::Jpk(j) => collect_state(*j.inp, groups, terms, slots),
            Expr::Jpe(j) => {
                let a = collect_state(*j.inp, groups, terms, slots);
                let b = collect_state(*j.exp, groups, a.0, a.1);
                (b.0, b.1, a.2 || b.2)
            },
            Expr::Subscript(sub) => {
                let a = collect_state(*sub.base, groups, terms, slots);
                let b = list_state(sub.args@, sub.args@.len() as int, groups, a.0, a.1);
                (b.0, b.1, a.2 || b.2)
            },
            Expr::Obj(ms) => members_state(ms@, ms@.len() as int, groups, terms, slots),
            _ => (terms, slots, false),
        }
    }
}

/// [`collect_state`] over the first `n` expressions of a list, in order.
pub open spec fn list_state(
    items: Seq<Expr>,
    n: int,
    groups: Seq<Expr>,
    terms: Seq<AggTerm>,
    slots: nat,
) -> (Seq<AggTerm>, nat, bool)
    decreases items, n,
{
    if n <= 0 || n > items.len() {
        (terms, slots, false)
    } else {
        let a = list_state(items, n - 1, groups, terms, slots);
        let b = collect_state(items[n - 1], groups, a.0, a.1);
        (b.0, b.1, a.2 || b.2)
    }
}

/// [`collect_state`] over the first `n` members of an object constructor.
pub open spec fn members_state(
    ms: Seq<Member>,
    n: int,
    groups: Seq<Expr>,
    terms: Seq<AggTerm>,
    slots: nat,
) -> (Seq<AggTerm>, nat, bool)
    decreases ms, n,
{
    if n <= 0 || n > ms.len() {
        (terms, slots, false)
    } else {
        let a = members_state(ms, n - 1, groups, terms, slots);
        let b = match ms[n - 1] {
            Member::Assign(_, x) => collect_state(x, groups, a.0, a.1),
            Member::Spread(x) => collect_state(x, groups, a.0, a.1),
        };
        (b.0, b.1, a.2 || b.2)
    }
}

/// `r` is `e` with its aggregate terms pulled out from `terms` and `slots`
/// (as [`collect_state`] says): a group key whole, an aggregate a reference
/// to its slot (keeping its argument when it shares an earlier term's slot,
/// handing it to the new term otherwise), everything else in its shape.
pub open spec fn collected(
    e: Expr,
    r: Expr,
    groups: Seq<Expr>,
    terms: Seq<AggTerm>,
    slots: nat,
) -> bool
    decreases e,
{
    if is_group_key(e, groups) {
        r == e
    } else {
        match e {
            Expr::Agg(a) => match term_index(terms, a.kind, unbox_arg(a.arg)) {
                Some(i) => r == Expr::Agg(
                    Agg { kind: a.kind, arg: a.arg, slot: Some(terms[i].slot) },
                ),
                None => r == Expr::Agg(Agg { kind: a.kind, arg: None, slot: Some(slots as usize) }),
            },
            Expr::Call(c) => r matches Expr::Call(d) && d.name == c.name && d.args@.len()
                == c.args@.len() && forall|i: int|
                0 <= i < c.args@.len() ==> collected(
                    #[trigger] c.args@[i],
                    d.args@[i],
                    groups,
                    list_state(c.args@, i, groups, terms, slots).0,
                    list_state(c.args@, i, groups, terms, slots).1,
                ),
            Expr::Array(xs) => r matches Expr::Array(ys) && ys@.len() == xs@.len() && forall|i: int|
                0 <= i < xs@.len() ==> collected(
                    #[trigger] xs@[i],
                    ys@[i],
                    groups,
                    list_state(xs@, i, groups, terms, slots).0,
                    list_state(xs@, i, groups, terms, slots).1,
                ),
            Expr::Jpi(j) => r matches Expr::Jpi(k) && k.idx == j.idx && collected(
                *j.inp,
                *k.inp,
                groups,
                terms,
                slots,
            ),
            Expr::Jpk(j) => r matches Expr::Jpk(k) && k.key == j.key && collected(
                *j.inp,
                *k.inp,
                groups,
                terms,
                slots,
            ),
            Expr::Jpe(j) => r matches Expr::Jpe(k) && collected(*j.inp, *k.inp, groups, terms, slots)
                && collected(
                *j.exp,
                *k.exp,
                groups,
                collect_state(*j.inp, groups, terms, slots).0,
                collect_state(*j.inp, groups, terms, slots).1,
            ),
            Expr::Subscript(sub) => r matches Expr::Subscript(t) && collected(
                *sub.base,
                *t.base,
                groups,
                terms,
                slots,
            ) && t.args@.len() == sub.args@.len() && forall|i: int|
                0 <= i < sub.args@.len() ==> collected(
                    #[trigger] sub.args@[i],
                    t.args@[i],
                    groups,
                    list_state(
                        sub.args@,
                        i,
                        groups,
                        collect_state(*sub.base, groups, terms, slots).0,
                        collect_state(*sub.base, groups, terms, slots).1,
                    ).0,
                    list_state(
                        sub.args@,
                        i,
                        groups,
                        collect_state(*sub.base, groups, terms, slots).0,
                        collect_state(*sub.base, groups, terms, slots).1,
                    ).1,
                ),
            Expr::Obj(ms) => r matches Expr::Obj(ns) && ns@.len() == ms@.len() && forall|i: int|
                0 <= i < ms@.len() ==> member_collected(
                    #[trigger] ms@[i],
                    ns@[i],
                    groups,
                    members_state(ms@, i, groups, terms, slots).0,
                    members_state(ms@, i, groups, terms, slots).1,
                ),
            _ => r == e,
        }
    }
}

/// `n` is the member `m` with its value's aggregate terms pulled out.
pub open spec fn member_collected(
    m: Member,
    n: Member,
    groups: Seq<Expr>,
    terms: Seq<AggTerm>,
    slots: nat,
) -> bool
    decreases m,
{
    match m {
        Member::Assign(k, x) => n matches Member::Assign(l, y) && l == k && collected(
            x,
            y,
            groups,
            terms,
            slots,
        ),
        Member::Spread(x) => n matches Member::Spread(y) && collected(x, y, groups, terms, slots),
    }
}

/// [`collect_state`] over a projection.
pub open spec fn cons_state(
    c: Constructor,
    groups: Seq<Expr>,
    terms: Seq<AggTerm>,
    slots: nat,
) -> (Seq<AggTerm>, nat, bool) {
    match c {
        Constructor::Expr(e) => collect_state(e, groups, terms, slots),
        Constructor::List(ms) => members_state(ms@, ms@.len() as int, groups, terms, slots),
        _ => (terms, slots, false),
    }
}

/// What pulling the aggregate terms out of a projection and then a HAVING
/// predicate does, from no terms and `slots` slots.
pub open spec fn terms_after(
    c: Constructor,
    having: Option<Expr>,
    groups: Seq<Expr>,
    slots: nat,
) -> (Seq<AggTerm>, nat, bool) {
    let a = cons_state(c, groups, Seq::empty(), slots);
    match having {
        Some(h) => {
            let b = collect_state(h, groups, a.0, a.1);
            (b.0, b.1, a.2 || b.2)
        },
        None => a,
    }
}

/// `d` is the projection `c` with its aggregate terms pulled out.
pub open spec fn cons_collected(
    c: Constructor,
    d: Constructor,
    groups: Seq<Expr>,
    terms: Seq<AggTerm>,
    slots: nat,
) -> bool {
    match c {
        Constructor::Expr(e) => d matches Constructor::Expr(x) && collected(e, x, groups, terms, slots),
        Constructor::List(ms) => d matches Constructor::List(ns) && ns@.len() == ms@.len()
            && forall|i: int|
            0 <= i < ms@.len() ==> member_collected(
                #[trigger] ms@[i],
                ns@[i],
                groups,
                members_state(ms@, i, groups, terms, slots).0,
                members_state(ms@, i, groups, terms, slots).1,
            ),
        _ => d == c,
    }
}

/// Pulling terms out never gives back slots.
proof fn lemma_collect_mono(e: Expr, groups: Seq<Expr>, terms: Seq<AggTerm>, slots: nat)
    ensures
        collect_state(e, groups, terms, slots).1 >= slots,
    decreases e, 0int,
{
    if !is_group_key(e, groups) {
        match e {
            Expr::Call(c) => lemma_list_mono(c.args@, c.args@.len() as int, groups, terms, slots),
            Expr::Array(xs) => lemma_list_mono(xs@, xs@.len() as int, groups, terms, slots),
            Expr::Jpi(j) => lemma_collect_mono(*j.inp, groups, terms, slots),
            Expr::Jpk(j) => lemma_collect_mono(*j.inp, groups, terms, slots),
            Expr::Jpe(j) => {
                lemma_collect_mono(*j.inp, groups, terms, slots);
                let a = collect_state(*j.inp, groups, terms, slots);
                lemma_collect_mono(*j.exp, groups, a.0, a.1);
            },
            Expr::Subscript(sub) => {
                lemma_collect_mono(*sub.base, groups, terms, slots);
                let a = collect_state(*sub.base, groups, terms, slots);
                lemma_list_mono(sub.args@, sub.args@.len() as int, groups, a.0, a.1);
            },
            Expr::Obj(ms) => lemma_members_mono(ms@, ms@.len() as int, groups, terms, slots),
            _ => {},
        }
    }
}

/// [`lemma_collect_mono`] over a list.
proof fn lemma_list_mono(items: Seq<Expr>, n: int, groups: Seq<Expr>, terms: Seq<AggTerm>, slots: nat)
    ensures
        list_state(items, n, groups, terms, slots).1 >= slots,
    decreases items, n,
{
    if !(n <= 0 || n > items.len()) {
        lemma_list_mono(items, n - 1, groups, terms, slots);
        let a = list_state(items, n - 1, groups, terms, slots);
        lemma_collect_mono(items[n - 1], groups, a.0, a.1);
    }
}

/// [`lemma_collect_mono`] over members.
proof fn lemma_members_mono(ms: Seq<Member>, n: int, groups: Seq<Expr>, terms: Seq<AggTerm>, slots: nat)
    ensures
        members_state(ms, n, groups, terms, slots).1 >= slots,
    decreases ms, n,
{
    if !(n <= 0 || n > ms.len()) {
        lemma_members_mono(ms, n - 1, groups, terms, slots);
        let a = members_state(ms, n - 1, groups, terms, slots);
        match ms[n - 1] {
            Member::Assign(_, x) => lemma_collect_mono(x, groups, a.0, a.1),
            Member::Spread(x) => lemma_collect_mono(x, groups, a.0, a.1),
        }
    }
}

/// A longer prefix of a list needs at least as many slots.
proof fn lemma_list_prefix_mono(
    items: Seq<Expr>,
    n: int,
    m: int,
    groups: Seq<Expr>,
    terms: Seq<AggTerm>,
    slots: nat,
)
    requires
        0 <= n <= m <= items.len(),
    ensures
        list_state(items, m, groups, terms, slots).1 >= list_state(items, n, groups, terms, slots).1,
    decreases m - n,
{
    if n < m {
        lemma_list_prefix_mono(items, n, m - 1, groups, terms, slots);
        let a = list_state(items, m - 1, groups, terms, slots);
        lemma_collect_mono(items[m - 1], groups, a.0, a.1);
    }
}

/// A longer prefix of the members needs at least as many slots.
proof fn lemma_members_prefix_mono(
    ms: Seq<Member>,
    n: int,
    m: int,
    groups: Seq<Expr>,
    terms: Seq<AggTerm>,
    slots: nat,
)
    requires
        0 <= n <= m <= ms.len(),
    ensures
        members_state(ms, m, groups, terms, slots).1 >= members_state(ms, n, groups, terms, slots).1,
    decreases m - n,
{
    if n < m {
        lemma_members_prefix_mono(ms, n, m - 1, groups, terms, slots);
        let a = members_state(ms, m - 1, groups, terms, slots);
        match ms[m - 1] {
            Member::Assign(_, x) => lemma_collect_mono(x, groups, a.0, a.1),
            Member::Spread(x) => lemma_collect_mono(x, groups, a.0, a.1),
        }
    }
}

impl Compiler {
    /// The index of a term with this kind and argument, if one was collected.
    fn find_term(terms: &Vec<AggTerm>, kind: AggKind, arg: &Option<Box<Expr>>) -> (r: Option<
        usize,
    >)
        ensures
            r matches Some(i) ==> i < terms@.len() && terms@[i as int].kind == kind
                && opt_expr_same(terms@[i as int].arg, unbox_arg(*arg)),
            r is None ==> forall|i: int|
                0 <= i < terms@.len() ==> !((#[trigger] terms@[i]).kind == kind && opt_expr_same(
                    terms@[i].arg,
                    unbox_arg(*arg),
                )),
            match r {
                Some(i) => term_index(terms@, kind, unbox_arg(*arg)) == Some(i as int),
                None => term_index(terms@, kind, unbox_arg(*arg)) is None,
            },
    {
        let mut i: usize = 0;
        while i < terms.len()
            invariant
                i <= terms@.len(),
                forall|j: int|
                    0 <= j < i ==> !((#[trigger] terms@[j]).kind == kind && opt_expr_same(
                        terms@[j].arg,
                        unbox_arg(*arg),
                    )),
            decreases terms@.len() - i,
        {
            if terms[i].kind == kind {
                let same = match (&terms[i].arg, arg) {
                    (None, None) => true,
                    (Some(p), Some(q)) => expr_eq(p, q),
                    _ => false,
                };
                if same {
                    proof {
                        lemma_term_index_first(terms@, kind, unbox_arg(*arg), i as int);
                    }
                    return Some(i);
                }
            }
            i = i + 1;
        }
        proof {
            lemma_term_index_none(terms@, kind, unbox_arg(*arg));
        }
        None
    }

    /// Pulls the aggregate terms out of `e`: each aggregate gets an
    /// accumulator slot (an identical one, same kind and argument, shares
    /// it) and a new term hands its argument over to `terms`. A subexpression
    /// equal to a group key is left as it is; a variable anywhere else sets
    /// `bare`.
    #[verifier::loop_isolation(false)]
    fn agg_collect(
        &mut self,
        e: Expr,
        groups: &Vec<Expr>,
        terms: &mut Vec<AggTerm>,
        bare: &mut bool,
    ) -> (r: Result<Expr, Error>)
        requires
            old(self).wf(),
            proj_ok(e),
            groups_ok(groups@),
            terms_ok(old(terms)@, old(self).agg_slots as nat),
        ensures
            final(self).wf(),
            final(self).grew_from(old(self)),
            final(self).code@ == old(self).code@,
            final(self).cursor_slots == old(self).cursor_slots,
            final(self).counter_slots == old(self).counter_slots,
            final(self).txm == old(self).txm,
            final(self).mutates_catalog == old(self).mutates_catalog,
            terms_ok(final(terms)@, final(self).agg_slots as nat),
            *old(bare) ==> *final(bare),
            !*final(bare) ==> (r matches Ok(x) ==> expr_ready(x, final(self).agg_slots as nat)),
            r is Ok <==> collect_state(e, groups@, old(terms)@, old(self).agg_slots as nat).1
                <= usize::MAX,
            r matches Ok(x) ==> collected(e, x, groups@, old(terms)@, old(self).agg_slots as nat),
            r is Ok ==> final(terms)@ == collect_state(
                e,
                groups@,
                old(terms)@,
                old(self).agg_slots as nat,
            ).0 && final(self).agg_slots == collect_state(
                e,
                groups@,
                old(terms)@,
                old(self).agg_slots as nat,
            ).1 && *final(bare) == (*old(bare) || collect_state(
                e,
                groups@,
                old(terms)@,
                old(self).agg_slots as nat,
            ).2),
        decreases e,
    {
        let ghost t0 = terms@;
        let ghost n0 = self.agg_slots as nat;
        let mut g: usize = 0;
        while g < groups.len()
            invariant
                g <= groups@.len(),
                forall|j: int| 0 <= j < g ==> !expr_same(#[trigger] groups@[j], e),
            decreases groups@.len() - g,
        {
            if expr_eq(&groups[g as usize], &e) {
                assert(is_group_key(e, groups@));
                proof {
                    lemma_ready_same(groups@[g as int], e, 0);
                    lemma_ready_mono(e, 0, self.agg_slots as nat);
                }
                return Ok(e);
            }
            g = g + 1;
        }
        assert(!is_group_key(e, groups@));
        match e {
            Expr::Agg(agg) => {
                let Agg { kind, arg, slot: _ } = agg;
                match Self::find_term(terms, kind, &arg) {
                    Some(i) => {
                        let s = terms[i].slot;
                        Ok(Expr::Agg(Agg { kind, arg, slot: Some(s) }))
                    },
                    None => {
                        let s = match self.alloc_agg() {
                            Ok(s) => s,
                            Err(err) => {
                                return Err(err);
                            },
                        };
                        let taken = match arg {
                            Some(x) => Some(*x),
                            None => None,
                        };
                        terms.push(AggTerm { slot: s, kind, arg: taken });
                        Ok(Expr::Agg(Agg { kind, arg: None, slot: Some(s) }))
                    },
                }
            },
            Expr::Var(v) => {
                *bare = true;
                Ok(Expr::Var(v))
            },
            Expr::Lit(v) => Ok(Expr::Lit(v)),
            Expr::Get(get) => Ok(Expr::Get(get)),
            Expr::Call(c) => {
                let Call { name, args } = c;
                match self.agg_collect_list(args, groups, terms, bare) {
                    Ok(args) => Ok(Expr::Call(Call { name, args })),
                    Err(err) => Err(err),
                }
            },
            Expr::Array(items) => {
                match self.agg_collect_list(items, groups, terms, bare) {
                    Ok(items) => Ok(Expr::Array(items)),
                    Err(err) => Err(err),
                }
            },
            Expr::Jpi(j) => {
                let Jpi { inp, idx } = j;
                match self.agg_collect(*inp, groups, terms, bare) {
                    Ok(x) => Ok(Expr::Jpi(Jpi { inp: Box::new(x), idx })),
                    Err(err) => Err(err),
                }
            },
            Expr::Jpk(j) => {
                let Jpk { inp, key } = j;
                match self.agg_collect(*inp, groups, terms, bare) {
                    Ok(x) => Ok(Expr::Jpk(Jpk { inp: Box::new(x), key })),
                    Err(err) => Err(err),
                }
            },
            Expr::Jpe(j) => {
                let Jpe { inp, exp } = j;
                let ghost ia = *inp;
                let ghost eb = *exp;
                let x = match self.agg_collect(*inp, groups, terms, bare) {
                    Ok(x) => x,
                    Err(err) => {
                        proof {
                            let a = collect_state(ia, groups@, t0, n0);
                            lemma_collect_mono(eb, groups@, a.0, a.1);
                        }
                        return Err(err);
                    },
                };
                let ghost mid = self.agg_slots as nat;
                let y = match self.agg_collect(*exp, groups, terms, bare) {
                    Ok(y) => y,
                    Err(err) => {
                        return Err(err);
                    },
                };
                proof {
                    if !*bare {
                        lemma_ready_mono(x, mid, self.agg_slots as nat);
                    }
                }
                Ok(Expr::Jpe(Jpe { inp: Box::new(x), exp: Box::new(y) }))
            },
            Expr::Subscript(sub) => {
                let Subscript { base, args } = sub;
                let ghost ba = *base;
                let ghost aa = args@;
                let b = match self.agg_collect(*base, groups, terms, bare) {
                    Ok(b) => b,
                    Err(err) => {
                        proof {
                            let a = collect_state(ba, groups@, t0, n0);
                            lemma_list_mono(aa, aa.len() as int, groups@, a.0, a.1);
                        }
                        return Err(err);
                    },
                };
                match self.agg_collect_list(args, groups, terms, bare) {
                    Ok(args) => Ok(Expr::Subscript(Subscript { base: Box::new(b), args })),
                    Err(err) => Err(err),
                }
            },
            Expr::Obj(ms) => {
                match self.agg_collect_members(ms, groups, terms, bare) {
                    Ok(ms) => Ok(Expr::Obj(ms)),
                    Err(err) => Err(err),
                }
            },
        }
    }

    /// [`Self::agg_collect`] over each expression of a list, in order.
    #[verifier::loop_isolation(false)]
    fn agg_collect_list(
        &mut self,
        items: Vec<Expr>,
        groups: &Vec<Expr>,
        terms: &mut Vec<AggTerm>,
        bare: &mut bool,
    ) -> (r: Result<Vec<Expr>, Error>)
        requires
            old(self).wf(),
            forall|i: int| 0 <= i < items@.len() ==> proj_ok(#[trigger] items@[i]),
            groups_ok(groups@),
            terms_ok(old(terms)@, old(self).agg_slots as nat),
        ensures
            final(self).wf(),
            final(self).grew_from(old(self)),
            final(self).code@ == old(self).code@,
            final(self).cursor_slots == old(self).cursor_slots,
            final(self).counter_slots == old(self).counter_slots,
            final(self).txm == old(self).txm,
            final(self).mutates_catalog == old(self).mutates_catalog,
            terms_ok(final(terms)@, final(self).agg_slots as nat),
            *old(bare) ==> *final(bare),
            !*final(bare) ==> (r matches Ok(xs) ==> forall|i: int|
                0 <= i < xs@.len() ==> expr_ready(#[trigger] xs@[i], final(self).agg_slots as nat)),
            r is Ok <==> list_state(
                items@,
                items@.len() as int,
                groups@,
                old(terms)@,
                old(self).agg_slots as nat,
            ).1 <= usize::MAX,
            r is Ok ==> {
                let st = list_state(
                    items@,
                    items@.len() as int,
                    groups@,
                    old(terms)@,
                    old(self).agg_slots as nat,
                );
                &&& final(terms)@ == st.0
                &&& final(self).agg_slots == st.1
                &&& *final(bare) == (*old(bare) || st.2)
            },
            r matches Ok(xs) ==> xs@.len() == items@.len() && forall|i: int|
                0 <= i < items@.len() ==> collected(
                    #[trigger] items@[i],
                    xs@[i],
                    groups@,
                    list_state(items@, i, groups@, old(terms)@, old(self).agg_slots as nat).0,
                    list_state(items@, i, groups@, old(terms)@, old(self).agg_slots as nat).1,
                ),
        decreases items,
    {
        let ghost orig = items;
        let ghost all = items@;
        let ghost t0 = terms@;
        let ghost n0 = self.agg_slots as nat;
        let mut rest = items;
        let mut out: Vec<Expr> = Vec::new();
        let ghost mut k: int = 0;
        while rest.len() > 0
            invariant
                all == orig@,
                0 <= k <= all.len(),
                rest@ == all.skip(k),
                self.wf(),
                self.grew_from(old(self)),
                self.code@ == old(self).code@,
                self.cursor_slots == old(self).cursor_slots,
                self.counter_slots == old(self).counter_slots,
                self.txm == old(self).txm,
                self.mutates_catalog == old(self).mutates_catalog,
                terms_ok(terms@, self.agg_slots as nat),
                *old(bare) ==> *bare,
                !*bare ==> forall|i: int|
                    0 <= i < out@.len() ==> expr_ready(#[trigger] out@[i], self.agg_slots as nat),
                out@.len() == k,
                terms@ == list_state(all, k, groups@, t0, n0).0,
                self.agg_slots == list_state(all, k, groups@, t0, n0).1,
                *bare == (*old(bare) || list_state(all, k, groups@, t0, n0).2),
                forall|i: int|
                    0 <= i < k ==> collected(
                        #[trigger] all[i],
                        out@[i],
                        groups@,
                        list_state(all, i, groups@, t0, n0).0,
                        list_state(all, i, groups@, t0, n0).1,
                    ),
            decreases rest.len(),
        {
            let item = rest.remove(0);
            proof {
                assert(item == all[k]);
                assert(decreases_to!(orig => orig@));
                assert(decreases_to!(orig@ => orig@[k]));
            }
            let ghost kk = k;
            proof {
                k = k + 1;
            }
            let ghost before = self.agg_slots as nat;
            let ghost was_bare = *bare;
            let x = match self.agg_collect(item, groups, terms, bare) {
                Ok(x) => x,
                Err(err) => {
                    proof {
                        lemma_list_prefix_mono(all, kk + 1, all.len() as int, groups@, t0, n0);
                    }
                    return Err(err);
                },
            };
            proof {
                if !*bare {
                    assert forall|i: int| 0 <= i < out@.len() implies expr_ready(
                        #[trigger] out@[i],
                        self.agg_slots as nat,
                    ) by {
                        lemma_ready_mono(out@[i], before, self.agg_slots as nat);
                    }
                }
            }
            out.push(x);
        }
        Ok(out)
    }

    /// [`Self::agg_collect`] over each member of an object constructor.
    #[verifier::loop_isolation(false)]
    fn agg_collect_members(
        &mut self,
        ms: Vec<Member>,
        groups: &Vec<Expr>,
        terms: &mut Vec<AggTerm>,
        bare: &mut bool,
    ) -> (r: Result<Vec<Member>, Error>)
        requires
            old(self).wf(),
            forall|i: int| 0 <= i < ms@.len() ==> proj_ok(#[trigger] member_expr(ms@[i])),
            groups_ok(groups@),
            terms_ok(old(terms)@, old(self).agg_slots as nat),
        ensures
            final(self).wf(),
            final(self).grew_from(old(self)),
            final(self).code@ == old(self).code@,
            final(self).cursor_slots == old(self).cursor_slots,
            final(self).counter_slots == old(self).counter_slots,
            final(self).txm == old(self).txm,
            final(self).mutates_catalog == old(self).mutates_catalog,
            terms_ok(final(terms)@, final(self).agg_slots as nat),
            *old(bare) ==> *final(bare),
            !*final(bare) ==> (r matches Ok(xs) ==> forall|i: int|
                0 <= i < xs@.len() ==> expr_ready(
                    #[trigger] member_expr(xs@[i]),
                    final(self).agg_slots as nat,
                )),
            r is Ok <==> members_state(
                ms@,
                ms@.len() as int,
                groups@,
                old(terms)@,
                old(self).agg_slots as nat,
            ).1 <= usize::MAX,
            r is Ok ==> {
                let st = members_state(
                    ms@,
                    ms@.len() as int,
                    groups@,
                    old(terms)@,
                    old(self).agg_slots as nat,
                );
                &&& final(terms)@ == st.0
                &&& final(self).agg_slots == st.1
                &&& *final(bare) == (*old(bare) || st.2)
            },
            r matches Ok(xs) ==> xs@.len() == ms@.len() && forall|i: int|
                0 <= i < ms@.len() ==> member_collected(
                    #[trigger] ms@[i],
                    xs@[i],
                    groups@,
                    members_state(ms@, i, groups@, old(terms)@, old(self).agg_slots as nat).0,
                    members_state(ms@, i, groups@, old(terms)@, old(self).agg_slots as nat).1,
                ),
        decreases ms,
    {
        let ghost orig = ms;
        let ghost all = ms@;
        let ghost t0 = terms@;
        let ghost n0 = self.agg_slots as nat;
        let mut rest = ms;
        let mut out: Vec<Member> = Vec::new();
        let ghost mut k: int = 0;
        while rest.len() > 0
            invariant
                all == orig@,
                0 <= k <= all.len(),
                rest@ == all.skip(k),
                self.wf(),
                self.grew_from(old(self)),
                self.code@ == old(self).code@,
                self.cursor_slots == old(self).cursor_slots,
                self.counter_slots == old(self).counter_slots,
                self.txm == old(self).txm,
                self.mutates_catalog == old(self).mutates_catalog,
                terms_ok(terms@, self.agg_slots as nat),
                *old(bare) ==> *bare,
                !*bare ==> forall|i: int|
                    0 <= i < out@.len() ==> expr_ready(
                        #[trigger] member_expr(out@[i]),
                        self.agg_slots as nat,
                    ),
                out@.len() == k,
                terms@ == members_state(all, k, groups@, t0, n0).0,
                self.agg_slots == members_state(all, k, groups@, t0, n0).1,
                *bare == (*old(bare) || members_state(all, k, groups@, t0, n0).2),
                forall|i: int|
                    0 <= i < k ==> member_collected(
                        #[trigger] all[i],
                        out@[i],
                        groups@,
                        members_state(all, i, groups@, t0, n0).0,
                        members_state(all, i, groups@, t0, n0).1,
                    ),
            decreases rest.len(),
        {
            let m = rest.remove(0);
            proof {
                assert(m == all[k]);
                assert(proj_ok(member_expr(all[k])));
                assert(decreases_to!(orig => orig@));
                assert(decreases_to!(orig@ => orig@[k]));
            }
            let ghost kk = k;
            proof {
                k = k + 1;
                lemma_members_prefix_mono(all, kk + 1, all.len() as int, groups@, t0, n0);
            }
            let ghost before = self.agg_slots as nat;
            let nm = match m {
                Member::Assign(name, x) => {
                    proof {
                        assert(decreases_to!(m => x));
                    }
                    match self.agg_collect(x, groups, terms, bare) {
                        Ok(y) => Member::Assign(name, y),
                        Err(err) => {
                            return Err(err);
                        },
                    }
                },
                Member::Spread(x) => {
                    proof {
                        assert(decreases_to!(m => x));
                    }
                    match self.agg_collect(x, groups, terms, bare) {
                        Ok(y) => Member::Spread(y),
                        Err(err) => {
                            return Err(err);
                        },
                    }
                },
            };
            proof {
                if !*bare {
                    assert forall|i: int| 0 <= i < out@.len() implies expr_ready(
                        #[trigger] member_expr(out@[i]),
                        self.agg_slots as nat,
                    ) by {
                        lemma_ready_mono(member_expr(out@[i]), before, self.agg_slots as nat);
                    }
                }
            }
            out.push(nm);
        }
        Ok(out)
    }
}

/// An optional boxed argument as an optional expression.
pub open spec fn unbox_arg(a: Option<Box<Expr>>) -> Option<Expr> {
    match a {
        Some(x) => Some(*x),
        None => None,
    }
}

} // verus!

verus! {

/// Whether an expression holds an aggregate term anywhere.
pub open spec fn has_agg(e: Expr) -> bool
    decreases e,
{
    match e {
        Expr::Call(c) => exists|i: int| 0 <= i < c.args@.len() && has_agg(#[trigger] c.args@[i]),
        Expr::Jpi(j) => has_agg(*j.inp),
        Expr::Jpk(j) => has_agg(*j.inp),
        Expr::Jpe(j) => has_agg(*j.inp) || has_agg(*j.exp),
        Expr::Lit(_) => false,
        Expr::Obj(ms) => exists|i: int| 0 <= i < ms@.len() && has_agg(#[trigger] member_expr(ms@[i])),
        Expr::Array(items) => exists|i: int| 0 <= i < items@.len() && has_agg(#[trigger] items@[i]),
        Expr::Var(_) => false,
        Expr::Subscript(s) => has_agg(*s.base) || exists|i: int|
            0 <= i < s.args@.len() && has_agg(#[trigger] s.args@[i]),
        Expr::Get(_) => false,
        Expr::Agg(_) => true,
    }
}

/// Whether a projection holds an aggregate term.
pub open spec fn constructor_has_agg(c: Constructor) -> bool {
    match c {
        Constructor::Identity => false,
        Constructor::Star => false,
        Constructor::Expr(e) => has_agg(e),
        Constructor::List(ms) => exists|i: int|
            0 <= i < ms@.len() && has_agg(#[trigger] member_expr(ms@[i])),
        Constructor::Pivot(p) => has_agg(*p.value) || has_agg(*p.name),
    }
}

/// Whether an expression holds an aggregate term anywhere.
#[verifier::loop_isolation(false)]
pub fn expr_has_agg(e: &Expr) -> (r: bool)
    ensures
        r == has_agg(*e),
    decreases *e,
{
    match e {
        Expr::Call(c) => exprs_have_agg(&c.args),
        Expr::Jpi(j) => expr_has_agg(&j.inp),
        Expr::Jpk(j) => expr_has_agg(&j.inp),
        Expr::Jpe(j) => expr_has_agg(&j.inp) || expr_has_agg(&j.exp),
        Expr::Lit(_) => false,
        Expr::Obj(ms) => members_have_agg(ms),
        Expr::Array(items) => exprs_have_agg(items),
        Expr::Var(_) => false,
        Expr::Subscript(s) => expr_has_agg(&s.base) || exprs_have_agg(&s.args),
        Expr::Get(_) => false,
        Expr::Agg(_) => true,
    }
}

/// Whether any expression of a list holds an aggregate term.
pub fn exprs_have_agg(items: &Vec<Expr>) -> (r: bool)
    ensures
        r == exists|i: int| 0 <= i < items@.len() && has_agg(#[trigger] items@[i]),
    decreases items,
{
    let mut i: usize = 0;
    while i < items.len()
        invariant
            i <= items@.len(),
            forall|j: int| 0 <= j < i ==> !has_agg(#[trigger] items@[j]),
        decreases items@.len() - i,
    {
        proof {
            assert(decreases_to!(items => items@));
            assert(decreases_to!(items@ => items@[i as int]));
        }
        if expr_has_agg(&items[i]) {
            return true;
        }
        i = i + 1;
    }
    false
}

/// Whether any member of an object constructor holds an aggregate term.
pub fn members_have_agg(ms: &Vec<Member>) -> (r: bool)
    ensures
        r == exists|i: int| 0 <= i < ms@.len() && has_agg(#[trigger] member_expr(ms@[i])),
    decreases ms,
{
    let mut i: usize = 0;
    while i < ms.len()
        invariant
            i <= ms@.len(),
            forall|j: int| 0 <= j < i ==> !has_agg(#[trigger] member_expr(ms@[j])),
        decreases ms@.len() - i,
    {
        proof {
            assert(decreases_to!(ms => ms@));
            assert(decreases_to!(ms@ => ms@[i as int]));
        }
        let found = match &ms[i] {
            Member::Assign(_, x) => {
                proof {
                    assert(decreases_to!(ms@[i as int] => *x));
                }
                expr_has_agg(x)
            },
            Member::Spread(x) => {
                proof {
                    assert(decreases_to!(ms@[i as int] => *x));
                }
                expr_has_agg(x)
            },
        };
        assert(found == has_agg(member_expr(ms@[i as int])));
        if found {
            return true;
        }
        i = i + 1;
    }
    false
}

/// Whether a projection holds any aggregate term.
pub fn has_aggregate(constructor: &Constructor) -> (r: bool)
    ensures
        r == constructor_has_agg(*constructor),
{
    match constructor {
        Constructor::Identity => false,
        Constructor::Star => false,
        Constructor::Expr(e) => expr_has_agg(e),
        Constructor::List(ms) => members_have_agg(ms),
        Constructor::Pivot(p) => expr_has_agg(&p.value) || expr_has_agg(&p.name),
    }
}

/// The strategy a SELECT compiles by.
#[derive(Debug, Clone, Copy, PartialEq, Eq, Structural)]
pub enum Plan {
    /// Sort the stream by the group key, then stream with accumulator resets.
    Group,
    /// Fold the whole stream into one object and yield it once.
    Pivot,
    /// Fold the whole stream into accumulators and yield one finalized row.
    Aggregate,
    /// Materialize and sort the stream, then project and yield.
    Order,
    /// Stream each row: limit, project, yield.
    Stream,
}

/// The plan of a SELECT: GROUP BY first, then PIVOT, then aggregates (or a
/// HAVING), then ORDER BY, else streaming.
pub open spec fn plan_spec(select: Select) -> Plan {
    if select.group is Some {
        Plan::Group
    } else if select.select is Pivot {
        Plan::Pivot
    } else if constructor_has_agg(select.select) || select.having is Some {
        Plan::Aggregate
    } else if select.order is Some {
        Plan::Order
    } else {
        Plan::Stream
    }
}

/// Classifies a bound SELECT into its compilation strategy.
pub fn plan(select: &Select) -> (r: Plan)
    ensures
        r == plan_spec(*select),
{
    if select.group.is_some() {
        Plan::Group
    } else if matches!(select.select, Constructor::Pivot(_)) {
        Plan::Pivot
    } else if has_aggregate(&select.select) || select.having.is_some() {
        Plan::Aggregate
    } else if select.order.is_some() {
        Plan::Order
    } else {
        Plan::Stream
    }
}

} // verus!

verus! {

/// A from-item the binder has resolved: every source has a cursor, a table
/// its oid, an unpivot its value (and attribute) cursors, and every source
/// expression is plain.
pub open spec fn from_ready(f: crate::ir::From) -> bool {
    &&& f.csr is Some
    &&& match f.src {
        Source::Table(_) => f.oid is Some,
        Source::Value(e) => expr_ready(*e, 0),
        Source::Unpivot(u) => expr_ready(*u.expr, 0) && u.val_csr is Some && (u.att is Some
            ==> u.att_csr is Some),
    }
}

/// The `(alias, cursor)` bindings one from-item introduces: an unpivot binds
/// its value (and attribute name) cursors, any other source its own cursor.
pub open spec fn item_bindings(f: crate::ir::From) -> Seq<(Seq<char>, usize)> {
    match f.src {
        Source::Unpivot(u) => seq![(f.var@, u.val_csr.unwrap() as usize)] + match u.att {
            Some(a) => seq![(a@, u.att_csr.unwrap() as usize)],
            None => Seq::empty(),
        },
        _ => seq![(f.var@, f.csr.unwrap() as usize)],
    }
}

/// The bindings of a from clause, in binding order.
pub open spec fn from_bindings(from: Seq<crate::ir::From>) -> Seq<(Seq<char>, usize)>
    decreases from.len(),
{
    if from.len() == 0 {
        Seq::empty()
    } else {
        from_bindings(from.drop_last()) + item_bindings(from.last())
    }
}

/// The `(pair, value, attribute)` cursor triple of an unpivot item.
pub open spec fn item_seeds(f: crate::ir::From) -> Seq<(usize, usize, Option<usize>)> {
    match f.src {
        Source::Unpivot(u) => seq![
            (
                f.csr.unwrap() as usize,
                u.val_csr.unwrap() as usize,
                match u.att {
                    Some(_) => Some(u.att_csr.unwrap() as usize),
                    None => None,
                },
            ),
        ],
        _ => Seq::empty(),
    }
}

/// The unpivot reseed triples of a from clause, in order.
pub open spec fn from_seeds(from: Seq<crate::ir::From>) -> Seq<(usize, usize, Option<usize>)>
    decreases from.len(),
{
    if from.len() == 0 {
        Seq::empty()
    } else {
        from_seeds(from.drop_last()) + item_seeds(from.last())
    }
}

/// Bindings with their names taken as text.
pub open spec fn bindings_view(b: Seq<(String, usize)>) -> Seq<(Seq<char>, usize)> {
    b.map_values(|p: (String, usize)| (p.0@, p.1))
}

/// The per-source analysis of a from clause: the cursor each source
/// advances, the projection bindings, and the unpivot reseed triples.
pub struct FromPlan {
    pub loop_csr: Vec<usize>,
    pub bindings: Vec<(String, usize)>,
    pub seeds: Vec<(usize, usize, Option<usize>)>,
}

/// Analyzes a from clause in one pass.
pub fn analyze_from(from: &Vec<crate::ir::From>) -> (fp: FromPlan)
    requires
        forall|i: int| 0 <= i < from@.len() ==> from_ready(#[trigger] from@[i]),
    ensures
        fp.loop_csr@.len() == from@.len(),
        forall|i: int|
            0 <= i < from@.len() ==> fp.loop_csr@[i] == (#[trigger] from@[i]).csr.unwrap() as usize,
        bindings_view(fp.bindings@) == from_bindings(from@),
        fp.seeds@ == from_seeds(from@),
{
    let mut loop_csr: Vec<usize> = Vec::new();
    let mut bindings: Vec<(String, usize)> = Vec::new();
    let mut seeds: Vec<(usize, usize, Option<usize>)> = Vec::new();
    let mut i: usize = 0;
    while i < from.len()
        invariant
            i <= from@.len(),
            forall|j: int| 0 <= j < from@.len() ==> from_ready(#[trigger] from@[j]),
            loop_csr@.len() == i,
            forall|j: int|
                0 <= j < i ==> loop_csr@[j] == (#[trigger] from@[j]).csr.unwrap() as usize,
            bindings_view(bindings@) == from_bindings(from@.take(i as int)),
            seeds@ == from_seeds(from@.take(i as int)),
        decreases from@.len() - i,
    {
        let f = &from[i];
        assert(from@.take(i + 1).drop_last() =~= from@.take(i as int));
        assert(from@.take(i + 1).last() == from@[i as int]);
        let csr = match f.csr {
            Some(c) => c as usize,
            None => 0,
        };
        loop_csr.push(csr);
        let ghost b0 = bindings@;
        match &f.src {
            Source::Unpivot(u) => {
                let val = match u.val_csr {
                    Some(v) => v as usize,
                    None => 0,
                };
                bindings.push((f.var.clone(), val));
                let att = match &u.att {
                    Some(a) => {
                        let ac = match u.att_csr {
                            Some(c) => c as usize,
                            None => 0,
                        };
                        bindings.push((a.clone(), ac));
                        Some(ac)
                    },
                    None => None,
                };
                seeds.push((csr, val, att));
                assert(bindings_view(bindings@) =~= bindings_view(b0) + item_bindings(
                    from@[i as int],
                ));
            },
            _ => {
                bindings.push((f.var.clone(), csr));
                assert(bindings_view(bindings@) =~= bindings_view(b0) + item_bindings(
                    from@[i as int],
                ));
            },
        }
        i = i + 1;
    }
    assert(from@.take(from@.len() as int) =~= from@);
    FromPlan { loop_csr, bindings, seeds }
}

} // verus!

verus! {

/// A whole-loop record: the cursor each source advances (outer to inner),
/// where the enclosing `Next` re-enters each source, each source's
/// exhaust-edge patch site, the first body instruction, and the WHERE guard's
/// patch site.
pub struct LoopFrame {
    pub loop_csr: Vec<usize>,
    pub entry: Vec<usize>,
    pub begin: Vec<usize>,
    pub body: usize,
    pub where_fail: Option<usize>,
}

/// The patch sites a loop leaves to its caller: the outermost exhaust edge
/// and the innermost `Next`.
pub struct LoopExits {
    pub begin0: usize,
    pub inner: usize,
}

/// A frame with one entry per source, every address at most `len`.
pub open spec fn frame_ok(f: LoopFrame, len: nat) -> bool {
    &&& f.loop_csr@.len() >= 1
    &&& f.entry@.len() == f.loop_csr@.len()
    &&& f.begin@.len() == f.loop_csr@.len()
    &&& forall|i: int| 0 <= i < f.entry@.len() ==> #[trigger] f.entry@[i] <= len
    &&& forall|i: int| 0 <= i < f.begin@.len() ==> 1 <= #[trigger] f.begin@[i] <= len
    &&& f.body <= len
    &&& (f.where_fail matches Some(p) ==> 1 <= p <= len)
}

/// Every expression that compiles emits at least one instruction.
proof fn lemma_expr_code_nonempty(e: Expr)
    requires
        expr_code(e) is Some,
    ensures
        expr_code(e)->0.len() >= 1,
{
}

/// A from clause that starts with a table opens at least one table.
proof fn lemma_open_code_first(from: Seq<crate::ir::From>)
    requires
        from.len() >= 1,
        from[0].src is Table,
    ensures
        open_code(from).len() >= 1,
    decreases from.len(),
{
    if from.len() > 1 {
        lemma_open_code_first(from.drop_last());
    }
}

/// The begin block of a source over cursor `csr`: a table's `Scan`; a value
/// or unpivot source's expression (its entries, for an unpivot) and `Iter`.
pub open spec fn source_begin_code(csr: usize, src: Source) -> Option<Seq<CodeItem>> {
    match src {
        Source::Table(_) => Some(
            seq![CodeItem::Op(Vop::Scan { csr, jmp: 0, prefix: ScanPrefix::Whole })],
        ),
        Source::Value(e) => match expr_code(*e) {
            Some(c) => Some(c.push(CodeItem::Op(Vop::Iter { csr, jmp: 0 }))),
            None => None,
        },
        Source::Unpivot(u) => match expr_code(*u.expr) {
            Some(c) => Some(
                c + seq![CodeItem::Op(Vop::Entries), CodeItem::Op(Vop::Iter { csr, jmp: 0 })],
            ),
            None => None,
        },
    }
}

/// The `Next` of source `i`: advance its cursor and re-enter the next inner
/// source's begin block (the body, for the innermost).
pub open spec fn next_of(f: LoopFrame, i: int) -> Vop {
    Vop::Next {
        csr: f.loop_csr@[i],
        jmp: if i + 1 < f.loop_csr@.len() {
            f.entry@[i + 1]
        } else {
            f.body
        },
    }
}

/// The first `n` instructions of the `Next` chain, innermost source first.
pub open spec fn next_chain(f: LoopFrame, n: int) -> Seq<Vop>
    decreases n,
{
    if n <= 0 {
        Seq::empty()
    } else {
        next_chain(f, n - 1).push(next_of(f, f.loop_csr@.len() - n))
    }
}

/// The patches that close a loop whose `Next` chain starts at `base`: each
/// inner source's exhaust edge goes to its enclosing source's `Next`, and a
/// failed WHERE to the innermost `Next`.
pub open spec fn close_patches(f: LoopFrame, base: int) -> Seq<(usize, usize)> {
    let n = f.loop_csr@.len() as int;
    Seq::new((n - 1) as nat, |k: int| (f.begin@[k + 1], (base + n - (k + 1)) as usize)) + match f.where_fail {
        Some(p) => seq![(p, base as usize)],
        None => Seq::empty(),
    }
}

/// `code` with the jump of each `(site, target)` pair set in turn.
pub open spec fn apply_patches(code: Seq<Vop>, ps: Seq<(usize, usize)>) -> Seq<Vop>
    decreases ps.len(),
{
    if ps.len() == 0 {
        code
    } else {
        let c = apply_patches(code, ps.drop_last());
        let s = ps.last().0 as int;
        if s < c.len() {
            c.update(s, with_target(c[s], ps.last().1))
        } else {
            c
        }
    }
}

/// The `Next` chain's first `n` instructions are `n` long.
proof fn lemma_next_chain_len(f: LoopFrame, n: int)
    requires
        0 <= n,
    ensures
        next_chain(f, n).len() == n,
    decreases n,
{
    if n > 0 {
        lemma_next_chain_len(f, n - 1);
    }
}

/// Every patch site holds a patchable instruction of `code`.
pub open spec fn patches_ok(code: Seq<Vop>, ps: Seq<(usize, usize)>) -> bool {
    forall|k: int| 0 <= k < ps.len() ==> #[trigger] ps[k].0 < code.len() && patchable(code[ps[k].0 as int])
}

/// Patching keeps the length and which instructions are patchable.
proof fn lemma_apply_patches(code: Seq<Vop>, ps: Seq<(usize, usize)>, at: int)
    ensures
        apply_patches(code, ps).len() == code.len(),
        0 <= at < code.len() ==> patchable(apply_patches(code, ps)[at]) == patchable(code[at]),
    decreases ps.len(),
{
    if ps.len() > 0 {
        let c = apply_patches(code, ps.drop_last());
        lemma_apply_patches(code, ps.drop_last(), at);
        let s = ps.last().0 as int;
        if 0 <= s < c.len() {
            lemma_with_target(c[s], ps.last().1);
        }
    }
}

/// Every exhaust-edge site of a loop frame (each source's begin
/// instruction, and the WHERE guard) holds a patchable instruction of `code`.
pub open spec fn frame_sites_patchable(f: LoopFrame, code: Seq<Vop>) -> bool {
    &&& forall|i: int|
        0 <= i < f.begin@.len() ==> #[trigger] f.begin@[i] < code.len() && patchable(
            code[f.begin@[i] as int],
        )
    &&& (f.where_fail matches Some(p) ==> p < code.len() && patchable(code[p as int]))
}

/// A loop frame as the prologue over `from` emitted at `base` lays it out.
pub open spec fn loop_frame_is(
    f: LoopFrame,
    from: Seq<crate::ir::From>,
    csrs: Seq<usize>,
    seeds: Seq<(usize, usize, Option<usize>)>,
    where_: Option<Expr>,
    base: int,
) -> bool {
    let ob = base + open_code(from).len();
    let body = ob + begins_code(from, csrs, from.len() as int)->0.len();
    &&& f.loop_csr@ == csrs
    &&& f.entry@.len() == from.len()
    &&& f.begin@.len() == from.len()
    &&& f.body == body
    &&& forall|i: int|
        0 <= i < from.len() ==> #[trigger] f.entry@[i] == ob + begins_code(from, csrs, i)->0.len()
            && f.begin@[i] == ob + begins_code(from, csrs, i + 1)->0.len() - 1
    &&& f.where_fail == at_if(
        where_ is Some,
        body + seed_code(seeds).len() + guard_code(where_)->0.len() - 1,
    )
}

/// A `Close` of each cursor, in order.
pub open spec fn close_code(csrs: Seq<usize>) -> Seq<Vop> {
    csrs.map_values(|c: usize| Vop::Close { csr: c })
}

/// The collection phase before its loop closes: a collector array, the
/// loop's prologue, and per tuple a pair of the order key (the key values
/// encoded in `dirs`' directions) and the bindings object, pushed on.
pub open spec fn collect_items(
    from: Seq<crate::ir::From>,
    csrs: Seq<usize>,
    seeds: Seq<(usize, usize, Option<usize>)>,
    bindings: Seq<(String, usize)>,
    where_: Option<Expr>,
    keys: Seq<Expr>,
    dirs: Vec<bool>,
) -> Option<Seq<CodeItem>> {
    match (loop_open_code(from, csrs, seeds, where_), exprs_code(keys, keys.len() as int, false)) {
        (Some(lo), Some(kc)) => Some(
            ops(seq![Vop::Arr]) + lo + ops(seq![Vop::Arr]) + kc + ops(
                seq![Vop::OrderKey { dirs }, Vop::ArrPush],
            ) + cons_code(Constructor::Identity, bindings)->0 + ops(
                seq![Vop::ArrPush, Vop::ArrPush],
            ),
        ),
        _ => None,
    }
}

/// `code` is what the collection phase emits after `old`: the code `pre`
/// that [`collect_items`] describes, laid out with frame `f`, then the loop's
/// `Next` chain, with the loop's exhaust edges patched and the outermost one
/// sent to the sort; then each cursor closed and the collector sorted.
pub open spec fn collect_sorted_is(
    code: Seq<Vop>,
    pre: Seq<Vop>,
    f: LoopFrame,
    old: Seq<Vop>,
    from: Seq<crate::ir::From>,
    csrs: Seq<usize>,
    seeds: Seq<(usize, usize, Option<usize>)>,
    bindings: Seq<(String, usize)>,
    where_: Option<Expr>,
    keys: Seq<Expr>,
    dirs: Vec<bool>,
) -> bool {
    let n = csrs.len() as int;
    &&& extends(pre, old)
    &&& code_is(
        pre.skip(old.len() as int),
        collect_items(from, csrs, seeds, bindings, where_, keys, dirs)->0,
    )
    &&& loop_frame_is(f, from, csrs, seeds, where_, old.len() + 1int)
    &&& code == apply_patches(
        pre + next_chain(f, n),
        close_patches(f, pre.len() as int).push((f.begin@[0], (pre.len() + n) as usize)),
    ) + close_code(csrs) + seq![Vop::Sort]
}

/// A frame whose sites hold patchable instructions can be closed after
/// `code`: every patch it makes lands on a patchable instruction.
proof fn lemma_close_patches_ok(f: LoopFrame, code: Seq<Vop>)
    requires
        frame_sites_patchable(f, code),
        f.loop_csr@.len() >= 1,
        f.begin@.len() == f.loop_csr@.len(),
    ensures
        patches_ok(
            code + next_chain(f, f.loop_csr@.len() as int),
            close_patches(f, code.len() as int),
        ),
{
    let all = code + next_chain(f, f.loop_csr@.len() as int);
    let ps = close_patches(f, code.len() as int);
    let n = f.loop_csr@.len() as int;
    assert forall|k: int| 0 <= k < ps.len() implies #[trigger] ps[k].0 < all.len() && patchable(
        all[ps[k].0 as int],
    ) by {
        if k < n - 1 {
            assert(ps[k].0 == f.begin@[k + 1]);
            assert(all[f.begin@[k + 1] as int] == code[f.begin@[k + 1] as int]);
        } else {
            let p = f.where_fail->0;
            assert(ps[k].0 == p);
            assert(all[p as int] == code[p as int]);
        }
    }
}

/// The loop cursor of each from-item.
pub open spec fn from_csrs(from: Seq<crate::ir::From>) -> Seq<usize> {
    from.map_values(|f: crate::ir::From| f.csr.unwrap() as usize)
}

/// The cursor of each binding of a from clause.
pub open spec fn binding_csrs(from: Seq<crate::ir::From>) -> Seq<usize> {
    from_bindings(from).map_values(|p: (Seq<char>, usize)| p.1)
}

/// The projection's own code compiles (an expression or member list whose
/// functions and arities are known).
pub open spec fn cons_compiles(c: Constructor) -> bool {
    match c {
        Constructor::Expr(e) => expr_code(e) is Some,
        Constructor::List(ms) => expr_code(Expr::Obj(ms)) is Some,
        _ => true,
    }
}

/// When a streamed SELECT compiles, with `counters` counter slots before:
/// its limit's counters fit and its projection compiles; without a from
/// clause, the projection is neither `*` nor `.`; with one, the loop's
/// prologue compiles over cursors below the slot limit.
#[verifier::opaque]
pub open spec fn stream_ok(s: Select, counters: int) -> bool {
    &&& counters + limit_count(s.limit) <= usize::MAX
    &&& cons_compiles(s.select)
    &&& if s.from@.len() == 0 {
        !(s.select is Star || s.select is Identity)
    } else {
        &&& opens_fit(s.from@)
        &&& loop_open_code(s.from@, from_csrs(s.from@), from_seeds(s.from@), s.where_) is Some
        &&& cursors_fit(from_csrs(s.from@))
        &&& seeds_fit(from_seeds(s.from@))
        &&& ((s.select is Identity || s.select is Star) ==> cursors_fit(binding_csrs(s.from@)))
    }
}

/// The body of a streamed loop: the prologue, the limit guards, the
/// projection over `bindings` and the row's output.
pub open spec fn stream_body(
    s: Select,
    skip: Option<usize>,
    take: Option<usize>,
    bindings: Seq<(String, usize)>,
    sink: Sink,
) -> Seq<CodeItem> {
    loop_open_code(s.from@, from_csrs(s.from@), from_seeds(s.from@), s.where_)->0 + ops(
        limit_checks_code(skip, take),
    ) + cons_code(s.select, bindings)->0 + seq![CodeItem::Op(row_op(sink))]
}

/// The patches that finish a streamed loop whose body `pre` ends where its
/// `Next` chain (of `n` instructions) begins, with the limit guards at
/// `checks`: the loop's own, then the outermost exhaust edge and a spent
/// take to the loop's exit, an unspent skip to the innermost `Next`.
pub open spec fn stream_patches(
    f: LoopFrame,
    pre_len: int,
    n: int,
    checks: int,
    skip: Option<usize>,
    take: Option<usize>,
) -> Seq<(usize, usize)> {
    let exit = (pre_len + n) as usize;
    let ps1 = close_patches(f, pre_len).push((f.begin@[0], exit));
    let ps2 = if skip is Some {
        ps1.push((checks as usize, pre_len as usize))
    } else {
        ps1
    };
    if take is Some {
        ps2.push(((checks + if skip is Some { 1int } else { 0int }) as usize, exit))
    } else {
        ps2
    }
}

/// `code` is what streaming the SELECT `s` emits after `old`, from
/// `counters` counter slots and to `sink`: the limit's counters; then,
/// without a from clause, the projection and its output; with one, the
/// loop body `pre` (its prologue laid out with frame `f`, its projection
/// over the bindings `bindings`) and the loop's `Next` chain, patched as
/// [`stream_patches`] says.
#[verifier::opaque]
pub open spec fn stream_is(
    code: Seq<Vop>,
    pre: Seq<Vop>,
    f: LoopFrame,
    bindings: Seq<(String, usize)>,
    old: Seq<Vop>,
    s: Select,
    counters: int,
    sink: Sink,
) -> bool {
    let head = old + limit_counters_code(s.limit, counters);
    let skip = at_if(limit_parts(s.limit).0 is Some, counters);
    let take = at_if(limit_parts(s.limit).1 is Some, counters + limit_count_skip(s.limit));
    if s.from@.len() == 0 {
        &&& extends(code, old)
        &&& code_is(
            code.skip(old.len() as int),
            ops(limit_counters_code(s.limit, counters)) + cons_code(s.select, Seq::empty())->0
                + seq![CodeItem::Op(row_op(sink))],
        )
    } else {
        let n = s.from@.len() as int;
        let lo = loop_open_code(s.from@, from_csrs(s.from@), from_seeds(s.from@), s.where_)->0;
        &&& bindings_view(bindings) == from_bindings(s.from@)
        &&& extends(pre, head)
        &&& code_is(pre.skip(head.len() as int), stream_body(s, skip, take, bindings, sink))
        &&& loop_frame_is(
            f,
            s.from@,
            from_csrs(s.from@),
            from_seeds(s.from@),
            s.where_,
            head.len() as int,
        )
        &&& code == apply_patches(
            pre + next_chain(f, n),
            stream_patches(f, pre.len() as int, n, (head.len() + lo.len()) as int, skip, take),
        )
    }
}

/// The code a streamed loop leaves, put together from its pieces: the
/// counters `c1` after `c0`, the prologue `c2`, the guards `c3`, the
/// projection `c4`, the output `pre`, then the patched `Next` chain.
proof fn lemma_stream_is(
    code: Seq<Vop>,
    c0: Seq<Vop>,
    c1: Seq<Vop>,
    c2: Seq<Vop>,
    c3: Seq<Vop>,
    c4: Seq<Vop>,
    pre: Seq<Vop>,
    f: LoopFrame,
    bindings: Seq<(String, usize)>,
    s: Select,
    counters: int,
    sink: Sink,
)
    requires
        s.from@.len() > 0,
        c1 == c0 + limit_counters_code(s.limit, counters),
        extends(c2, c1),
        loop_open_code(s.from@, from_csrs(s.from@), from_seeds(s.from@), s.where_) is Some,
        code_is(
            c2.skip(c1.len() as int),
            loop_open_code(s.from@, from_csrs(s.from@), from_seeds(s.from@), s.where_)->0,
        ),
        loop_frame_is(f, s.from@, from_csrs(s.from@), from_seeds(s.from@), s.where_, c1.len() as int),
        c3 == c2 + limit_checks_code(
            at_if(limit_parts(s.limit).0 is Some, counters),
            at_if(limit_parts(s.limit).1 is Some, counters + limit_count_skip(s.limit)),
        ),
        extends(c4, c3),
        code_is(c4.skip(c3.len() as int), cons_code(s.select, bindings)->0),
        pre == c4.push(row_op(sink)),
        bindings_view(bindings) == from_bindings(s.from@),
        code == apply_patches(
            pre + next_chain(f, s.from@.len() as int),
            stream_patches(
                f,
                pre.len() as int,
                s.from@.len() as int,
                c2.len() as int,
                at_if(limit_parts(s.limit).0 is Some, counters),
                at_if(limit_parts(s.limit).1 is Some, counters + limit_count_skip(s.limit)),
            ),
        ),
    ensures
        stream_is(code, pre, f, bindings, c0, s, counters, sink),
{
    reveal(stream_is);
    let skip = at_if(limit_parts(s.limit).0 is Some, counters);
    let take = at_if(limit_parts(s.limit).1 is Some, counters + limit_count_skip(s.limit));
    let lo = loop_open_code(s.from@, from_csrs(s.from@), from_seeds(s.from@), s.where_)->0;
    assert(c3.skip(c2.len() as int) =~= limit_checks_code(skip, take));
    lemma_ops_code(c3.skip(c2.len() as int), limit_checks_code(skip, take));
    assert(pre.skip(c4.len() as int) =~= seq![row_op(sink)]);
    lemma_ops_code(pre.skip(c4.len() as int), seq![row_op(sink)]);
    lemma_code_chain(c1, c2, c3, lo, ops(limit_checks_code(skip, take)));
    lemma_code_chain(c1, c3, c4, lo + ops(limit_checks_code(skip, take)), cons_code(s.select, bindings)->0);
    lemma_code_chain(
        c1,
        c4,
        pre,
        lo + ops(limit_checks_code(skip, take)) + cons_code(s.select, bindings)->0,
        ops(seq![row_op(sink)]),
    );
    assert(c2.len() == c1.len() + lo.len());
}

/// The sort keys of an ORDER BY.
pub open spec fn order_keys(o: crate::ir::OrderBy) -> Seq<Expr> {
    o.keys@.map_values(|k: crate::ir::OrderKey| k.expr)
}

/// The directions of an ORDER BY's keys (`true` descending).
pub open spec fn order_dirs(o: crate::ir::OrderBy) -> Seq<bool> {
    o.keys@.map_values(|k: crate::ir::OrderKey| k.desc)
}

/// The cursors an ordered SELECT registers: each source's, then each
/// binding's.
pub open spec fn order_cursors(s: Select) -> Seq<usize> {
    from_csrs(s.from@) + binding_csrs(s.from@)
}

/// When an ordered SELECT compiles, from `cursors` cursor and `counters`
/// counter slots: its cursors, and the payload cursor after them, are
/// below the slot limit; its collection phase and projection compile; its
/// limit's counters fit.
#[verifier::opaque]
pub open spec fn order_ok(s: Select, cursors: int, counters: int) -> bool {
    &&& cursors_fit(order_cursors(s))
    &&& slots_after(cursors, order_cursors(s)) < usize::MAX
    &&& opens_fit(s.from@)
    &&& loop_open_code(s.from@, from_csrs(s.from@), from_seeds(s.from@), s.where_) is Some
    &&& exprs_code(order_keys(s.order->0), order_keys(s.order->0).len() as int, false) is Some
    &&& seeds_fit(from_seeds(s.from@))
    &&& counters + limit_count(s.limit) <= usize::MAX
    &&& cons_compiles(s.select)
}

/// The second phase of an ordered SELECT, over the sorted collector on
/// cursor `payload`: the limit's counters, an `Iter` over the collector,
/// the limit guards, the bindings re-seeded from the payload, the
/// projection, the row's output and the `Next` back to `top`.
pub open spec fn order_tail(
    s: Select,
    payload: usize,
    top: int,
    counters: int,
    bindings: Seq<(String, usize)>,
    sink: Sink,
) -> Seq<CodeItem> {
    let skip = at_if(limit_parts(s.limit).0 is Some, counters);
    let take = at_if(limit_parts(s.limit).1 is Some, counters + limit_count_skip(s.limit));
    ops(
        limit_counters_code(s.limit, counters) + seq![Vop::Iter { csr: payload, jmp: 0 }]
            + limit_checks_code(skip, take) + reseed_code(payload, bindings),
    ) + cons_code(s.select, bindings)->0 + ops(
        seq![row_op(sink), Vop::Next { csr: payload, jmp: top as usize }],
    )
}

/// The patches of the second phase, its `Iter` at `top - 1` and its last
/// instruction at `last`: the exhausted collector and a spent take leave,
/// an unspent skip goes on to the `Next`.
pub open spec fn order_patches(
    top: int,
    last: int,
    skip: Option<usize>,
    take: Option<usize>,
) -> Seq<(usize, usize)> {
    let exit = (last + 1) as usize;
    let ps1 = seq![((top - 1) as usize, exit)];
    let ps2 = if skip is Some {
        ps1.push((top as usize, last as usize))
    } else {
        ps1
    };
    if take is Some {
        ps2.push(((top + if skip is Some { 1int } else { 0int }) as usize, exit))
    } else {
        ps2
    }
}

/// `code` is what an ordered SELECT `s` emits after `old`, from `cursors`
/// cursor and `counters` counter slots and to `sink`: the collection phase
/// `mid` (as [`collect_sorted_is`] says, with code `pre`, frame `f`, the
/// bindings `bindings` and the key directions `dirs`), then the second
/// phase `tail` over the payload cursor (the next free slot), patched.
#[verifier::opaque]
pub open spec fn order_is(
    code: Seq<Vop>,
    tail: Seq<Vop>,
    mid: Seq<Vop>,
    pre: Seq<Vop>,
    f: LoopFrame,
    bindings: Seq<(String, usize)>,
    dirs: Vec<bool>,
    old: Seq<Vop>,
    s: Select,
    cursors: int,
    counters: int,
    sink: Sink,
) -> bool {
    let payload = slots_after(cursors, order_cursors(s)) as usize;
    let top = (mid.len() + limit_counters_code(s.limit, counters).len() + 1) as int;
    let skip = at_if(limit_parts(s.limit).0 is Some, counters);
    let take = at_if(limit_parts(s.limit).1 is Some, counters + limit_count_skip(s.limit));
    &&& bindings_view(bindings) == from_bindings(s.from@)
    &&& dirs@ == order_dirs(s.order->0)
    &&& collect_sorted_is(
        mid,
        pre,
        f,
        old,
        s.from@,
        from_csrs(s.from@),
        from_seeds(s.from@),
        bindings,
        s.where_,
        order_keys(s.order->0),
        dirs,
    )
    &&& extends(tail, mid)
    &&& code_is(tail.skip(mid.len() as int), order_tail(s, payload, top, counters, bindings, sink))
    &&& code == apply_patches(tail, order_patches(top, tail.len() - 1, skip, take))
}

/// The code an ordered SELECT leaves, put together from its pieces: the
/// collection phase `mid`; the counters, `Iter`, guards (`c3`) and re-seeds
/// (`c4`) after it; the projection (`c5`); the output and `Next` (`tail`);
/// then the patches.
proof fn lemma_order_is(
    code: Seq<Vop>,
    tail: Seq<Vop>,
    mid: Seq<Vop>,
    c3: Seq<Vop>,
    c4: Seq<Vop>,
    c5: Seq<Vop>,
    pre: Seq<Vop>,
    f: LoopFrame,
    bindings: Seq<(String, usize)>,
    dirs: Vec<bool>,
    old: Seq<Vop>,
    s: Select,
    cursors: int,
    counters: int,
    sink: Sink,
)
    requires
        bindings_view(bindings) == from_bindings(s.from@),
        dirs@ == order_dirs(s.order->0),
        collect_sorted_is(
            mid,
            pre,
            f,
            old,
            s.from@,
            from_csrs(s.from@),
            from_seeds(s.from@),
            bindings,
            s.where_,
            order_keys(s.order->0),
            dirs,
        ),
        c3 == mid + limit_counters_code(s.limit, counters) + seq![
            Vop::Iter { csr: slots_after(cursors, order_cursors(s)) as usize, jmp: 0 },
        ] + limit_checks_code(
            at_if(limit_parts(s.limit).0 is Some, counters),
            at_if(limit_parts(s.limit).1 is Some, counters + limit_count_skip(s.limit)),
        ),
        c4 == c3 + reseed_code(slots_after(cursors, order_cursors(s)) as usize, bindings),
        extends(c5, c4),
        code_is(c5.skip(c4.len() as int), cons_code(s.select, bindings)->0),
        tail == c5 + seq![
            row_op(sink),
            Vop::Next {
                csr: slots_after(cursors, order_cursors(s)) as usize,
                jmp: (mid.len() + limit_counters_code(s.limit, counters).len() + 1) as usize,
            },
        ],
        code == apply_patches(
            tail,
            order_patches(
                (mid.len() + limit_counters_code(s.limit, counters).len() + 1) as int,
                tail.len() - 1,
                at_if(limit_parts(s.limit).0 is Some, counters),
                at_if(limit_parts(s.limit).1 is Some, counters + limit_count_skip(s.limit)),
            ),
        ),
    ensures
        order_is(code, tail, mid, pre, f, bindings, dirs, old, s, cursors, counters, sink),
{
    reveal(order_is);
    let payload = slots_after(cursors, order_cursors(s)) as usize;
    let top = (mid.len() + limit_counters_code(s.limit, counters).len() + 1) as int;
    let skip = at_if(limit_parts(s.limit).0 is Some, counters);
    let take = at_if(limit_parts(s.limit).1 is Some, counters + limit_count_skip(s.limit));
    let head = limit_counters_code(s.limit, counters) + seq![Vop::Iter { csr: payload, jmp: 0 }]
        + limit_checks_code(skip, take) + reseed_code(payload, bindings);
    let last = seq![row_op(sink), Vop::Next { csr: payload, jmp: top as usize }];
    assert(c4.skip(mid.len() as int) =~= head);
    lemma_ops_code(c4.skip(mid.len() as int), head);
    assert(extends(c4, mid));
    assert(tail.skip(c5.len() as int) =~= last);
    lemma_ops_code(tail.skip(c5.len() as int), last);
    assert(extends(tail, c5));
    lemma_code_chain(mid, c4, c5, ops(head), cons_code(s.select, bindings)->0);
    lemma_code_chain(mid, c5, tail, ops(head) + cons_code(s.select, bindings)->0, ops(last));
}

/// Whether an aggregate query `s`, its terms pulled out from `aggs` slots,
/// has the projection `c` and the HAVING predicate `h`.
pub open spec fn agg_collected(s: Select, c: Constructor, h: Option<Expr>, aggs: nat) -> bool {
    let a = cons_state(s.select, Seq::empty(), Seq::empty(), aggs);
    &&& cons_collected(s.select, c, Seq::empty(), Seq::empty(), aggs)
    &&& match (s.having, h) {
        (Some(x), Some(y)) => collected(x, y, Seq::empty(), a.0, a.1),
        (None, None) => true,
        _ => false,
    }
}

/// What an aggregate query needs to compile, from `aggs` accumulator and
/// `counters` counter slots, apart from its output: no ORDER BY, a from
/// clause, its terms' slots below the limit, no variable outside its
/// aggregates, its limit's counters, a prologue and term steps that
/// compile over cursors below the slot limit.
#[verifier::opaque]
pub open spec fn agg_ok(s: Select, aggs: nat, counters: int) -> bool {
    let st = terms_after(s.select, s.having, Seq::empty(), aggs);
    &&& s.order is None
    &&& s.from@.len() > 0
    &&& st.1 <= usize::MAX
    &&& !st.2
    &&& counters + limit_count(s.limit) <= usize::MAX
    &&& opens_fit(s.from@)
    &&& loop_open_code(s.from@, from_csrs(s.from@), from_seeds(s.from@), s.where_) is Some
    &&& cursors_fit(from_csrs(s.from@))
    &&& seeds_fit(from_seeds(s.from@))
    &&& term_steps_code(st.0) is Some
}

/// `code` is what an aggregate query `s` emits after `old`, from `aggs`
/// accumulator and `counters` counter slots and to `sink`: its terms'
/// resets and the limit's counters; the loop body `pre` (the prologue laid
/// out with frame `f`, then each term's step); the loop's `Next` chain with
/// its exhaust edges patched, the outermost one to the finalize block; the
/// finalize block `w` (the output of the collected projection `c` and
/// HAVING `h` over the bindings `bindings`) with its drop and stop sites
/// sent past its end.
#[verifier::opaque]
pub open spec fn agg_is(
    code: Seq<Vop>,
    w: Seq<Vop>,
    pre: Seq<Vop>,
    f: LoopFrame,
    bindings: Seq<(String, usize)>,
    c: Constructor,
    h: Option<Expr>,
    old: Seq<Vop>,
    s: Select,
    aggs: nat,
    counters: int,
    sink: Sink,
) -> bool {
    let st = terms_after(s.select, s.having, Seq::empty(), aggs);
    let skip = at_if(limit_parts(s.limit).0 is Some, counters);
    let take = at_if(limit_parts(s.limit).1 is Some, counters + limit_count_skip(s.limit));
    let head = old + term_inits(st.0) + limit_counters_code(s.limit, counters);
    let n = s.from@.len() as int;
    let fin = pre.len() + n;
    let patched = apply_patches(
        pre + next_chain(f, n),
        close_patches(f, pre.len() as int).push((f.begin@[0], fin as usize)),
    );
    &&& agg_collected(s, c, h, aggs)
    &&& bindings_view(bindings) == from_bindings(s.from@)
    &&& extends(pre, head)
    &&& code_is(
        pre.skip(head.len() as int),
        loop_open_code(s.from@, from_csrs(s.from@), from_seeds(s.from@), s.where_)->0
            + term_steps_code(st.0)->0,
    )
    &&& loop_frame_is(f, s.from@, from_csrs(s.from@), from_seeds(s.from@), s.where_, head.len() as int)
    &&& extends(w, patched)
    &&& code_is(w.skip(fin), yield_code(c, h, bindings, skip, take, sink)->0)
    &&& code == patched_at(
        patched_at(w, yield_cont(fin, h, skip), w.len() as usize),
        yield_stop(fin, h, skip, take),
        w.len() as usize,
    )
}

/// The begin blocks of the first `n` sources, each over its loop cursor.
pub open spec fn begins_code(from: Seq<crate::ir::From>, csrs: Seq<usize>, n: int) -> Option<
    Seq<CodeItem>,
>
    decreases n,
{
    if n <= 0 {
        Some(Seq::empty())
    } else {
        match (begins_code(from, csrs, n - 1), source_begin_code(csrs[n - 1], from[n - 1].src)) {
            (Some(a), Some(b)) => Some(a + b),
            _ => None,
        }
    }
}

/// A prefix of sources whose begin blocks fail fails the longer ones.
proof fn lemma_begins_prefix_none(from: Seq<crate::ir::From>, csrs: Seq<usize>, n: int, m: int)
    requires
        0 <= n <= m,
        begins_code(from, csrs, n) is None,
    ensures
        begins_code(from, csrs, m) is None,
    decreases m - n,
{
    if n < m {
        lemma_begins_prefix_none(from, csrs, n, m - 1);
    }
}

/// A nested loop's prologue: the tables opened, each source's begin block
/// (outer to inner), the unpivot seeds and the WHERE guard.
pub open spec fn loop_open_code(
    from: Seq<crate::ir::From>,
    csrs: Seq<usize>,
    seeds: Seq<(usize, usize, Option<usize>)>,
    where_: Option<Expr>,
) -> Option<Seq<CodeItem>> {
    match (begins_code(from, csrs, from.len() as int), guard_code(where_)) {
        (Some(b), Some(w)) => Some(ops(open_code(from)) + b + ops(seed_code(seeds)) + w),
        _ => None,
    }
}

/// Every cursor is below the slot limit.
pub open spec fn cursors_fit(csrs: Seq<usize>) -> bool {
    forall|i: int| 0 <= i < csrs.len() ==> #[trigger] csrs[i] < usize::MAX
}

/// The cursor slot count after registering each cursor of `csrs` in turn,
/// from `n`: one past the largest seen, never less than `n`.
pub open spec fn slots_after(n: int, csrs: Seq<usize>) -> int
    decreases csrs.len(),
{
    if csrs.len() == 0 {
        n
    } else {
        let m = slots_after(n, csrs.drop_last());
        if csrs.last() >= m {
            csrs.last() + 1
        } else {
            m
        }
    }
}

/// The cursors a from plan uses: each source's, then each binding's.
pub open spec fn plan_cursors(fp: FromPlan) -> Seq<usize> {
    fp.loop_csr@ + fp.bindings@.map_values(|p: (String, usize)| p.1)
}

/// The code that re-seeds each binding from a sorted payload element:
/// load it, take its row (`[1]`), pick the binding's member, store it.
pub open spec fn reseed_code(payload: usize, bindings: Seq<(String, usize)>) -> Seq<Vop>
    decreases bindings.len(),
{
    if bindings.len() == 0 {
        Seq::empty()
    } else {
        reseed_code(payload, bindings.drop_last()) + seq![
            Vop::LoadVal { csr: payload },
            Vop::Jpi(1),
            Vop::Jpk(bindings.last().0),
            Vop::SetVal { csr: bindings.last().1 },
        ]
    }
}

/// The `Open` of each table source's cursor, in order.
pub open spec fn open_code(from: Seq<crate::ir::From>) -> Seq<Vop>
    decreases from.len(),
{
    if from.len() == 0 {
        Seq::empty()
    } else {
        let f = from.last();
        open_code(from.drop_last()) + if f.src is Table {
            seq![Vop::Open { csr: f.csr.unwrap() as usize, tbl: f.oid.unwrap() }]
        } else {
            Seq::empty()
        }
    }
}

/// Every table source's cursor is below the slot limit.
pub open spec fn opens_fit(from: Seq<crate::ir::From>) -> bool {
    forall|i: int|
        0 <= i < from.len() && (#[trigger] from[i]).src is Table ==> (from[i].csr.unwrap() as usize)
            < usize::MAX
}

/// The code that re-derives one unpivot source's bindings from its pair.
pub open spec fn seed_block(seed: (usize, usize, Option<usize>)) -> Seq<Vop> {
    let (pair, val, att) = seed;
    seq![Vop::LoadVal { csr: pair }, Vop::Jpi(1), Vop::SetVal { csr: val }] + match att {
        Some(a) => seq![Vop::LoadVal { csr: pair }, Vop::Jpi(0), Vop::SetVal { csr: a }],
        None => Seq::empty(),
    }
}

/// The seed blocks of `seeds`, in order.
pub open spec fn seed_code(seeds: Seq<(usize, usize, Option<usize>)>) -> Seq<Vop>
    decreases seeds.len(),
{
    if seeds.len() == 0 {
        Seq::empty()
    } else {
        seed_code(seeds.drop_last()) + seed_block(seeds.last())
    }
}

/// A seed's cursors are below the slot limit.
pub open spec fn seed_fits(seed: (usize, usize, Option<usize>)) -> bool {
    &&& seed.0 < usize::MAX
    &&& seed.1 < usize::MAX
    &&& (seed.2 matches Some(a) ==> a < usize::MAX)
}

/// Every seed's cursors are below the slot limit.
pub open spec fn seeds_fit(seeds: Seq<(usize, usize, Option<usize>)>) -> bool {
    forall|i: int| 0 <= i < seeds.len() ==> seed_fits(#[trigger] seeds[i])
}

impl Compiler {
    /// Well-formed, grown from `old`, with the transaction need and the
    /// catalog flag unchanged.
    pub closed spec fn moved(&self, old: &Compiler) -> bool {
        &&& self.wf()
        &&& self.grew_from(old)
        &&& self.txm == old.txm
        &&& self.mutates_catalog == old.mutates_catalog
        &&& self.head_kept(old)
    }

    /// The first instruction of `old`, if any, is still in place.
    pub closed spec fn head_kept(&self, old: &Compiler) -> bool {
        old.code@.len() >= 1 ==> self.code@.len() >= 1 && self.code@[0] == old.code@[0]
    }

    /// The number of instructions so far.
    pub closed spec fn len(&self) -> nat {
        self.code@.len()
    }

    /// Opens each table source's btree once before the loop.
    fn open_tables(&mut self, from: &Vec<crate::ir::From>) -> (r: Result<(), Error>)
        requires
            old(self).wf(),
            forall|i: int| 0 <= i < from@.len() ==> from_ready(#[trigger] from@[i]),
        ensures
            final(self).moved(old(self)),
            final(self).counter_slots == old(self).counter_slots,
            final(self).agg_slots == old(self).agg_slots,
            r is Ok <==> opens_fit(from@),
            r is Ok ==> final(self).code@ == old(self).code@ + open_code(from@),
    {
        let mut i: usize = 0;
        assert(from@.take(0) =~= Seq::<crate::ir::From>::empty());
        while i < from.len()
            invariant
                i <= from@.len(),
                forall|j: int| 0 <= j < from@.len() ==> from_ready(#[trigger] from@[j]),
                self.moved(old(self)),
                self.counter_slots == old(self).counter_slots,
                self.agg_slots == old(self).agg_slots,
                opens_fit(from@.take(i as int)),
                self.code@ == old(self).code@ + open_code(from@.take(i as int)),
            decreases from@.len() - i,
        {
            let f = &from[i];
            assert(from_ready(from@[i as int]));
            assert(from@.take(i + 1).drop_last() =~= from@.take(i as int));
            assert(from@.take(i + 1).last() == from@[i as int]);
            if let Source::Table(_) = &f.src {
                let csr = match f.csr {
                    Some(c) => c as usize,
                    None => 0,
                };
                let tbl = match f.oid {
                    Some(o) => o,
                    None => 0,
                };
                let r = self.emit_cursor_op(Vop::Open { csr, tbl }, csr);
                if r.is_err() {
                    assert(!opens_fit(from@)) by {
                        assert(from@[i as int].src is Table);
                    }
                    return r;
                }
            }
            assert(self.code@ =~= old(self).code@ + open_code(from@.take(i + 1)));
            assert forall|j: int|
                0 <= j < i + 1 && (#[trigger] from@.take(i + 1)[j]).src is Table implies (from@.take(
                i + 1,
            )[j].csr.unwrap() as usize) < usize::MAX by {
                if j < i {
                    assert(from@.take(i + 1)[j] == from@.take(i as int)[j]);
                }
            }
            i = i + 1;
        }
        assert(from@.take(from@.len() as int) =~= from@);
        Ok(())
    }

    /// Emits one source's begin block and returns where the enclosing `Next`
    /// re-enters it. A table begins at its `Scan`; a value or unpivot source
    /// at its expression, so a correlated source re-evaluates it.
    fn cc_source_begin(&mut self, csr: usize, f: crate::ir::From) -> (r: Result<usize, Error>)
        requires
            old(self).wf(),
            old(self).len() >= 1 || !(f.src is Table),
            from_ready(f),
        ensures
            final(self).moved(old(self)),
            final(self).counter_slots == old(self).counter_slots,
            final(self).agg_slots == old(self).agg_slots,
            r matches Ok(entry) ==> entry <= final(self).len() && final(self).len() >= 2
                && old(self).len() < final(self).len(),
            r is Ok <==> source_begin_code(csr, f.src) is Some && csr < usize::MAX,
            r matches Ok(entry) ==> entry == old(self).len() && code_is(
                final(self).code@.skip(old(self).code@.len() as int),
                source_begin_code(csr, f.src)->0,
            ),
            r is Ok ==> extends(final(self).code@, old(self).code@),
            r is Ok ==> patchable(final(self).code@[final(self).code@.len() - 1]),
    {
        let ghost c0 = self.code@;
        match f.src {
            Source::Table(_) => {
                let r = self.emit_cursor_op(Vop::Scan { csr, jmp: 0, prefix: ScanPrefix::Whole }, csr);
                if r.is_err() {
                    return Err(r.unwrap_err());
                }
                assert(self.code@.skip(c0.len() as int) =~= seq![
                    Vop::Scan { csr, jmp: 0, prefix: ScanPrefix::Whole },
                ]);
                Ok(self.pc())
            },
            Source::Value(expr) => {
                let entry = self.code.len();
                proof {
                    lemma_ready_mono(*expr, 0, self.agg_slots as nat);
                }
                let r = self.cc_expr(*expr);
                if r.is_err() {
                    return Err(r.unwrap_err());
                }
                let ghost c1 = self.code@;
                proof {
                    lemma_expr_code_nonempty(*expr);
                }
                let r = self.emit_cursor_op(Vop::Iter { csr, jmp: 0 }, csr);
                if r.is_err() {
                    return Err(r.unwrap_err());
                }
                proof {
                    assert(self.code@.skip(c1.len() as int) =~= seq![Vop::Iter { csr, jmp: 0 }]);
                    lemma_code_chain(
                        c0,
                        c1,
                        self.code@,
                        expr_code(*expr)->0,
                        seq![CodeItem::Op(Vop::Iter { csr, jmp: 0 })],
                    );
                    assert(expr_code(*expr)->0 + seq![CodeItem::Op(Vop::Iter { csr, jmp: 0 })]
                        =~= expr_code(*expr)->0.push(CodeItem::Op(Vop::Iter { csr, jmp: 0 })));
                }
                Ok(entry)
            },
            Source::Unpivot(u) => {
                let entry = self.code.len();
                proof {
                    lemma_ready_mono(*u.expr, 0, self.agg_slots as nat);
                }
                let ghost ue = *u.expr;
                let r = self.cc_expr(*u.expr);
                if r.is_err() {
                    return Err(r.unwrap_err());
                }
                let ghost c1 = self.code@;
                proof {
                    lemma_expr_code_nonempty(ue);
                }
                self.emit_plain(Vop::Entries);
                let r = self.emit_cursor_op(Vop::Iter { csr, jmp: 0 }, csr);
                if r.is_err() {
                    return Err(r.unwrap_err());
                }
                proof {
                    assert(self.code@.skip(c1.len() as int) =~= seq![
                        Vop::Entries,
                        Vop::Iter { csr, jmp: 0 },
                    ]);
                    lemma_code_chain(
                        c0,
                        c1,
                        self.code@,
                        expr_code(ue)->0,
                        seq![CodeItem::Op(Vop::Entries), CodeItem::Op(Vop::Iter { csr, jmp: 0 })],
                    );
                }
                Ok(entry)
            },
        }
    }

    /// Re-derives each unpivot source's value (and attribute-name) binding
    /// from its current `[name, value]` pair.
    fn cc_seed(&mut self, seeds: &Vec<(usize, usize, Option<usize>)>) -> (r: Result<(), Error>)
        requires
            old(self).wf(),
        ensures
            final(self).moved(old(self)),
            final(self).counter_slots == old(self).counter_slots,
            final(self).agg_slots == old(self).agg_slots,
            r is Ok <==> seeds_fit(seeds@),
            r is Ok ==> final(self).code@ == old(self).code@ + seed_code(seeds@),
    {
        let mut i: usize = 0;
        assert(seeds@.take(0) =~= Seq::<(usize, usize, Option<usize>)>::empty());
        while i < seeds.len()
            invariant
                i <= seeds@.len(),
                self.moved(old(self)),
                self.counter_slots == old(self).counter_slots,
                self.agg_slots == old(self).agg_slots,
                seeds_fit(seeds@.take(i as int)),
                self.code@ == old(self).code@ + seed_code(seeds@.take(i as int)),
            decreases seeds@.len() - i,
        {
            assert(seeds@.take(i + 1).drop_last() =~= seeds@.take(i as int));
            assert(seeds@.take(i + 1).last() == seeds@[i as int]);
            let (pair, val, att) = seeds[i];
            let r = self.emit_cursor_op(Vop::LoadVal { csr: pair }, pair);
            if r.is_err() {
                assert(seeds@[i as int] == (pair, val, att));
                return r;
            }
            self.emit_plain(Vop::Jpi(1));
            let r = self.emit_cursor_op(Vop::SetVal { csr: val }, val);
            if r.is_err() {
                assert(seeds@[i as int] == (pair, val, att));
                return r;
            }
            if let Some(a) = att {
                let r = self.emit_cursor_op(Vop::LoadVal { csr: pair }, pair);
                if r.is_err() {
                    assert(seeds@[i as int] == (pair, val, att));
                    return r;
                }
                self.emit_plain(Vop::Jpi(0));
                let r = self.emit_cursor_op(Vop::SetVal { csr: a }, a);
                if r.is_err() {
                    assert(seeds@[i as int] == (pair, val, att));
                    return r;
                }
            }
            assert(self.code@ =~= old(self).code@ + seed_code(seeds@.take(i + 1)));
            assert forall|j: int| 0 <= j < i + 1 implies seed_fits(
                #[trigger] seeds@.take(i + 1)[j],
            ) by {
                if j < i {
                    assert(seeds@.take(i + 1)[j] == seeds@.take(i as int)[j]);
                }
            }
            i = i + 1;
        }
        assert(seeds@.take(seeds@.len() as int) =~= seeds@);
        Ok(())
    }

    /// Emits a nested loop's prologue over `from`: opens the tables, emits
    /// each source's begin block (outer to inner), marks the body, seeds the
    /// unpivot bindings and emits the WHERE guard. The caller emits the body,
    /// then [`Self::cc_loop_close`].
    #[verifier::loop_isolation(false)]
    #[verifier::spinoff_prover]
    #[verifier::rlimit(40)]
    fn cc_loop_open(
        &mut self,
        from: Vec<crate::ir::From>,
        fp: &FromPlan,
        where_: Option<Expr>,
    ) -> (r: Result<LoopFrame, Error>)
        requires
            old(self).wf(),
            from@.len() >= 1,
            forall|i: int| 0 <= i < from@.len() ==> from_ready(#[trigger] from@[i]),
            fp.loop_csr@.len() == from@.len(),
            where_ matches Some(w) ==> expr_ready(w, 0),
        ensures
            final(self).moved(old(self)),
            final(self).counter_slots == old(self).counter_slots,
            final(self).agg_slots == old(self).agg_slots,
            r matches Ok(frame) ==> frame_ok(frame, final(self).len()) && frame.loop_csr@
                == fp.loop_csr@,
            r is Ok <==> opens_fit(from@) && loop_open_code(from@, fp.loop_csr@, fp.seeds@, where_)
                is Some && cursors_fit(fp.loop_csr@) && seeds_fit(fp.seeds@),
            r matches Ok(frame) ==> {
                let base = old(self).code@.len() + open_code(from@).len();
                let body = base + begins_code(from@, fp.loop_csr@, from@.len() as int)->0.len();
                &&& code_is(
                    final(self).code@.skip(old(self).code@.len() as int),
                    loop_open_code(from@, fp.loop_csr@, fp.seeds@, where_)->0,
                )
                &&& extends(final(self).code@, old(self).code@)
                &&& frame.body == body
                &&& forall|i: int|
                    0 <= i < from@.len() ==> #[trigger] frame.entry@[i] == base + begins_code(
                        from@,
                        fp.loop_csr@,
                        i,
                    )->0.len() && frame.begin@[i] == base + begins_code(
                        from@,
                        fp.loop_csr@,
                        i + 1,
                    )->0.len() - 1
                &&& frame.where_fail == at_if(
                    where_ is Some,
                    body + seed_code(fp.seeds@).len() + guard_code(where_)->0.len() - 1,
                )
                &&& frame_sites_patchable(frame, final(self).code@)
            },
    {
        let ghost c0 = self.code@;
        let ghost csrs = fp.loop_csr@;
        let ghost from0 = from@;
        let r = self.open_tables(&from);
        if r.is_err() {
            return Err(r.unwrap_err());
        }
        let ghost c1 = self.code@;
        proof {
            assert(c1.skip(c0.len() as int) =~= open_code(from0));
            lemma_ops_code(c1.skip(c0.len() as int), open_code(from0));
            assert(extends(c1, c0));
            assert(c1.skip(c1.len() as int) =~= Seq::<Vop>::empty());
            assert(csrs.take(0) =~= Seq::<usize>::empty());
            if from0[0].src is Table {
                lemma_open_code_first(from0);
            }
        }
        let ghost all = from@;
        let n = from.len();
        let mut entry: Vec<usize> = Vec::new();
        let mut begin: Vec<usize> = Vec::new();
        let mut rest = from;
        let mut i: usize = 0;
        while rest.len() > 0
            invariant
                i <= n,
                n == all.len(),
                rest@ == all.skip(i as int),
                forall|j: int| 0 <= j < all.len() ==> from_ready(#[trigger] all[j]),
                fp.loop_csr@.len() == n,
                self.moved(old(self)),
                self.counter_slots == old(self).counter_slots,
                self.agg_slots == old(self).agg_slots,
                i > 0 ==> self.len() >= 1,
                i == 0 ==> self.len() >= 1 || !(all[0].src is Table),
                entry@.len() == i,
                begin@.len() == i,
                forall|j: int| 0 <= j < i ==> #[trigger] entry@[j] <= self.len(),
                forall|j: int| 0 <= j < i ==> 1 <= #[trigger] begin@[j] <= self.len(),
                all == from0,
                csrs == fp.loop_csr@,
                c1.len() == c0.len() + open_code(from0).len(),
                extends(c1, c0),
                extends(self.code@, c1),
                begins_code(all, csrs, i as int) is Some,
                code_is(self.code@.skip(c1.len() as int), begins_code(all, csrs, i as int)->0),
                cursors_fit(csrs.take(i as int)),
                forall|j: int|
                    0 <= j < i ==> #[trigger] entry@[j] == c1.len() + begins_code(
                        all,
                        csrs,
                        j,
                    )->0.len() && begin@[j] == c1.len() + begins_code(all, csrs, j + 1)->0.len() - 1,
                forall|j: int|
                    0 <= j < i ==> #[trigger] begin@[j] < self.code@.len() && patchable(
                        self.code@[begin@[j] as int],
                    ),
            decreases rest.len(),
        {
            let f = rest.remove(0);
            assert(f == all[i as int]);
            let ghost cb = self.code@;
            let e = match self.cc_source_begin(fp.loop_csr[i], f) {
                Ok(e) => e,
                Err(err) => {
                    proof {
                        if csrs[i as int] == usize::MAX {
                            assert(!cursors_fit(csrs));
                        } else {
                            lemma_begins_prefix_none(all, csrs, i + 1, all.len() as int);
                        }
                    }
                    return Err(err);
                },
            };
            proof {
                assert(e == c1.len() + begins_code(all, csrs, i as int)->0.len());
                lemma_code_chain(
                    c1,
                    cb,
                    self.code@,
                    begins_code(all, csrs, i as int)->0,
                    source_begin_code(csrs[i as int], all[i as int].src)->0,
                );
                assert(begins_code(all, csrs, i + 1)->0 == begins_code(all, csrs, i as int)->0
                    + source_begin_code(csrs[i as int], all[i as int].src)->0);
                assert(self.code@.len() == c1.len() + begins_code(all, csrs, i + 1)->0.len());
                assert forall|k: int| 0 <= k < i + 1 implies #[trigger] csrs.take(i + 1)[k]
                    < usize::MAX by {
                    if k < i {
                        assert(csrs.take(i + 1)[k] == csrs.take(i as int)[k]);
                    }
                }
            }
            entry.push(e);
            begin.push(self.pc());
            i = i + 1;
        }
        let ghost c2 = self.code@;
        assert(csrs.take(i as int) =~= csrs);
        let body = self.code.len();
        let r = self.cc_seed(&fp.seeds);
        if r.is_err() {
            return Err(r.unwrap_err());
        }
        let ghost c3 = self.code@;
        proof {
            assert(c3.skip(c2.len() as int) =~= seed_code(fp.seeds@));
            lemma_ops_code(c3.skip(c2.len() as int), seed_code(fp.seeds@));
            assert(extends(c3, c2));
            lemma_code_chain(
                c0,
                c1,
                c2,
                ops(open_code(from0)),
                begins_code(all, csrs, all.len() as int)->0,
            );
            lemma_code_chain(
                c0,
                c2,
                c3,
                ops(open_code(from0)) + begins_code(all, csrs, all.len() as int)->0,
                ops(seed_code(fp.seeds@)),
            );
        }
        let mut where_fail: Option<usize> = None;
        let ghost wv = where_;
        if let Some(w) = where_ {
            proof {
                lemma_ready_mono(w, 0, self.agg_slots as nat);
            }
            let r = self.cc_expr(w);
            if r.is_err() {
                return Err(r.unwrap_err());
            }
            let ghost ca = self.code@;
            self.emit(Vop::IfNot(0));
            proof {
                assert(self.code@.skip(ca.len() as int) =~= seq![Vop::IfNot(0)]);
                lemma_code_chain(
                    c3,
                    ca,
                    self.code@,
                    expr_code(w)->0,
                    seq![CodeItem::Op(Vop::IfNot(0))],
                );
                assert(expr_code(w)->0 + seq![CodeItem::Op(Vop::IfNot(0))] =~= expr_code(w)->0.push(
                    CodeItem::Op(Vop::IfNot(0)),
                ));
            }
            where_fail = Some(self.pc());
        } else {
            assert(self.code@.skip(c3.len() as int) =~= Seq::<Vop>::empty());
        }
        proof {
            lemma_code_chain(
                c0,
                c3,
                self.code@,
                ops(open_code(from0)) + begins_code(all, csrs, all.len() as int)->0 + ops(
                    seed_code(fp.seeds@),
                ),
                guard_code(wv)->0,
            );
            assert(extends(self.code@, c3));
            assert forall|j: int| 0 <= j < begin@.len() implies #[trigger] begin@[j]
                < self.code@.len() && patchable(self.code@[begin@[j] as int]) by {
                assert(begin@[j] < c2.len());
                assert(c3[begin@[j] as int] == c2[begin@[j] as int]);
                assert(self.code@[begin@[j] as int] == c3[begin@[j] as int]);
            }
        }
        let loop_csr = fp.loop_csr.clone();
        Ok(LoopFrame { loop_csr, entry, begin, body, where_fail })
    }

    /// Emits the inner-to-outer `Next` chain and patches the inner exhaust
    /// edges: each inner source advances its enclosing one, and a failed WHERE
    /// drops the row back to the innermost `Next`. Returns the sites the
    /// caller still owns.
    #[verifier::spinoff_prover]
    #[verifier::rlimit(40)]
    fn cc_loop_close(&mut self, frame: &LoopFrame) -> (r: Result<LoopExits, Error>)
        requires
            old(self).wf(),
            old(self).len() >= 1,
            frame_ok(*frame, old(self).len()),
        ensures
            final(self).moved(old(self)),
            final(self).counter_slots == old(self).counter_slots,
            final(self).agg_slots == old(self).agg_slots,
            r matches Ok(x) ==> 1 <= x.begin0 <= final(self).len() && 1 <= x.inner <= final(self).len(),
            r is Ok <==> cursors_fit(frame.loop_csr@) && patches_ok(
                old(self).code@ + next_chain(*frame, frame.loop_csr@.len() as int),
                close_patches(*frame, old(self).code@.len() as int),
            ),
            r matches Ok(x) ==> {
                &&& final(self).code@ == apply_patches(
                    old(self).code@ + next_chain(*frame, frame.loop_csr@.len() as int),
                    close_patches(*frame, old(self).code@.len() as int),
                )
                &&& x.begin0 == frame.begin@[0]
                &&& x.inner == old(self).code@.len()
            },
    {
        let ghost c0 = self.code@;
        let n = frame.loop_csr.len();
        let mut next_pc: Vec<usize> = Vec::new();
        let mut k: usize = n;
        while k > 0
            invariant
                k <= n,
                n == frame.loop_csr@.len(),
                frame_ok(*frame, old(self).len()),
                self.moved(old(self)),
                self.counter_slots == old(self).counter_slots,
                self.agg_slots == old(self).agg_slots,
                old(self).len() <= self.len(),
                next_pc@.len() == n - k,
                forall|j: int| 0 <= j < next_pc@.len() ==> 1 <= #[trigger] next_pc@[j] < self.len(),
                self.len() >= 1,
                c0 == old(self).code@,
                self.code@ == c0 + next_chain(*frame, n - k),
                forall|j: int| 0 <= j < next_pc@.len() ==> #[trigger] next_pc@[j] == c0.len() + j,
                forall|j: int| k <= j < n ==> #[trigger] frame.loop_csr@[j] < usize::MAX,
            decreases k,
        {
            let i = k - 1;
            let resume = if i + 1 < n {
                frame.entry[i + 1]
            } else {
                frame.body
            };
            let csr = frame.loop_csr[i];
            let r = self.emit_cursor_op(Vop::Next { csr, jmp: resume }, csr);
            if r.is_err() {
                assert(!cursors_fit(frame.loop_csr@)) by {
                    assert(frame.loop_csr@[i as int] == usize::MAX);
                }
                return Err(r.unwrap_err());
            }
            assert(next_of(*frame, i as int) == Vop::Next { csr, jmp: resume });
            assert(self.code@ =~= c0 + next_chain(*frame, n - k + 1));
            proof {
                lemma_next_chain_len(*frame, n - k + 1);
            }
            next_pc.push(self.pc());
            k = i;
        }
        let ghost c1 = self.code@;
        let ghost ps = close_patches(*frame, c0.len() as int);
        assert(cursors_fit(frame.loop_csr@));
        proof {
            assert(apply_patches(c1, ps.take(0)) =~= c1) by {
                assert(ps.take(0).len() == 0);
            }
        }
        // next_pc holds the Next sites innermost first: source i's at n-1-i.
        let mut i: usize = 1;
        while i < n
            invariant
                1 <= i <= n || n == 0,
                n == frame.loop_csr@.len(),
                frame_ok(*frame, old(self).len()),
                self.moved(old(self)),
                self.counter_slots == old(self).counter_slots,
                self.agg_slots == old(self).agg_slots,
                old(self).len() <= self.len(),
                next_pc@.len() == n,
                forall|j: int| 0 <= j < next_pc@.len() ==> 1 <= #[trigger] next_pc@[j] < self.len(),
                c0 == old(self).code@,
                c1 == c0 + next_chain(*frame, n as int),
                ps == close_patches(*frame, c0.len() as int),
                forall|j: int| 0 <= j < next_pc@.len() ==> #[trigger] next_pc@[j] == c0.len() + j,
                self.code@ == apply_patches(c1, ps.take(i - 1)),
                patches_ok(c1, ps.take(i - 1)),
            decreases n - i,
        {
            let ghost cur = self.code@;
            assert(ps[i - 1] == (frame.begin@[i as int], next_pc@[n - i]));
            proof {
                lemma_apply_patches(c1, ps.take(i - 1), frame.begin@[i as int] as int);
            }
            let r = self.patch(frame.begin[i], next_pc[n - i]);
            if r.is_err() {
                proof {
                    let site = frame.begin@[i as int];
                    assert(ps[i - 1].0 == site);
                    assert(cur.len() == c1.len());
                    if site < c1.len() {
                        assert(!patchable(cur[site as int]));
                        assert(!patchable(c1[site as int]));
                    }
                    assert(!(ps[i - 1].0 < c1.len() && patchable(c1[ps[i - 1].0 as int])));
                    assert(!patches_ok(c1, ps));
                }
                return Err(r.unwrap_err());
            }
            proof {
                assert(ps.take(i as int).drop_last() =~= ps.take(i - 1));
                assert(ps.take(i as int).last() == ps[i - 1]);
                assert forall|q: int| 0 <= q < i implies #[trigger] ps.take(i as int)[q].0 < c1.len()
                    && patchable(c1[ps.take(i as int)[q].0 as int]) by {
                    if q < i - 1 {
                        assert(ps.take(i as int)[q] == ps.take(i - 1)[q]);
                    }
                }
            }
            i = i + 1;
        }
        let inner = next_pc[0];
        if let Some(pc) = frame.where_fail {
            let ghost m = ps.len() - 1;
            assert(ps[m] == (pc, inner));
            proof {
                lemma_apply_patches(c1, ps.take(m), pc as int);
            }
            let r = self.patch(pc, inner);
            if r.is_err() {
                proof {
                    assert(ps[m].0 == pc);
                    assert(self.code@.len() == c1.len());
                    if pc < c1.len() {
                        assert(!patchable(c1[pc as int]));
                    }
                    assert(!(ps[m].0 < c1.len() && patchable(c1[ps[m].0 as int])));
                    assert(!patches_ok(c1, ps));
                }
                return Err(r.unwrap_err());
            }
            proof {
                assert(ps.take(m + 1) =~= ps);
                assert(ps.take(m + 1).drop_last() =~= ps.take(m));
                assert forall|q: int| 0 <= q < ps.len() implies #[trigger] ps[q].0 < c1.len()
                    && patchable(c1[ps[q].0 as int]) by {
                    if q < m {
                        assert(ps[q] == ps.take(m)[q]);
                    }
                }
            }
        } else {
            assert(ps.take(ps.len() as int) =~= ps);
        }
        Ok(LoopExits { begin0: frame.begin[0], inner })
    }
}

} // verus!

verus! {

/// A projection before its aggregates get slots: every expression bound,
/// aggregate arguments plain; a pivot's two expressions plain.
pub open spec fn cons_ok(c: Constructor) -> bool {
    match c {
        Constructor::Identity => true,
        Constructor::Star => true,
        Constructor::Expr(e) => proj_ok(e),
        Constructor::List(ms) => forall|i: int|
            0 <= i < ms@.len() ==> proj_ok(#[trigger] member_expr(ms@[i])),
        Constructor::Pivot(p) => expr_ready(*p.value, 0) && expr_ready(*p.name, 0),
    }
}

/// A projection ready to compile against `aggs` accumulator slots.
pub open spec fn cons_ready(c: Constructor, aggs: nat) -> bool {
    match c {
        Constructor::Identity => true,
        Constructor::Star => true,
        Constructor::Expr(e) => expr_ready(e, aggs),
        Constructor::List(ms) => forall|i: int|
            0 <= i < ms@.len() ==> expr_ready(#[trigger] member_expr(ms@[i]), aggs),
        Constructor::Pivot(_) => false,
    }
}

/// A bound SELECT: its sources resolved, WHERE, group keys and order keys
/// plain, and its projection and HAVING bound.
pub open spec fn select_ready(s: Select) -> bool {
    &&& forall|i: int| 0 <= i < s.from@.len() ==> from_ready(#[trigger] s.from@[i])
    &&& (s.where_ matches Some(w) ==> expr_ready(w, 0))
    &&& (s.group matches Some(g) ==> groups_ok(g.keys@))
    &&& (s.having matches Some(h) ==> proj_ok(h))
    &&& (s.order matches Some(o) ==> forall|i: int|
        0 <= i < o.keys@.len() ==> expr_ready(#[trigger] o.keys@[i].expr, 0))
    &&& cons_ok(s.select)
}

/// A bound expression without aggregates is plain.
pub proof fn lemma_proj_plain(e: Expr)
    requires
        proj_ok(e),
        !has_agg(e),
    ensures
        expr_ready(e, 0),
    decreases e,
{
    match e {
        Expr::Call(c) => {
            assert forall|i: int| 0 <= i < c.args@.len() implies expr_ready(c.args@[i], 0) by {
                assert(decreases_to!(c.args => c.args@));
                assert(proj_ok(c.args@[i]));
                assert(!has_agg(c.args@[i]));
                lemma_proj_plain(c.args@[i]);
            }
        },
        Expr::Jpi(j) => lemma_proj_plain(*j.inp),
        Expr::Jpk(j) => lemma_proj_plain(*j.inp),
        Expr::Jpe(j) => {
            lemma_proj_plain(*j.inp);
            lemma_proj_plain(*j.exp);
        },
        Expr::Obj(ms) => {
            assert forall|i: int| 0 <= i < ms@.len() implies expr_ready(
                #[trigger] member_expr(ms@[i]),
                0,
            ) by {
                assert(decreases_to!(ms => ms@));
                assert(decreases_to!(ms@ => ms@[i]));
                assert(proj_ok(member_expr(ms@[i])));
                assert(!has_agg(member_expr(ms@[i])));
                lemma_proj_plain(member_expr(ms@[i]));
            }
        },
        Expr::Array(items) => {
            assert forall|i: int| 0 <= i < items@.len() implies expr_ready(items@[i], 0) by {
                assert(decreases_to!(items => items@));
                assert(proj_ok(items@[i]));
                assert(!has_agg(items@[i]));
                lemma_proj_plain(items@[i]);
            }
        },
        _ => {},
    }
}

/// A bound projection without aggregates is ready against any slot count.
pub proof fn lemma_cons_ready(c: Constructor, aggs: nat)
    requires
        cons_ok(c),
        !constructor_has_agg(c),
        !(c is Pivot),
    ensures
        cons_ready(c, aggs),
{
    match c {
        Constructor::Expr(e) => {
            lemma_proj_plain(e);
            lemma_ready_mono(e, 0, aggs);
        },
        Constructor::List(ms) => {
            assert forall|i: int| 0 <= i < ms@.len() implies expr_ready(
                #[trigger] member_expr(ms@[i]),
                aggs,
            ) by {
                assert(proj_ok(member_expr(ms@[i])));
                assert(!has_agg(member_expr(ms@[i])));
                lemma_proj_plain(member_expr(ms@[i]));
                lemma_ready_mono(member_expr(ms@[i]), 0, aggs);
            }
        },
        _ => {},
    }
}

/// `Some(at)` when `present`, else `None`.
pub open spec fn at_if(present: bool, at: int) -> Option<usize> {
    if present {
        Some(at as usize)
    } else {
        None
    }
}

/// The skip and take counts a limit sets: `N..M` skips N and takes `M - N`
/// (none when `M <= N`).
pub open spec fn limit_parts(limit: Option<Limit>) -> (Option<u64>, Option<u64>) {
    match limit {
        None => (None, None),
        Some(Limit::Skip(n)) => (Some(n), None),
        Some(Limit::Take(n)) => (None, Some(n)),
        Some(Limit::Slice(n, m)) => (Some(n), Some(m.saturating_sub(n))),
    }
}

/// One counter for a skip count, if any.
pub open spec fn limit_count_skip(limit: Option<Limit>) -> int {
    if limit_parts(limit).0 is Some {
        1
    } else {
        0
    }
}

/// The number of counters a limit needs.
pub open spec fn limit_count(limit: Option<Limit>) -> int {
    limit_count_skip(limit) + if limit_parts(limit).1 is Some {
        1int
    } else {
        0int
    }
}

/// The counter initializations of a limit, its counters numbered from `base`.
pub open spec fn limit_counters_code(limit: Option<Limit>, base: int) -> Seq<Vop> {
    let skip = match limit_parts(limit).0 {
        Some(n) => seq![Vop::CntSet(base as usize, n)],
        None => Seq::empty(),
    };
    let take = match limit_parts(limit).1 {
        Some(n) => seq![Vop::CntSet((base + limit_count_skip(limit)) as usize, n)],
        None => Seq::empty(),
    };
    skip + take
}

/// The per-row guards of a limit's counters, their jumps still to patch.
pub open spec fn limit_checks_code(cnt_skip: Option<usize>, cnt_take: Option<usize>) -> Seq<Vop> {
    let skip = match cnt_skip {
        Some(c) => seq![Vop::CntIfPos(c, 0)],
        None => Seq::empty(),
    };
    let take = match cnt_take {
        Some(c) => seq![Vop::CntIfZero(c, 0)],
        None => Seq::empty(),
    };
    skip + take
}

/// The instruction that outputs a row to `sink`.
pub open spec fn row_op(sink: Sink) -> Vop {
    match sink {
        Sink::Yield => Vop::Yield,
        Sink::Collect => Vop::ArrPush,
    }
}

/// A guard (a WHERE or HAVING condition): the condition and an `IfNot`
/// still to patch; nothing without a condition.
pub open spec fn guard_code(having: Option<Expr>) -> Option<Seq<CodeItem>> {
    match having {
        None => Some(Seq::empty()),
        Some(h) => match expr_code(h) {
            Some(c) => Some(c.push(CodeItem::Op(Vop::IfNot(0)))),
            None => None,
        },
    }
}

/// The tail of a finalize block: the HAVING guard, the limit guards, the
/// projection and the row's output.
pub open spec fn yield_code(
    constructor: Constructor,
    having: Option<Expr>,
    bindings: Seq<(String, usize)>,
    cnt_skip: Option<usize>,
    cnt_take: Option<usize>,
    sink: Sink,
) -> Option<Seq<CodeItem>> {
    match (guard_code(having), cons_code(constructor, bindings)) {
        (Some(a), Some(b)) => Some(
            a + ops(limit_checks_code(cnt_skip, cnt_take)) + b + seq![CodeItem::Op(row_op(sink))],
        ),
        _ => None,
    }
}

/// The sites of a finalize tail from `base` that drop the row and go on:
/// the HAVING guard's and the skip guard's.
pub open spec fn yield_cont(base: int, having: Option<Expr>, cnt_skip: Option<usize>) -> Seq<usize> {
    let hl = guard_code(having)->0.len() as int;
    (if having is Some {
        seq![(base + hl - 1) as usize]
    } else {
        Seq::empty()
    }) + (if cnt_skip is Some {
        seq![(base + hl) as usize]
    } else {
        Seq::empty()
    })
}

/// The site of a finalize tail from `base` that ends the output: the take
/// guard's.
pub open spec fn yield_stop(
    base: int,
    having: Option<Expr>,
    cnt_skip: Option<usize>,
    cnt_take: Option<usize>,
) -> Seq<usize> {
    let hl = guard_code(having)->0.len() as int;
    if cnt_take is Some {
        seq![(base + hl + if cnt_skip is Some { 1int } else { 0int }) as usize]
    } else {
        Seq::empty()
    }
}

/// The code that sets each binding from the representative row: load it,
/// pick the binding's member, store it.
pub open spec fn unpack_code(repr_csr: usize, bindings: Seq<(String, usize)>) -> Seq<Vop>
    decreases bindings.len(),
{
    if bindings.len() == 0 {
        Seq::empty()
    } else {
        unpack_code(repr_csr, bindings.drop_last()) + seq![
            Vop::LoadVal { csr: repr_csr },
            Vop::Jpk(bindings.last().0),
            Vop::SetVal { csr: bindings.last().1 },
        ]
    }
}

/// The head of a group's finalize block: finalize the representative row,
/// store it, and set each binding from it.
pub open spec fn group_head(repr_csr: usize, repr_slot: usize, bindings: Seq<(String, usize)>) -> Seq<Vop> {
    seq![
        Vop::AggFinal { slot: repr_slot, kind: AggKind::First },
        Vop::SetVal { csr: repr_csr },
    ] + unpack_code(repr_csr, bindings)
}

impl Compiler {
    /// Emits a plan's output of one row: yielded to the caller, or pushed
    /// onto the collector array when compiling a subquery.
    fn emit_row(&mut self)
        requires
            old(self).wf(),
        ensures
            final(self).moved(old(self)),
            final(self).same_slots(old(self)),
            final(self).code@ == old(self).code@.push(
                match old(self).sink {
                    Sink::Yield => Vop::Yield,
                    Sink::Collect => Vop::ArrPush,
                },
            ),
    {
        match self.sink {
            Sink::Yield => self.emit_plain(Vop::Yield),
            Sink::Collect => self.emit_plain(Vop::ArrPush),
        }
    }

    /// Allocates and initializes the skip and take counters of a limit and
    /// returns them. `limit N..M` is the half-open `[N, M)`: skip N rows, then
    /// take `M - N` (saturating, so `M <= N` takes nothing).
    fn emit_limit_counters(&mut self, limit: Option<Limit>) -> (r: Result<
        (Option<usize>, Option<usize>),
        Error,
    >)
        requires
            old(self).wf(),
        ensures
            final(self).moved(old(self)),
            final(self).agg_slots == old(self).agg_slots,
            final(self).cursor_slots == old(self).cursor_slots,
            r matches Ok((s, t)) ==> (s matches Some(c) ==> c < final(self).counter_slots) && (
            t matches Some(c) ==> c < final(self).counter_slots),
            r is Ok <==> old(self).counter_slots + limit_count(limit) <= usize::MAX,
            r matches Ok((s, t)) ==> {
                &&& s == at_if(limit_parts(limit).0 is Some, old(self).counter_slots as int)
                &&& t == at_if(
                    limit_parts(limit).1 is Some,
                    old(self).counter_slots + limit_count_skip(limit),
                )
                &&& final(self).counter_slots == old(self).counter_slots + limit_count(limit)
                &&& final(self).code@ == old(self).code@ + limit_counters_code(
                    limit,
                    old(self).counter_slots as int,
                )
            },
    {
        let (skip, take): (Option<u64>, Option<u64>) = match limit {
            None => (None, None),
            Some(Limit::Skip(n)) => (Some(n), None),
            Some(Limit::Take(n)) => (None, Some(n)),
            Some(Limit::Slice(n, m)) => (Some(n), Some(m.saturating_sub(n))),
        };
        assert(limit_parts(limit) == (skip, take));
        let mut cnt_skip: Option<usize> = None;
        let mut cnt_take: Option<usize> = None;
        if let Some(n) = skip {
            let c = match self.alloc_counter() {
                Ok(c) => c,
                Err(e) => {
                    return Err(e);
                },
            };
            self.emit(Vop::CntSet(c, n));
            cnt_skip = Some(c);
        }
        if let Some(n) = take {
            let c = match self.alloc_counter() {
                Ok(c) => c,
                Err(e) => {
                    return Err(e);
                },
            };
            self.emit(Vop::CntSet(c, n));
            cnt_take = Some(c);
        }
        Ok((cnt_skip, cnt_take))
    }

    /// Emits the per-row offset and limit guards and returns their patch
    /// sites: the offset guard drops the row while skip is not spent, the
    /// limit guard leaves the loop once take is spent.
    fn emit_limit_checks(&mut self, cnt_skip: Option<usize>, cnt_take: Option<usize>) -> (r: (
        Option<usize>,
        Option<usize>,
    ))
        requires
            old(self).wf(),
            old(self).len() >= 1,
            cnt_skip matches Some(c) ==> c < old(self).counter_slots,
            cnt_take matches Some(c) ==> c < old(self).counter_slots,
        ensures
            final(self).moved(old(self)),
            final(self).same_slots(old(self)),
            r.0 matches Some(p) ==> 1 <= p < final(self).len(),
            r.1 matches Some(p) ==> 1 <= p < final(self).len(),
            final(self).code@ == old(self).code@ + limit_checks_code(cnt_skip, cnt_take),
            r.0 == at_if(cnt_skip is Some, old(self).code@.len() as int),
            r.1 == at_if(
                cnt_take is Some,
                old(self).code@.len() + if cnt_skip is Some { 1int } else { 0int },
            ),
    {
        let mut offset: Option<usize> = None;
        if let Some(c) = cnt_skip {
            self.emit(Vop::CntIfPos(c, 0));
            offset = Some(self.pc());
        }
        let mut limit_pc: Option<usize> = None;
        if let Some(c) = cnt_take {
            self.emit(Vop::CntIfZero(c, 0));
            limit_pc = Some(self.pc());
        }
        (offset, limit_pc)
    }

    /// Compiles the projection: `.` builds an object of the bindings, `*`
    /// merges them into one (a single binding is loaded as it is), an
    /// expression or member list builds its value.
    #[verifier::loop_isolation(false)]
    fn cc_select_constructor(
        &mut self,
        constructor: Constructor,
        bindings: &Vec<(String, usize)>,
    ) -> (r: Result<(), Error>)
        requires
            old(self).wf(),
            cons_ready(constructor, old(self).agg_slots as nat),
        ensures
            final(self).moved(old(self)),
            final(self).counter_slots == old(self).counter_slots,
            final(self).agg_slots == old(self).agg_slots,
            r is Ok <==> cons_code(constructor, bindings@) is Some && cons_fits(
                constructor,
                bindings@,
            ),
            r is Ok ==> code_is(
                final(self).code@.skip(old(self).code@.len() as int),
                cons_code(constructor, bindings@)->0,
            ),
            r is Ok ==> extends(final(self).code@, old(self).code@),
    {
        let ghost c0 = self.code@;
        let ghost csrs = bindings@.map_values(|p: (String, usize)| p.1);
        match constructor {
            Constructor::Identity => {
                self.emit_plain(Vop::Obj);
                let mut i: usize = 0;
                assert(bindings@.take(0) =~= Seq::<(String, usize)>::empty());
                while i < bindings.len()
                    invariant
                        i <= bindings@.len(),
                        c0 == old(self).code@,
                        csrs == bindings@.map_values(|p: (String, usize)| p.1),
                        self.moved(old(self)),
                        self.counter_slots == old(self).counter_slots,
                        self.agg_slots == old(self).agg_slots,
                        cursors_fit(csrs.take(i as int)),
                        self.code@ == c0 + seq![Vop::Obj] + binding_loads(
                            bindings@.take(i as int),
                            false,
                        ),
                    decreases bindings@.len() - i,
                {
                    assert(bindings@.take(i + 1).drop_last() =~= bindings@.take(i as int));
                    assert(csrs[i as int] == bindings@[i as int].1);
                    let csr = bindings[i].1;
                    let r = self.emit_cursor_op(Vop::LoadVal { csr }, csr);
                    if r.is_err() {
                        assert(!cursors_fit(csrs)) by {
                            assert(csrs[i as int] == usize::MAX);
                        }
                        return r;
                    }
                    self.emit_plain(Vop::ObjAssign(bindings[i].0.clone()));
                    assert(self.code@ =~= c0 + seq![Vop::Obj] + binding_loads(
                        bindings@.take(i + 1),
                        false,
                    ));
                    assert forall|k: int| 0 <= k < i + 1 implies #[trigger] csrs.take(i + 1)[k]
                        < usize::MAX by {
                        if k < i {
                            assert(csrs.take(i + 1)[k] == csrs.take(i as int)[k]);
                        }
                    }
                    i = i + 1;
                }
                proof {
                    assert(bindings@.take(i as int) =~= bindings@);
                    assert(csrs.take(i as int) =~= csrs);
                    assert(self.code@.skip(c0.len() as int) =~= seq![Vop::Obj] + binding_loads(bindings@, false));
                    lemma_ops_code(self.code@.skip(c0.len() as int), seq![Vop::Obj] + binding_loads(bindings@, false));
                }
                Ok(())
            },
            Constructor::Star => {
                if bindings.len() == 1 {
                    let csr = bindings[0].1;
                    assert(csrs[0] == csr);
                    let r = self.emit_cursor_op(Vop::LoadVal { csr }, csr);
                    proof {
                        if r.is_ok() {
                            assert(self.code@.skip(c0.len() as int) =~= seq![Vop::LoadVal { csr }]);
                    lemma_ops_code(self.code@.skip(c0.len() as int), seq![Vop::LoadVal { csr }]);
                        } else {
                            assert(!cursors_fit(csrs)) by {
                                assert(csrs[0] == usize::MAX);
                            }
                        }
                        if cursors_fit(csrs) {
                            assert(csrs[0] < usize::MAX);
                        }
                    }
                    r
                } else {
                    self.emit_plain(Vop::Obj);
                    let mut i: usize = 0;
                    assert(bindings@.take(0) =~= Seq::<(String, usize)>::empty());
                    while i < bindings.len()
                        invariant
                            i <= bindings@.len(),
                            c0 == old(self).code@,
                            csrs == bindings@.map_values(|p: (String, usize)| p.1),
                            self.moved(old(self)),
                            self.counter_slots == old(self).counter_slots,
                            self.agg_slots == old(self).agg_slots,
                            cursors_fit(csrs.take(i as int)),
                            self.code@ == c0 + seq![Vop::Obj] + binding_loads(
                                bindings@.take(i as int),
                                true,
                            ),
                        decreases bindings@.len() - i,
                    {
                        assert(bindings@.take(i + 1).drop_last() =~= bindings@.take(i as int));
                        assert(csrs[i as int] == bindings@[i as int].1);
                        let csr = bindings[i].1;
                        let r = self.emit_cursor_op(Vop::LoadVal { csr }, csr);
                        if r.is_err() {
                            assert(!cursors_fit(csrs)) by {
                                assert(csrs[i as int] == usize::MAX);
                            }
                            return r;
                        }
                        self.emit_plain(Vop::ObjMerge(bindings[i].0.clone()));
                        assert(self.code@ =~= c0 + seq![Vop::Obj] + binding_loads(
                            bindings@.take(i + 1),
                            true,
                        ));
                        assert forall|k: int| 0 <= k < i + 1 implies #[trigger] csrs.take(i + 1)[k]
                            < usize::MAX by {
                            if k < i {
                                assert(csrs.take(i + 1)[k] == csrs.take(i as int)[k]);
                            }
                        }
                        i = i + 1;
                    }
                    proof {
                        assert(bindings@.take(i as int) =~= bindings@);
                        assert(csrs.take(i as int) =~= csrs);
                        assert(self.code@.skip(c0.len() as int) =~= seq![Vop::Obj] + binding_loads(bindings@, true));
                    lemma_ops_code(self.code@.skip(c0.len() as int), seq![Vop::Obj] + binding_loads(bindings@, true));
                    }
                    Ok(())
                }
            },
            Constructor::Expr(e) => self.cc_expr(e),
            Constructor::List(ms) => self.cc_expr_obj(ms),
            Constructor::Pivot(_) => {
                assert(self.code@.skip(c0.len() as int) =~= Seq::<Vop>::empty());
                Ok(())
            },
        }
    }
}

} // verus!

verus! {

/// Instructions described one for one.
pub open spec fn ops(code: Seq<Vop>) -> Seq<CodeItem> {
    code.map_values(|op: Vop| CodeItem::Op(op))
}

/// Code is exactly the instructions it is.
proof fn lemma_ops_code(code: Seq<Vop>, want: Seq<Vop>)
    requires
        code == want,
    ensures
        code_is(code, ops(want)),
{
}

/// Each binding loaded from its cursor and set (or, for `merge`, merged)
/// into the object under its name.
pub open spec fn binding_loads(bindings: Seq<(String, usize)>, merge: bool) -> Seq<Vop>
    decreases bindings.len(),
{
    if bindings.len() == 0 {
        Seq::empty()
    } else {
        binding_loads(bindings.drop_last(), merge) + seq![
            Vop::LoadVal { csr: bindings.last().1 },
            if merge {
                Vop::ObjMerge(bindings.last().0)
            } else {
                Vop::ObjAssign(bindings.last().0)
            },
        ]
    }
}

/// The code of a projection over `bindings`: `.` an object of the
/// bindings; `*` the single binding itself, or the bindings merged into one
/// object; an expression or a member list its value; a pivot nothing (its
/// plan builds the row).
pub open spec fn cons_code(c: Constructor, bindings: Seq<(String, usize)>) -> Option<
    Seq<CodeItem>,
> {
    match c {
        Constructor::Identity => Some(ops(seq![Vop::Obj] + binding_loads(bindings, false))),
        Constructor::Star => if bindings.len() == 1 {
            Some(ops(seq![Vop::LoadVal { csr: bindings[0].1 }]))
        } else {
            Some(ops(seq![Vop::Obj] + binding_loads(bindings, true)))
        },
        Constructor::Expr(e) => expr_code(e),
        Constructor::List(ms) => expr_code(Expr::Obj(ms)),
        Constructor::Pivot(_) => Some(Seq::empty()),
    }
}

/// A projection that loads bindings names only cursors below the slot
/// limit.
pub open spec fn cons_fits(c: Constructor, bindings: Seq<(String, usize)>) -> bool {
    (c is Identity || c is Star) ==> cursors_fit(bindings.map_values(|p: (String, usize)| p.1))
}

/// A same projection is ready exactly when the other is.
pub proof fn lemma_cons_ready_same(a: Constructor, b: Constructor, n: nat)
    requires
        cons_same(a, b),
    ensures
        cons_ready(a, n) == cons_ready(b, n),
{
    match a {
        Constructor::Expr(x) => lemma_ready_same(x, b->Expr_0, n),
        Constructor::List(x) => {
            let y = b->List_0;
            assert forall|i: int| 0 <= i < x@.len() implies expr_ready(
                #[trigger] member_expr(x@[i]),
                n,
            ) == expr_ready(member_expr(y@[i]), n) by {
                assert(member_same(x@[i], y@[i]));
                lemma_ready_same(member_expr(x@[i]), member_expr(y@[i]), n);
            }
            if cons_ready(a, n) {
                assert forall|i: int| 0 <= i < y@.len() implies expr_ready(
                    #[trigger] member_expr(y@[i]),
                    n,
                ) by {
                    assert(expr_ready(member_expr(x@[i]), n));
                }
            }
            if cons_ready(b, n) {
                assert forall|i: int| 0 <= i < x@.len() implies expr_ready(
                    #[trigger] member_expr(x@[i]),
                    n,
                ) by {
                    assert(expr_ready(member_expr(y@[i]), n));
                }
            }
        },
        _ => {},
    }
}

/// Readiness of a projection survives more accumulator slots.
pub proof fn lemma_cons_ready_mono(c: Constructor, n: nat, m: nat)
    requires
        cons_ready(c, n),
        n <= m,
    ensures
        cons_ready(c, m),
{
    match c {
        Constructor::Expr(e) => lemma_ready_mono(e, n, m),
        Constructor::List(ms) => {
            assert forall|i: int| 0 <= i < ms@.len() implies expr_ready(
                #[trigger] member_expr(ms@[i]),
                m,
            ) by {
                lemma_ready_mono(member_expr(ms@[i]), n, m);
            }
        },
        _ => {},
    }
}

/// A SELECT the compiler can take: bound, and (as the ORDER BY plan
/// indexes its first source) an ordered query has a from clause.
pub open spec fn select_ok(s: Select) -> bool {
    &&& select_ready(s)
    &&& (plan_spec(s) == Plan::Order ==> s.from@.len() >= 1)
}

/// Whether every collected projection and HAVING predicate of the
/// aggregate query `s` has output code over the from bindings.
pub open spec fn agg_outputs_ok(s: Select, aggs: nat, counters: int, sink: Sink) -> bool {
    forall|c: Constructor, h: Option<Expr>, b: Seq<(String, usize)>|
        #![trigger agg_collected(s, c, h, aggs), bindings_view(b)]
        agg_collected(s, c, h, aggs) && bindings_view(b) == from_bindings(s.from@) ==> yield_code(
            c,
            h,
            b,
            at_if(limit_parts(s.limit).0 is Some, counters),
            at_if(limit_parts(s.limit).1 is Some, counters + limit_count_skip(s.limit)),
            sink,
        ) is Some && cons_fits(c, b)
}

/// `code` is what a SELECT `s` emits after `old`, from `cursors`
/// cursor, `counters` counter and `aggs` accumulator slots, to `sink`, by
/// the plan it takes.
pub open spec fn select_is(
    code: Seq<Vop>,
    old: Seq<Vop>,
    s: Select,
    cursors: int,
    counters: int,
    aggs: nat,
    sink: Sink,
) -> bool {
    match plan_spec(s) {
        Plan::Stream => exists|pre: Seq<Vop>, f: LoopFrame, b: Seq<(String, usize)>|
            stream_is(code, pre, f, b, old, s, counters, sink),
        Plan::Order => exists|
            tail: Seq<Vop>,
            mid: Seq<Vop>,
            pre: Seq<Vop>,
            f: LoopFrame,
            b: Seq<(String, usize)>,
            d: Vec<bool>,
        | order_is(code, tail, mid, pre, f, b, d, old, s, cursors, counters, sink),
        Plan::Aggregate => exists|
            w: Seq<Vop>,
            pre: Seq<Vop>,
            f: LoopFrame,
            b: Seq<(String, usize)>,
            c: Constructor,
            h: Option<Expr>,
        | agg_is(code, w, pre, f, b, c, h, old, s, aggs, counters, sink),
        Plan::Group => exists|
            mid: Seq<Vop>,
            pre: Seq<Vop>,
            f: LoopFrame,
            b: Seq<(String, usize)>,
            d: Vec<bool>,
            w1: Seq<Vop>,
            c1: Constructor,
            h1: Option<Expr>,
            steps: Seq<Vop>,
            w2: Seq<Vop>,
            c: Constructor,
            h: Option<Expr>,
        |
            group_is(
                code,
                mid,
                pre,
                f,
                b,
                d,
                w1,
                c1,
                h1,
                steps,
                w2,
                c,
                h,
                old,
                s,
                cursors,
                counters,
                aggs,
                sink,
            ),
        Plan::Pivot => exists|pre: Seq<Vop>, f: LoopFrame| pivot_is(code, pre, f, old, s, sink),
    }
}

/// What a SELECT `s` needs to compile, by its plan: a compiled SELECT
/// meets it.
pub open spec fn select_needs(s: Select, cursors: int, counters: int, aggs: nat) -> bool {
    match plan_spec(s) {
        Plan::Stream => stream_ok(s, counters),
        Plan::Order => order_ok(s, cursors, counters),
        Plan::Aggregate => agg_ok(s, aggs, counters),
        Plan::Group => group_ok(s, cursors, counters, aggs),
        Plan::Pivot => pivot_ok(s),
    }
}

/// When a SELECT `s` compiles, by its plan: a SELECT that meets it
/// compiles.
pub open spec fn select_compiles(
    s: Select,
    cursors: int,
    counters: int,
    aggs: nat,
    sink: Sink,
) -> bool {
    match plan_spec(s) {
        Plan::Stream => stream_ok(s, counters),
        Plan::Order => order_ok(s, cursors, counters),
        Plan::Aggregate => agg_ok(s, aggs, counters) && agg_outputs_ok(s, aggs, counters, sink),
        Plan::Group => group_ok(s, cursors, counters, aggs) && group_outputs_ok(
            s,
            aggs,
            counters,
            sink,
        ),
        Plan::Pivot => pivot_ok(s),
    }
}

/// When a PIVOT compiles: no GROUP BY, HAVING, ORDER BY or limit, a from
/// clause whose prologue compiles over cursors below the slot limit, and a
/// name and value that compile.
#[verifier::opaque]
pub open spec fn pivot_ok(s: Select) -> bool {
    let p = s.select->Pivot_0;
    &&& s.group is None
    &&& s.having is None
    &&& s.order is None
    &&& s.limit is None
    &&& s.from@.len() > 0
    &&& opens_fit(s.from@)
    &&& loop_open_code(s.from@, from_csrs(s.from@), from_seeds(s.from@), s.where_) is Some
    &&& cursors_fit(from_csrs(s.from@))
    &&& seeds_fit(from_seeds(s.from@))
    &&& expr_code(*p.name) is Some
    &&& expr_code(*p.value) is Some
}

/// `code` is what a PIVOT `s` emits after `old`, to `sink`: an empty object,
/// then the loop body `pre` (the prologue laid out with frame `f`, the name
/// and value, and `ObjSet` into the object); the loop's `Next` chain with
/// its exhaust edges patched, the outermost one to the object's output
/// after it. An empty stream outputs `{}`.
#[verifier::opaque]
pub open spec fn pivot_is(
    code: Seq<Vop>,
    pre: Seq<Vop>,
    f: LoopFrame,
    old: Seq<Vop>,
    s: Select,
    sink: Sink,
) -> bool {
    let p = s.select->Pivot_0;
    let head = old.push(Vop::Obj);
    let n = s.from@.len() as int;
    &&& extends(pre, head)
    &&& code_is(
        pre.skip(head.len() as int),
        loop_open_code(s.from@, from_csrs(s.from@), from_seeds(s.from@), s.where_)->0 + expr_code(
            *p.name,
        )->0 + expr_code(*p.value)->0 + ops(seq![Vop::ObjSet]),
    )
    &&& loop_frame_is(f, s.from@, from_csrs(s.from@), from_seeds(s.from@), s.where_, head.len() as int)
    &&& code == apply_patches(
        pre + next_chain(f, n),
        close_patches(f, pre.len() as int).push((f.begin@[0], (pre.len() + n) as usize)),
    ) + seq![row_op(sink)]
}

impl Compiler {
    /// Compiles a SELECT. GROUP BY, PIVOT, aggregates and ORDER BY each take
    /// their own plan; otherwise the from/where/limit/project stream is
    /// emitted in place.
    fn cc_select(&mut self, select: Select) -> (r: Result<(), Error>)
        requires
            old(self).wf(),
            select_ok(select),
        ensures
            final(self).wf(),
            final(self).grew_from(old(self)),
            final(self).txm == Some(mode_join(TransactionMode::Read, old(self).txm)),
            final(self).mutates_catalog == old(self).mutates_catalog,
            final(self).head_kept(old(self)),
            r is Ok ==> select_is(
                final(self).code@,
                old(self).code@,
                select,
                old(self).cursor_slots as int,
                old(self).counter_slots as int,
                old(self).agg_slots as nat,
                old(self).sink,
            ),
            r is Ok ==> select_needs(
                select,
                old(self).cursor_slots as int,
                old(self).counter_slots as int,
                old(self).agg_slots as nat,
            ),
            select_compiles(
                select,
                old(self).cursor_slots as int,
                old(self).counter_slots as int,
                old(self).agg_slots as nat,
                old(self).sink,
            ) ==> r is Ok,
    {
        self.ensure_txn(TransactionMode::Read);
        let ghost start = *self;
        let p = plan(&select);
        let r = match p {
            Plan::Group => self.cc_group(select),
            Plan::Pivot => self.cc_pivot(select),
            Plan::Aggregate => self.cc_aggregate(select),
            Plan::Order => self.cc_order(select),
            Plan::Stream => self.cc_stream(select),
        };
        proof {
            assert(self.moved(&start));
        }
        r
    }

    /// Streams the from/where nested loop: limit, project and emit each row.
    #[verifier::spinoff_prover]
    #[verifier::rlimit(100)]
    fn cc_stream(&mut self, select: Select) -> (r: Result<(), Error>)
        requires
            old(self).wf(),
            select_ok(select),
            plan_spec(select) == Plan::Stream,
        ensures
            final(self).moved(old(self)),
            r is Ok <==> stream_ok(select, old(self).counter_slots as int),
            r is Ok ==> exists|pre: Seq<Vop>, f: LoopFrame, b: Seq<(String, usize)>|
                stream_is(
                    final(self).code@,
                    pre,
                    f,
                    b,
                    old(self).code@,
                    select,
                    old(self).counter_slots as int,
                    old(self).sink,
                ),
    {
        let ghost s0 = select;
        let ghost c0 = self.code@;
        let ghost k0 = self.counter_slots as int;
        let ghost sink = self.sink;
        let Select { from, where_, group: _, having: _, order: _, limit, select: constructor } =
            select;
        let (cnt_skip, cnt_take) = match self.emit_limit_counters(limit) {
            Ok(x) => x,
            Err(e) => {
                assert(!stream_ok(s0, k0)) by {
                    reveal(stream_ok);
                }
                return Err(e);
            },
        };
        let ghost c1 = self.code@;
        proof {
            lemma_cons_ready(constructor, self.agg_slots as nat);
        }
        if from.len() == 0 {
            if matches!(constructor, Constructor::Star) || matches!(constructor, Constructor::Identity) {
                assert(!stream_ok(s0, k0)) by {
                    reveal(stream_ok);
                }
                return Err(
                    Error::Unsupported(
                        String::from_str("select * / select . requires a from clause"),
                    ),
                );
            }
            let empty: Vec<(String, usize)> = Vec::new();
            let r = self.cc_select_constructor(constructor, &empty);
            if r.is_err() {
                assert(!stream_ok(s0, k0)) by {
                    reveal(stream_ok);
                }
                return r;
            }
            let ghost c2 = self.code@;
            self.emit_row();
            proof {
                assert(stream_ok(s0, k0)) by {
                    reveal(stream_ok);
                }
                let fin = self.code@;
                assert(stream_is(
                    fin,
                    c0,
                    vstd::pervasive::arbitrary::<LoopFrame>(),
                    empty@,
                    c0,
                    s0,
                    k0,
                    sink,
                )) by {
                    reveal(stream_is);
                    assert(c1.skip(c0.len() as int) =~= limit_counters_code(limit, k0));
                    lemma_ops_code(c1.skip(c0.len() as int), limit_counters_code(limit, k0));
                    assert(fin.skip(c2.len() as int) =~= seq![row_op(sink)]);
                    lemma_ops_code(fin.skip(c2.len() as int), seq![row_op(sink)]);
                    assert(empty@ =~= Seq::<(String, usize)>::empty());
                    lemma_code_chain(
                        c0,
                        c1,
                        c2,
                        ops(limit_counters_code(limit, k0)),
                        cons_code(constructor, empty@)->0,
                    );
                    lemma_code_chain(
                        c0,
                        c2,
                        fin,
                        ops(limit_counters_code(limit, k0)) + cons_code(constructor, empty@)->0,
                        ops(seq![row_op(sink)]),
                    );
                }
            }
            return Ok(());
        }
        let fp = analyze_from(&from);
        let ghost fv = from@;
        proof {
            assert(fp.loop_csr@ =~= from_csrs(fv));
            assert(fp.bindings@.map_values(|p: (String, usize)| p.1) =~= binding_csrs(fv)) by {
                assert forall|i: int| 0 <= i < fp.bindings@.len() implies fp.bindings@[i].1
                    == #[trigger] binding_csrs(fv)[i] by {
                    assert(bindings_view(fp.bindings@)[i] == from_bindings(fv)[i]);
                }
            }
        }
        let frame = match self.cc_loop_open(from, &fp, where_) {
            Ok(f) => f,
            Err(e) => {
                assert(!stream_ok(s0, k0)) by {
                    reveal(stream_ok);
                }
                return Err(e);
            },
        };
        let ghost c2 = self.code@;
        assert(loop_frame_is(frame, fv, fp.loop_csr@, fp.seeds@, s0.where_, c1.len() as int)) by {
            assert(frame.entry@.len() == fv.len());
            assert(frame.begin@.len() == fv.len());
        }
        let (offset, limit_pc) = self.emit_limit_checks(cnt_skip, cnt_take);
        let ghost c3 = self.code@;
        proof {
            lemma_cons_ready(constructor, self.agg_slots as nat);
        }
        let r = self.cc_select_constructor(constructor, &fp.bindings);
        if r.is_err() {
            assert(!stream_ok(s0, k0)) by {
                reveal(stream_ok);
            }
            return r;
        }
        let ghost c4 = self.code@;
        self.emit_row();
        let ghost pre = self.code@;
        assert(stream_ok(s0, k0)) by {
            reveal(stream_ok);
        }
        assert(patches_ok(
            pre + next_chain(frame, frame.loop_csr@.len() as int),
            close_patches(frame, pre.len() as int),
        )) by {
            assert forall|i: int| 0 <= i < frame.begin@.len() implies #[trigger] frame.begin@[i]
                < pre.len() && patchable(pre[frame.begin@[i] as int]) by {
                assert(pre[frame.begin@[i] as int] == c2[frame.begin@[i] as int]);
            }
            if let Some(p) = frame.where_fail {
                assert(pre[p as int] == c2[p as int]);
            }
            lemma_close_patches_ok(frame, pre);
        }
        let exits = match self.cc_loop_close(&frame) {
            Ok(x) => x,
            Err(e) => {
                return Err(e);
            },
        };
        let ghost n = frame.loop_csr@.len() as int;
        let ghost nexts = pre + next_chain(frame, n);
        let ghost ps0 = close_patches(frame, pre.len() as int);
        let exit = self.code.len();
        proof {
            lemma_next_chain_len(frame, n);
            lemma_apply_patches(nexts, ps0, frame.begin@[0] as int);
            assert(nexts[frame.begin@[0] as int] == pre[frame.begin@[0] as int]);
        }
        let r = self.patch(exits.begin0, exit);
        if r.is_err() {
            return r;
        }
        let ghost ps1 = ps0.push((frame.begin@[0], exit));
        assert(ps1.drop_last() =~= ps0);
        let ghost ps2 = if offset is Some {
            ps1.push((offset->0, exits.inner))
        } else {
            ps1
        };
        if let Some(pc) = offset {
            proof {
                assert(c3[pc as int] == Vop::CntIfPos(cnt_skip->0, 0));
                assert(nexts[pc as int] == c3[pc as int]);
                lemma_apply_patches(nexts, ps1, pc as int);
            }
            let r = self.patch(pc, exits.inner);
            if r.is_err() {
                return r;
            }
            assert(ps2.drop_last() =~= ps1);
        }
        let ghost ps3 = if limit_pc is Some {
            ps2.push((limit_pc->0, exit))
        } else {
            ps2
        };
        if let Some(pc) = limit_pc {
            proof {
                assert(c3[pc as int] == Vop::CntIfZero(cnt_take->0, 0));
                assert(nexts[pc as int] == c3[pc as int]);
                lemma_apply_patches(nexts, ps2, pc as int);
            }
            let r = self.patch(pc, exit);
            if r.is_err() {
                return r;
            }
            assert(ps3.drop_last() =~= ps2);
        }
        proof {
            lemma_stream_is(self.code@, c0, c1, c2, c3, c4, pre, frame, fp.bindings@, s0, k0, sink);
        }
        Ok(())
    }

    /// Compiles a PIVOT: fold every surviving binding tuple's `name: value`
    /// into one object, then emit it once (an empty stream gives `{}`).
    #[verifier::spinoff_prover]
    #[verifier::rlimit(50)]
    fn cc_pivot(&mut self, select: Select) -> (r: Result<(), Error>)
        requires
            old(self).wf(),
            select_ok(select),
            plan_spec(select) == Plan::Pivot,
        ensures
            final(self).wf(),
            final(self).grew_from(old(self)),
            final(self).txm == Some(mode_join(TransactionMode::Read, old(self).txm)),
            final(self).mutates_catalog == old(self).mutates_catalog,
            final(self).head_kept(old(self)),
            r is Ok <==> pivot_ok(select),
            r is Ok ==> exists|pre: Seq<Vop>, f: LoopFrame|
                pivot_is(final(self).code@, pre, f, old(self).code@, select, old(self).sink),
    {
        let ghost s0 = select;
        let ghost c0 = self.code@;
        let ghost sink = self.sink;
        self.ensure_txn(TransactionMode::Read);
        let Select { from, where_, group, having, order, limit, select: constructor } = select;
        let pivot = match constructor {
            Constructor::Pivot(p) => p,
            _ => {
                return Ok(());
            },
        };
        if order.is_some() || limit.is_some() || group.is_some() || having.is_some() {
            assert(!pivot_ok(s0)) by {
                reveal(pivot_ok);
            }
            return Err(
                Error::Unsupported(
                    String::from_str("pivot does not support group by, having, order by, or limit"),
                ),
            );
        }
        if from.len() == 0 {
            assert(!pivot_ok(s0)) by {
                reveal(pivot_ok);
            }
            return Err(Error::Unsupported(String::from_str("pivot requires a from clause")));
        }
        self.emit_plain(Vop::Obj);
        let ghost head = self.code@;
        let fp = analyze_from(&from);
        let ghost fv = from@;
        proof {
            assert(fp.loop_csr@ =~= from_csrs(fv));
        }
        let frame = match self.cc_loop_open(from, &fp, where_) {
            Ok(f) => f,
            Err(e) => {
                assert(!pivot_ok(s0)) by {
                    reveal(pivot_ok);
                }
                return Err(e);
            },
        };
        let ghost cb = self.code@;
        assert(loop_frame_is(frame, fv, fp.loop_csr@, fp.seeds@, s0.where_, head.len() as int)) by {
            let ob = head.len() + open_code(fv).len();
            assert(frame.loop_csr@ == fp.loop_csr@);
            assert(frame.entry@.len() == fv.len());
            assert(frame.begin@.len() == fv.len());
            assert forall|i: int| 0 <= i < fv.len() implies #[trigger] frame.entry@[i] == ob
                + begins_code(fv, fp.loop_csr@, i)->0.len() && frame.begin@[i] == ob + begins_code(
                fv,
                fp.loop_csr@,
                i + 1,
            )->0.len() - 1 by {}
        }
        proof {
            lemma_ready_mono(*pivot.name, 0, self.agg_slots as nat);
            lemma_ready_mono(*pivot.value, 0, self.agg_slots as nat);
        }
        let ghost nv = *pivot.name;
        let ghost vv = *pivot.value;
        let r = self.cc_expr(*pivot.name);
        if r.is_err() {
            assert(!pivot_ok(s0)) by {
                reveal(pivot_ok);
            }
            return r;
        }
        let ghost cn = self.code@;
        let r = self.cc_expr(*pivot.value);
        if r.is_err() {
            assert(!pivot_ok(s0)) by {
                reveal(pivot_ok);
            }
            return r;
        }
        let ghost cv = self.code@;
        self.emit_plain(Vop::ObjSet);
        let ghost pre = self.code@;
        proof {
            let lo = loop_open_code(fv, fp.loop_csr@, fp.seeds@, s0.where_)->0;
            lemma_code_chain(head, cb, cn, lo, expr_code(nv)->0);
            lemma_code_chain(head, cn, cv, lo + expr_code(nv)->0, expr_code(vv)->0);
            assert(pre.skip(cv.len() as int) =~= seq![Vop::ObjSet]);
            lemma_ops_code(pre.skip(cv.len() as int), seq![Vop::ObjSet]);
            lemma_code_chain(
                head,
                cv,
                pre,
                lo + expr_code(nv)->0 + expr_code(vv)->0,
                ops(seq![Vop::ObjSet]),
            );
        }
        assert(pivot_ok(s0)) by {
            reveal(pivot_ok);
        }
        assert(patches_ok(
            pre + next_chain(frame, frame.loop_csr@.len() as int),
            close_patches(frame, pre.len() as int),
        )) by {
            assert forall|i: int| 0 <= i < frame.begin@.len() implies #[trigger] frame.begin@[i]
                < pre.len() && patchable(pre[frame.begin@[i] as int]) by {
                assert(pre[frame.begin@[i] as int] == cb[frame.begin@[i] as int]);
            }
            if let Some(p) = frame.where_fail {
                assert(pre[p as int] == cb[p as int]);
            }
            lemma_close_patches_ok(frame, pre);
        }
        let exits = match self.cc_loop_close(&frame) {
            Ok(x) => x,
            Err(e) => {
                return Err(e);
            },
        };
        let ghost n = frame.loop_csr@.len() as int;
        let ghost nexts = pre + next_chain(frame, n);
        let ghost ps0 = close_patches(frame, pre.len() as int);
        let ghost closed = self.code@;
        proof {
            lemma_next_chain_len(frame, n);
            lemma_apply_patches(nexts, ps0, frame.begin@[0] as int);
            assert(nexts[frame.begin@[0] as int] == pre[frame.begin@[0] as int]);
        }
        self.emit_row();
        let at = self.pc();
        let r = self.patch(exits.begin0, at);
        proof {
            let ps1 = ps0.push((frame.begin@[0], at));
            assert(ps1.drop_last() =~= ps0);
            assert(self.code@ =~= apply_patches(nexts, ps1) + seq![row_op(sink)]);
            assert(pivot_is(self.code@, pre, frame, c0, s0, sink)) by {
                reveal(pivot_is);
            }
        }
        r
    }

    /// Registers every from cursor and binding cursor as in use.
    fn use_cursors(&mut self, fp: &FromPlan) -> (r: Result<(), Error>)
        requires
            old(self).wf(),
        ensures
            final(self).moved(old(self)),
            final(self).code@ == old(self).code@,
            final(self).counter_slots == old(self).counter_slots,
            final(self).agg_slots == old(self).agg_slots,
            r is Ok <==> cursors_fit(plan_cursors(*fp)),
            r is Ok ==> final(self).cursor_slots == slots_after(
                old(self).cursor_slots as int,
                plan_cursors(*fp),
            ),
    {
        let ghost all = plan_cursors(*fp);
        let ghost nl = fp.loop_csr@.len();
        let mut i: usize = 0;
        assert(all.take(0) =~= Seq::<usize>::empty());
        while i < fp.loop_csr.len()
            invariant
                i <= nl,
                all == plan_cursors(*fp),
                nl == fp.loop_csr@.len(),
                self.moved(old(self)),
                self.code@ == old(self).code@,
                self.counter_slots == old(self).counter_slots,
                self.agg_slots == old(self).agg_slots,
                cursors_fit(all.take(i as int)),
                self.cursor_slots == slots_after(old(self).cursor_slots as int, all.take(i as int)),
            decreases fp.loop_csr@.len() - i,
        {
            assert(all[i as int] == fp.loop_csr@[i as int]);
            assert(all.take(i + 1).drop_last() =~= all.take(i as int));
            let r = self.use_cursor(fp.loop_csr[i]);
            if r.is_err() {
                assert(!cursors_fit(all)) by {
                    assert(all[i as int] == usize::MAX);
                }
                return r;
            }
            assert forall|k: int| 0 <= k < i + 1 implies #[trigger] all.take(i + 1)[k]
                < usize::MAX by {
                if k < i {
                    assert(all.take(i + 1)[k] == all.take(i as int)[k]);
                }
            }
            i = i + 1;
        }
        let mut j: usize = 0;
        while j < fp.bindings.len()
            invariant
                j <= fp.bindings@.len(),
                all == plan_cursors(*fp),
                nl == fp.loop_csr@.len(),
                all.len() == nl + fp.bindings@.len(),
                self.moved(old(self)),
                self.code@ == old(self).code@,
                self.counter_slots == old(self).counter_slots,
                self.agg_slots == old(self).agg_slots,
                cursors_fit(all.take(nl + j)),
                self.cursor_slots == slots_after(old(self).cursor_slots as int, all.take(nl + j)),
            decreases fp.bindings@.len() - j,
        {
            assert(all[nl + j] == fp.bindings@[j as int].1);
            assert(all.take(nl + j + 1).drop_last() =~= all.take(nl + j));
            let r = self.use_cursor(fp.bindings[j].1);
            if r.is_err() {
                assert(!cursors_fit(all)) by {
                    assert(all[nl + j] == usize::MAX);
                }
                return r;
            }
            assert forall|k: int| 0 <= k < nl + j + 1 implies #[trigger] all.take(nl + j + 1)[k]
                < usize::MAX by {
                if k < nl + j {
                    assert(all.take(nl + j + 1)[k] == all.take(nl + j)[k]);
                }
            }
            j = j + 1;
        }
        assert(all.take(all.len() as int) =~= all);
        Ok(())
    }

    /// Re-seeds each from-binding from the sorted payload element
    /// (`element[1]`), so the projection reads it as in a live scan.
    fn emit_reseed_from_payload(&mut self, payload_csr: usize, bindings: &Vec<(String, usize)>) -> (r:
        Result<(), Error>)
        requires
            old(self).wf(),
        ensures
            final(self).moved(old(self)),
            final(self).counter_slots == old(self).counter_slots,
            final(self).agg_slots == old(self).agg_slots,
            r is Ok <==> (bindings@.len() == 0 || payload_csr < usize::MAX) && cursors_fit(
                bindings@.map_values(|p: (String, usize)| p.1),
            ),
            r is Ok ==> final(self).code@ == old(self).code@ + reseed_code(payload_csr, bindings@),
    {
        let ghost csrs = bindings@.map_values(|p: (String, usize)| p.1);
        let mut i: usize = 0;
        assert(bindings@.take(0) =~= Seq::<(String, usize)>::empty());
        while i < bindings.len()
            invariant
                i <= bindings@.len(),
                csrs == bindings@.map_values(|p: (String, usize)| p.1),
                self.moved(old(self)),
                self.counter_slots == old(self).counter_slots,
                self.agg_slots == old(self).agg_slots,
                i > 0 ==> payload_csr < usize::MAX,
                cursors_fit(csrs.take(i as int)),
                self.code@ == old(self).code@ + reseed_code(payload_csr, bindings@.take(i as int)),
            decreases bindings@.len() - i,
        {
            assert(bindings@.take(i + 1).drop_last() =~= bindings@.take(i as int));
            assert(bindings@.take(i + 1).last() == bindings@[i as int]);
            assert(csrs[i as int] == bindings@[i as int].1);
            let r = self.emit_cursor_op(Vop::LoadVal { csr: payload_csr }, payload_csr);
            if r.is_err() {
                return r;
            }
            self.emit_plain(Vop::Jpi(1));
            self.emit_plain(Vop::Jpk(bindings[i].0.clone()));
            let csr = bindings[i].1;
            let r = self.emit_cursor_op(Vop::SetVal { csr }, csr);
            if r.is_err() {
                assert(!cursors_fit(csrs)) by {
                    assert(csrs[i as int] == usize::MAX);
                }
                return r;
            }
            assert(self.code@ =~= old(self).code@ + reseed_code(payload_csr, bindings@.take(i + 1)));
            assert forall|k: int| 0 <= k < i + 1 implies #[trigger] csrs.take(i + 1)[k]
                < usize::MAX by {
                if k < i {
                    assert(csrs.take(i + 1)[k] == csrs.take(i as int)[k]);
                }
            }
            i = i + 1;
        }
        assert(bindings@.take(bindings@.len() as int) =~= bindings@);
        assert(csrs.take(csrs.len() as int) =~= csrs);
        Ok(())
    }

    /// Emits the collection phase shared by ORDER BY and GROUP BY: per
    /// surviving binding tuple, push `[key_bytes, payload]` onto the collector
    /// array, then close the read cursors and sort the collector.
    #[verifier::spinoff_prover]
    #[verifier::loop_isolation(false)]
    #[verifier::rlimit(60)]
    fn cc_collect_sorted(
        &mut self,
        from: Vec<crate::ir::From>,
        fp: &FromPlan,
        where_: Option<Expr>,
        keys: Vec<Expr>,
        dirs: Vec<bool>,
    ) -> (r: Result<(), Error>)
        requires
            old(self).wf(),
            from@.len() >= 1,
            forall|i: int| 0 <= i < from@.len() ==> from_ready(#[trigger] from@[i]),
            fp.loop_csr@.len() == from@.len(),
            where_ matches Some(w) ==> expr_ready(w, 0),
            forall|i: int| 0 <= i < keys@.len() ==> expr_ready(#[trigger] keys@[i], 0),
        ensures
            final(self).moved(old(self)),
            final(self).counter_slots == old(self).counter_slots,
            final(self).agg_slots == old(self).agg_slots,
            r is Ok <==> opens_fit(from@) && collect_items(
                from@,
                fp.loop_csr@,
                fp.seeds@,
                fp.bindings@,
                where_,
                keys@,
                dirs,
            ) is Some && cursors_fit(fp.loop_csr@) && seeds_fit(fp.seeds@) && cons_fits(
                Constructor::Identity,
                fp.bindings@,
            ),
            r is Ok ==> exists|pre: Seq<Vop>, f: LoopFrame|
                collect_sorted_is(
                    final(self).code@,
                    pre,
                    f,
                    old(self).code@,
                    from@,
                    fp.loop_csr@,
                    fp.seeds@,
                    fp.bindings@,
                    where_,
                    keys@,
                    dirs,
                ),
    {
        let ghost c0 = self.code@;
        let ghost from0 = from@;
        let ghost wv = where_;
        let ghost kv = keys@;
        let ghost dv = dirs;
        self.emit_plain(Vop::Arr);
        let ghost ca = self.code@;
        let frame = match self.cc_loop_open(from, fp, where_) {
            Ok(f) => f,
            Err(e) => {
                return Err(e);
            },
        };
        let ghost cb = self.code@;
        proof {
            assert(frame.loop_csr@ == fp.loop_csr@);
            assert(frame.entry@.len() == from0.len());
            assert(frame.begin@.len() == from0.len());
            assert(ca.len() == c0.len() + 1);
            assert(loop_frame_is(frame, from0, fp.loop_csr@, fp.seeds@, wv, c0.len() + 1int));
        }
        self.emit_plain(Vop::Arr);
        let ghost cc = self.code@;
        proof {
            assert forall|i: int| 0 <= i < keys@.len() implies expr_ready(
                #[trigger] keys@[i],
                self.agg_slots as nat,
            ) by {
                lemma_ready_mono(keys@[i], 0, self.agg_slots as nat);
            }
        }
        let r = self.cc_exprs(keys, false);
        if r.is_err() {
            return r;
        }
        let ghost cd = self.code@;
        self.emit_plain(Vop::OrderKey { dirs });
        self.emit_plain(Vop::ArrPush);
        let ghost ce = self.code@;
        let r = self.cc_select_constructor(Constructor::Identity, &fp.bindings);
        if r.is_err() {
            return r;
        }
        let ghost cf = self.code@;
        self.emit_plain(Vop::ArrPush);
        self.emit_plain(Vop::ArrPush);
        let ghost pre = self.code@;
        proof {
            let lo = loop_open_code(from0, fp.loop_csr@, fp.seeds@, wv)->0;
            let kc = exprs_code(kv, kv.len() as int, false)->0;
            let cons = cons_code(Constructor::Identity, fp.bindings@)->0;
            assert(ca.skip(c0.len() as int) =~= seq![Vop::Arr]);
            lemma_ops_code(ca.skip(c0.len() as int), seq![Vop::Arr]);
            lemma_code_chain(c0, ca, cb, ops(seq![Vop::Arr]), lo);
            assert(cc.skip(cb.len() as int) =~= seq![Vop::Arr]);
            lemma_ops_code(cc.skip(cb.len() as int), seq![Vop::Arr]);
            lemma_code_chain(c0, cb, cc, ops(seq![Vop::Arr]) + lo, ops(seq![Vop::Arr]));
            lemma_code_chain(c0, cc, cd, ops(seq![Vop::Arr]) + lo + ops(seq![Vop::Arr]), kc);
            assert(ce.skip(cd.len() as int) =~= seq![Vop::OrderKey { dirs: dv }, Vop::ArrPush]);
            lemma_ops_code(
                ce.skip(cd.len() as int),
                seq![Vop::OrderKey { dirs: dv }, Vop::ArrPush],
            );
            lemma_code_chain(
                c0,
                cd,
                ce,
                ops(seq![Vop::Arr]) + lo + ops(seq![Vop::Arr]) + kc,
                ops(seq![Vop::OrderKey { dirs: dv }, Vop::ArrPush]),
            );
            lemma_code_chain(
                c0,
                ce,
                cf,
                ops(seq![Vop::Arr]) + lo + ops(seq![Vop::Arr]) + kc + ops(
                    seq![Vop::OrderKey { dirs: dv }, Vop::ArrPush],
                ),
                cons,
            );
            assert(pre.skip(cf.len() as int) =~= seq![Vop::ArrPush, Vop::ArrPush]);
            lemma_ops_code(pre.skip(cf.len() as int), seq![Vop::ArrPush, Vop::ArrPush]);
            lemma_code_chain(
                c0,
                cf,
                pre,
                ops(seq![Vop::Arr]) + lo + ops(seq![Vop::Arr]) + kc + ops(
                    seq![Vop::OrderKey { dirs: dv }, Vop::ArrPush],
                ) + cons,
                ops(seq![Vop::ArrPush, Vop::ArrPush]),
            );
            assert(extends(pre, cb));
            assert forall|i: int| 0 <= i < frame.begin@.len() implies #[trigger] frame.begin@[i]
                < pre.len() && patchable(pre[frame.begin@[i] as int]) by {
                assert(pre[frame.begin@[i] as int] == cb[frame.begin@[i] as int]);
            }
            if let Some(p) = frame.where_fail {
                assert(pre[p as int] == cb[p as int]);
            }
            assert(frame_sites_patchable(frame, pre));
            lemma_close_patches_ok(frame, pre);
        }
        let exits = match self.cc_loop_close(&frame) {
            Ok(x) => x,
            Err(e) => {
                return Err(e);
            },
        };
        let ghost n = frame.loop_csr@.len() as int;
        let ghost nexts = pre + next_chain(frame, n);
        let ghost ps = close_patches(frame, pre.len() as int);
        let sort_pc = self.code.len();
        proof {
            lemma_next_chain_len(frame, n);
            lemma_apply_patches(nexts, ps, frame.begin@[0] as int);
            assert(nexts[frame.begin@[0] as int] == pre[frame.begin@[0] as int]);
        }
        let r = self.patch(exits.begin0, sort_pc);
        if r.is_err() {
            return r;
        }
        let ghost pp = ps.push((frame.begin@[0], sort_pc));
        proof {
            assert(pp.drop_last() =~= ps);
            assert(self.code@ == apply_patches(nexts, pp));
        }
        let ghost patched = self.code@;
        let mut i: usize = 0;
        assert(fp.loop_csr@.take(0) =~= Seq::<usize>::empty());
        while i < fp.loop_csr.len()
            invariant
                i <= fp.loop_csr@.len(),
                cursors_fit(fp.loop_csr@),
                self.moved(old(self)),
                self.counter_slots == old(self).counter_slots,
                self.agg_slots == old(self).agg_slots,
                self.code@ == patched + close_code(fp.loop_csr@.take(i as int)),
            decreases fp.loop_csr@.len() - i,
        {
            let csr = fp.loop_csr[i];
            let r = self.emit_cursor_op(Vop::Close { csr }, csr);
            if r.is_err() {
                assert(fp.loop_csr@[i as int] < usize::MAX);
                return r;
            }
            assert(close_code(fp.loop_csr@.take(i + 1)) =~= close_code(fp.loop_csr@.take(i as int)).push(
                Vop::Close { csr },
            ));
            i = i + 1;
        }
        self.emit_plain(Vop::Sort);
        proof {
            assert(fp.loop_csr@.take(i as int) =~= fp.loop_csr@);
            assert(extends(pre, c0));
            assert(collect_items(from0, fp.loop_csr@, fp.seeds@, fp.bindings@, wv, kv, dv) is Some);
            assert(code_is(
                pre.skip(c0.len() as int),
                collect_items(from0, fp.loop_csr@, fp.seeds@, fp.bindings@, wv, kv, dv)->0,
            ));
            assert(sort_pc == pre.len() + n);
            assert(self.code@ =~= apply_patches(nexts, pp) + close_code(fp.loop_csr@) + seq![Vop::Sort]);
            assert(collect_sorted_is(
                self.code@,
                pre,
                frame,
                c0,
                from0,
                fp.loop_csr@,
                fp.seeds@,
                fp.bindings@,
                wv,
                kv,
                dv,
            ));
        }
        Ok(())
    }

    /// Compiles a query with an ORDER BY in two phases over one collector:
    /// collect `[order_key_bytes, payload]` per surviving tuple and sort it,
    /// then iterate it on a payload cursor, applying the limit, re-seeding the
    /// bindings so the projection compiles as in the streaming path.
    #[verifier::spinoff_prover]
    #[verifier::rlimit(100)]
    fn cc_order(&mut self, select: Select) -> (r: Result<(), Error>)
        requires
            old(self).wf(),
            select_ok(select),
            plan_spec(select) == Plan::Order,
        ensures
            final(self).moved(old(self)),
            r is Ok <==> order_ok(
                select,
                old(self).cursor_slots as int,
                old(self).counter_slots as int,
            ),
            r is Ok ==> exists|
                tail: Seq<Vop>,
                mid: Seq<Vop>,
                pre: Seq<Vop>,
                f: LoopFrame,
                b: Seq<(String, usize)>,
                d: Vec<bool>,
            |
                order_is(
                    final(self).code@,
                    tail,
                    mid,
                    pre,
                    f,
                    b,
                    d,
                    old(self).code@,
                    select,
                    old(self).cursor_slots as int,
                    old(self).counter_slots as int,
                    old(self).sink,
                ),
    {
        let ghost s0 = select;
        let ghost c0 = self.code@;
        let ghost q0 = self.cursor_slots as int;
        let ghost k0 = self.counter_slots as int;
        let ghost sink = self.sink;
        let Select { from, where_, group: _, having: _, order, limit, select: constructor } =
            select;
        let order = match order {
            Some(o) => o,
            None => {
                return Ok(());
            },
        };
        let ghost okeys = order.keys@;
        let mut dirs: Vec<bool> = Vec::new();
        let mut keys: Vec<Expr> = Vec::new();
        let mut rest = order.keys;
        let ghost mut k: int = 0;
        while rest.len() > 0
            invariant
                0 <= k <= okeys.len(),
                rest@ == okeys.skip(k),
                forall|i: int| 0 <= i < okeys.len() ==> expr_ready(#[trigger] okeys[i].expr, 0),
                keys@.len() == k,
                dirs@.len() == k,
                forall|i: int| 0 <= i < k ==> #[trigger] keys@[i] == okeys[i].expr,
                forall|i: int| 0 <= i < k ==> #[trigger] dirs@[i] == okeys[i].desc,
            decreases rest.len(),
        {
            let ok = rest.remove(0);
            assert(ok == okeys[k]);
            dirs.push(ok.desc);
            keys.push(ok.expr);
            proof {
                k = k + 1;
            }
        }
        assert(keys@ =~= order_keys(s0.order->0));
        assert(dirs@ =~= order_dirs(s0.order->0));
        let ghost dv = dirs;
        let fp = analyze_from(&from);
        let ghost fv = from@;
        proof {
            assert(fp.loop_csr@ =~= from_csrs(fv));
            assert(fp.bindings@.map_values(|p: (String, usize)| p.1) =~= binding_csrs(fv)) by {
                assert forall|i: int| 0 <= i < fp.bindings@.len() implies fp.bindings@[i].1
                    == #[trigger] binding_csrs(fv)[i] by {
                    assert(bindings_view(fp.bindings@)[i] == from_bindings(fv)[i]);
                }
            }
            assert(plan_cursors(fp) =~= order_cursors(s0));
        }
        let r = self.use_cursors(&fp);
        if r.is_err() {
            assert(!order_ok(s0, q0, k0)) by {
                reveal(order_ok);
            }
            return r;
        }
        let payload_csr = match self.alloc_cursor() {
            Ok(c) => c,
            Err(e) => {
                assert(!order_ok(s0, q0, k0)) by {
                    reveal(order_ok);
                }
                return Err(e);
            },
        };
        proof {
            let bc = fp.bindings@.map_values(|p: (String, usize)| p.1);
            assert(plan_cursors(fp) == fp.loop_csr@ + bc);
            assert forall|i: int| 0 <= i < fp.loop_csr@.len() implies #[trigger] fp.loop_csr@[i]
                < usize::MAX by {
                assert(plan_cursors(fp)[i] == fp.loop_csr@[i]);
            }
            assert forall|i: int| 0 <= i < bc.len() implies #[trigger] bc[i] < usize::MAX by {
                assert(plan_cursors(fp)[fp.loop_csr@.len() + i] == bc[i]);
            }
            assert(cursors_fit(fp.loop_csr@));
            assert(cursors_fit(bc));
        }
        let r = self.cc_collect_sorted(from, &fp, where_, keys, dirs);
        if r.is_err() {
            assert(!order_ok(s0, q0, k0)) by {
                reveal(order_ok);
            }
            return r;
        }
        let ghost mid = self.code@;
        let (cnt_skip, cnt_take) = match self.emit_limit_counters(limit) {
            Ok(x) => x,
            Err(e) => {
                assert(!order_ok(s0, q0, k0)) by {
                    reveal(order_ok);
                }
                return Err(e);
            },
        };
        let r = self.emit_cursor_op(Vop::Iter { csr: payload_csr, jmp: 0 }, payload_csr);
        if r.is_err() {
            return r;
        }
        let begin_payload = self.pc();
        let loop_top = self.code.len();
        let (offset, limit_pc) = self.emit_limit_checks(cnt_skip, cnt_take);
        let ghost c3 = self.code@;
        let r = self.emit_reseed_from_payload(payload_csr, &fp.bindings);
        if r.is_err() {
            return r;
        }
        let ghost c4 = self.code@;
        proof {
            lemma_cons_ready(constructor, self.agg_slots as nat);
        }
        let r = self.cc_select_constructor(constructor, &fp.bindings);
        if r.is_err() {
            assert(!order_ok(s0, q0, k0)) by {
                reveal(order_ok);
            }
            return r;
        }
        let ghost c5 = self.code@;
        self.emit_row();
        let r = self.emit_cursor_op(Vop::Next { csr: payload_csr, jmp: loop_top }, payload_csr);
        if r.is_err() {
            return r;
        }
        let ghost tail = self.code@;
        assert(order_ok(s0, q0, k0)) by {
            reveal(order_ok);
        }
        let next_payload = self.pc();
        let exit = self.code.len();
        proof {
            lemma_apply_patches(tail, Seq::empty(), begin_payload as int);
        }
        let r = self.patch(begin_payload, exit);
        if r.is_err() {
            return r;
        }
        let ghost ps1 = seq![(begin_payload, exit)];
        assert(ps1.drop_last() =~= Seq::<(usize, usize)>::empty());
        let ghost ps2 = if offset is Some {
            ps1.push((offset->0, next_payload))
        } else {
            ps1
        };
        if let Some(pc) = offset {
            proof {
                assert(c3[pc as int] == Vop::CntIfPos(cnt_skip->0, 0));
                assert(tail[pc as int] == c3[pc as int]);
                lemma_apply_patches(tail, ps1, pc as int);
            }
            let r = self.patch(pc, next_payload);
            if r.is_err() {
                return r;
            }
            assert(ps2.drop_last() =~= ps1);
        }
        let ghost ps3 = if limit_pc is Some {
            ps2.push((limit_pc->0, exit))
        } else {
            ps2
        };
        if let Some(pc) = limit_pc {
            proof {
                assert(c3[pc as int] == Vop::CntIfZero(cnt_take->0, 0));
                assert(tail[pc as int] == c3[pc as int]);
                lemma_apply_patches(tail, ps2, pc as int);
            }
            let r = self.patch(pc, exit);
            if r.is_err() {
                return r;
            }
            assert(ps3.drop_last() =~= ps2);
        }
        proof {
            assert(payload_csr == slots_after(q0, order_cursors(s0)));
            assert(c3 =~= mid + limit_counters_code(limit, k0) + seq![
                Vop::Iter { csr: payload_csr, jmp: 0 },
            ] + limit_checks_code(cnt_skip, cnt_take));
            assert(tail =~= c5 + seq![row_op(sink), Vop::Next { csr: payload_csr, jmp: loop_top }]);
            let (pre, f) = choose|pre: Seq<Vop>, f: LoopFrame|
                collect_sorted_is(
                    mid,
                    pre,
                    f,
                    c0,
                    fv,
                    fp.loop_csr@,
                    fp.seeds@,
                    fp.bindings@,
                    s0.where_,
                    order_keys(s0.order->0),
                    dv,
                );
            lemma_order_is(
                self.code@,
                tail,
                mid,
                c3,
                c4,
                c5,
                pre,
                f,
                fp.bindings@,
                dv,
                c0,
                s0,
                q0,
                k0,
                sink,
            );
        }
        Ok(())
    }
}

} // verus!

verus! {

/// Every site holds a patchable instruction of `code`.
pub open spec fn sites_patchable(code: Seq<Vop>, sites: Seq<usize>) -> bool {
    forall|j: int|
        0 <= j < sites.len() ==> #[trigger] sites[j] < code.len() && patchable(code[sites[j] as int])
}

/// `code` with the jump of the instruction at each site set to `dst`.
pub open spec fn patched_at(code: Seq<Vop>, sites: Seq<usize>, dst: usize) -> Seq<Vop> {
    Seq::new(
        code.len(),
        |k: int|
            if sites.contains(k as usize) {
                with_target(code[k], dst)
            } else {
                code[k]
            },
    )
}

/// Setting a jump keeps an instruction patchable, and setting it twice to
/// the same target is setting it once.
proof fn lemma_with_target(op: Vop, dst: usize)
    ensures
        patchable(with_target(op, dst)) == patchable(op),
        patchable(op) ==> with_target(with_target(op, dst), dst) == with_target(op, dst),
{
}

/// Patching one instruction keeps every patchable instruction patchable.
proof fn lemma_patchable_kept(a: Seq<Vop>, b: Seq<Vop>, k: usize, dst: usize)
    requires
        k < a.len(),
        patchable(a[k as int]),
        b == a.update(k as int, with_target(a[k as int], dst)),
    ensures
        b.len() == a.len(),
        forall|i: int| 0 <= i < a.len() && patchable(a[i]) ==> #[trigger] patchable(b[i]),
{
    lemma_with_target(a[k as int], dst);
}

/// Setting the jumps at some sites keeps every patchable instruction
/// patchable.
proof fn lemma_patched_at_keeps(a: Seq<Vop>, sites: Seq<usize>, dst: usize)
    ensures
        patched_at(a, sites, dst).len() == a.len(),
        forall|i: int|
            0 <= i < a.len() && patchable(a[i]) ==> #[trigger] patchable(
                patched_at(a, sites, dst)[i],
            ),
{
    assert forall|i: int| 0 <= i < a.len() && patchable(a[i]) implies #[trigger] patchable(
        patched_at(a, sites, dst)[i],
    ) by {
        lemma_with_target(a[i], dst);
    }
}

/// The code that folds the current row into one term: its argument (a
/// non-null constant for `count(*)`) then `AggStep`.
pub open spec fn term_step_code(t: AggTerm) -> Option<Seq<CodeItem>> {
    let arg = match t.arg {
        None => Some(seq![CodeItem::Op(Vop::Push { val: Value::Bool(true) })]),
        Some(a) => expr_code(a),
    };
    match arg {
        Some(c) => Some(c.push(CodeItem::Op(Vop::AggStep { slot: t.slot, kind: t.kind }))),
        None => None,
    }
}

/// The step code of each term in turn; `None` when an argument does not
/// compile.
pub open spec fn term_steps_code(terms: Seq<AggTerm>) -> Option<Seq<CodeItem>>
    decreases terms.len(),
{
    if terms.len() == 0 {
        Some(Seq::empty())
    } else {
        match (term_steps_code(terms.drop_last()), term_step_code(terms.last())) {
            (Some(a), Some(b)) => Some(a + b),
            _ => None,
        }
    }
}

/// A prefix whose step code fails fails the whole list.
proof fn lemma_steps_prefix_none(terms: Seq<AggTerm>, n: int)
    requires
        0 <= n <= terms.len(),
        term_steps_code(terms.take(n)) is None,
    ensures
        term_steps_code(terms) is None,
    decreases terms.len() - n,
{
    if n == terms.len() {
        assert(terms.take(n) =~= terms);
    } else {
        assert(terms.take(n + 1).drop_last() =~= terms.take(n));
        lemma_steps_prefix_none(terms, n + 1);
    }
}

/// The resets of the terms' accumulators, in order.
pub open spec fn term_inits(terms: Seq<AggTerm>) -> Seq<Vop> {
    terms.map_values(|t: AggTerm| Vop::AggInit { slot: t.slot, kind: t.kind })
}

impl Compiler {
    /// [`Self::agg_collect`] over a projection.
    fn agg_collect_cons(
        &mut self,
        c: Constructor,
        groups: &Vec<Expr>,
        terms: &mut Vec<AggTerm>,
        bare: &mut bool,
    ) -> (r: Result<Constructor, Error>)
        requires
            old(self).wf(),
            cons_ok(c),
            !(c is Pivot),
            groups_ok(groups@),
            terms_ok(old(terms)@, old(self).agg_slots as nat),
        ensures
            final(self).wf(),
            final(self).grew_from(old(self)),
            final(self).code@ == old(self).code@,
            final(self).cursor_slots == old(self).cursor_slots,
            final(self).counter_slots == old(self).counter_slots,
            final(self).txm == old(self).txm,
            final(self).mutates_catalog == old(self).mutates_catalog,
            terms_ok(final(terms)@, final(self).agg_slots as nat),
            *old(bare) ==> *final(bare),
            !*final(bare) ==> (r matches Ok(x) ==> cons_ready(x, final(self).agg_slots as nat)),
            r is Ok <==> cons_state(c, groups@, old(terms)@, old(self).agg_slots as nat).1
                <= usize::MAX,
            r matches Ok(d) ==> cons_collected(
                c,
                d,
                groups@,
                old(terms)@,
                old(self).agg_slots as nat,
            ),
            r is Ok ==> {
                let st = cons_state(c, groups@, old(terms)@, old(self).agg_slots as nat);
                &&& final(terms)@ == st.0
                &&& final(self).agg_slots == st.1
                &&& *final(bare) == (*old(bare) || st.2)
            },
    {
        match c {
            Constructor::Identity => Ok(Constructor::Identity),
            Constructor::Star => Ok(Constructor::Star),
            Constructor::Expr(e) => match self.agg_collect(e, groups, terms, bare) {
                Ok(x) => Ok(Constructor::Expr(x)),
                Err(err) => Err(err),
            },
            Constructor::List(ms) => match self.agg_collect_members(ms, groups, terms, bare) {
                Ok(x) => Ok(Constructor::List(x)),
                Err(err) => Err(err),
            },
            Constructor::Pivot(p) => Ok(Constructor::Pivot(p)),
        }
    }

    /// Collects the aggregate terms of a projection and a HAVING predicate,
    /// returning them with the rewritten projection and predicate, and
    /// whether a bare binding reference was met.
    fn collect_terms(
        &mut self,
        constructor: Constructor,
        having: Option<Expr>,
        groups: &Vec<Expr>,
    ) -> (r: Result<(Constructor, Option<Expr>, Vec<AggTerm>, bool), Error>)
        requires
            old(self).wf(),
            cons_ok(constructor),
            !(constructor is Pivot),
            having matches Some(h) ==> proj_ok(h),
            groups_ok(groups@),
        ensures
            final(self).wf(),
            final(self).grew_from(old(self)),
            final(self).code@ == old(self).code@,
            final(self).cursor_slots == old(self).cursor_slots,
            final(self).counter_slots == old(self).counter_slots,
            final(self).txm == old(self).txm,
            final(self).mutates_catalog == old(self).mutates_catalog,
            r matches Ok((c, h, t, bare)) ==> terms_ok(t@, final(self).agg_slots as nat) && (!bare
                ==> cons_ready(c, final(self).agg_slots as nat) && (h matches Some(x) ==> expr_ready(
                x,
                final(self).agg_slots as nat,
            ))),
            r is Ok <==> terms_after(constructor, having, groups@, old(self).agg_slots as nat).1
                <= usize::MAX,
            r matches Ok((c, h, t, bare)) ==> {
                let a = cons_state(constructor, groups@, Seq::empty(), old(self).agg_slots as nat);
                let st = terms_after(constructor, having, groups@, old(self).agg_slots as nat);
                &&& cons_collected(
                    constructor,
                    c,
                    groups@,
                    Seq::empty(),
                    old(self).agg_slots as nat,
                )
                &&& match (having, h) {
                    (Some(x), Some(y)) => collected(x, y, groups@, a.0, a.1),
                    (None, None) => true,
                    _ => false,
                }
                &&& t@ == st.0
                &&& final(self).agg_slots == st.1
                &&& bare == st.2
            },
    {
        let ghost n0 = self.agg_slots as nat;
        let ghost hv = having;
        let mut terms: Vec<AggTerm> = Vec::new();
        let mut bare = false;
        let c = match self.agg_collect_cons(constructor, groups, &mut terms, &mut bare) {
            Ok(c) => c,
            Err(e) => {
                proof {
                    let a = cons_state(constructor, groups@, Seq::empty(), n0);
                    if let Some(x) = hv {
                        lemma_collect_mono(x, groups@, a.0, a.1);
                    }
                }
                return Err(e);
            },
        };
        let ghost mid = self.agg_slots as nat;
        let h = match having {
            Some(h) => match self.agg_collect(h, groups, &mut terms, &mut bare) {
                Ok(x) => Some(x),
                Err(e) => {
                    return Err(e);
                },
            },
            None => None,
        };
        proof {
            if !bare {
                lemma_cons_ready_mono(c, mid, self.agg_slots as nat);
            }
        }
        Ok((c, h, terms, bare))
    }

    /// Resets the representative-row slot and each term's accumulator.
    fn emit_group_reset(&mut self, repr_slot: usize, terms: &Vec<AggTerm>)
        requires
            old(self).wf(),
            repr_slot < old(self).agg_slots,
            terms_ok(terms@, old(self).agg_slots as nat),
        ensures
            final(self).moved(old(self)),
            final(self).same_slots(old(self)),
            final(self).code@ == old(self).code@ + seq![
                Vop::AggInit { slot: repr_slot, kind: AggKind::First },
            ] + term_inits(terms@),
    {
        self.emit(Vop::AggInit { slot: repr_slot, kind: AggKind::First });
        self.emit_term_inits(terms);
    }

    /// Resets each term's accumulator.
    fn emit_term_inits(&mut self, terms: &Vec<AggTerm>)
        requires
            old(self).wf(),
            terms_ok(terms@, old(self).agg_slots as nat),
        ensures
            final(self).moved(old(self)),
            final(self).same_slots(old(self)),
            final(self).code@ == old(self).code@ + term_inits(terms@),
    {
        let mut i: usize = 0;
        while i < terms.len()
            invariant
                i <= terms@.len(),
                self.moved(old(self)),
                self.same_slots(old(self)),
                terms_ok(terms@, self.agg_slots as nat),
                self.code@ == old(self).code@ + term_inits(terms@.take(i as int)),
            decreases terms@.len() - i,
        {
            assert(terms_ok(terms@, self.agg_slots as nat));
            assert(terms@[i as int].slot < self.agg_slots);
            self.emit(Vop::AggInit { slot: terms[i].slot, kind: terms[i].kind });
            assert(term_inits(terms@.take(i + 1)) =~= term_inits(terms@.take(i as int)).push(
                Vop::AggInit { slot: terms@[i as int].slot, kind: terms@[i as int].kind },
            ));
            i = i + 1;
        }
        assert(terms@.take(terms@.len() as int) =~= terms@);
    }

    /// Folds the current row into each term: its argument (a non-null
    /// constant for `count(*)`) then `AggStep`.
    #[verifier::loop_isolation(false)]
    fn emit_term_steps(&mut self, terms: Vec<AggTerm>) -> (r: Result<(), Error>)
        requires
            old(self).wf(),
            terms_ok(terms@, old(self).agg_slots as nat),
        ensures
            final(self).moved(old(self)),
            final(self).counter_slots == old(self).counter_slots,
            final(self).agg_slots == old(self).agg_slots,
            r is Ok <==> term_steps_code(terms@) is Some,
            r is Ok ==> code_is(
                final(self).code@.skip(old(self).code@.len() as int),
                term_steps_code(terms@)->0,
            ),
            r is Ok ==> extends(final(self).code@, old(self).code@),
    {
        let ghost all = terms@;
        let ghost c0 = self.code@;
        let mut rest = terms;
        let ghost mut k: int = 0;
        proof {
            assert(all.take(0) =~= Seq::<AggTerm>::empty());
            assert(self.code@.skip(c0.len() as int) =~= Seq::<Vop>::empty());
        }
        while rest.len() > 0
            invariant
                0 <= k <= all.len(),
                rest@ == all.skip(k),
                c0 == old(self).code@,
                terms_ok(all, self.agg_slots as nat),
                self.moved(old(self)),
                self.counter_slots == old(self).counter_slots,
                self.agg_slots == old(self).agg_slots,
                extends(self.code@, c0),
                term_steps_code(all.take(k)) is Some,
                code_is(self.code@.skip(c0.len() as int), term_steps_code(all.take(k))->0),
            decreases rest.len(),
        {
            let t = rest.remove(0);
            assert(t == all[k]);
            let ghost c1 = self.code@;
            proof {
                assert(all.take(k + 1).drop_last() =~= all.take(k));
                assert(all.take(k + 1).last() == all[k]);
            }
            let AggTerm { slot, kind, arg } = t;
            match arg {
                None => {
                    self.emit_push(Value::Bool(true));
                    proof {
                        assert(self.code@.skip(c1.len() as int) =~= seq![
                            Vop::Push { val: Value::Bool(true) },
                        ]);
                        lemma_code_chain(
                            c0,
                            c1,
                            self.code@,
                            term_steps_code(all.take(k))->0,
                            seq![CodeItem::Op(Vop::Push { val: Value::Bool(true) })],
                        );
                    }
                },
                Some(a) => {
                    proof {
                        lemma_ready_mono(a, 0, self.agg_slots as nat);
                    }
                    let r = self.cc_expr(a);
                    if r.is_err() {
                        proof {
                            lemma_steps_prefix_none(all, k + 1);
                        }
                        return r;
                    }
                    proof {
                        lemma_code_chain(
                            c0,
                            c1,
                            self.code@,
                            term_steps_code(all.take(k))->0,
                            expr_code(a)->0,
                        );
                    }
                },
            }
            let ghost c2 = self.code@;
            self.emit(Vop::AggStep { slot, kind });
            proof {
                assert(self.code@.skip(c2.len() as int) =~= seq![Vop::AggStep { slot, kind }]);
                let arg_code = match all[k].arg {
                    None => seq![CodeItem::Op(Vop::Push { val: Value::Bool(true) })],
                    Some(a) => expr_code(a)->0,
                };
                lemma_code_chain(
                    c0,
                    c2,
                    self.code@,
                    term_steps_code(all.take(k))->0 + arg_code,
                    seq![CodeItem::Op(Vop::AggStep { slot, kind })],
                );
                assert(term_steps_code(all.take(k))->0 + arg_code + seq![
                    CodeItem::Op(Vop::AggStep { slot, kind }),
                ] =~= term_steps_code(all.take(k + 1))->0);
                k = k + 1;
            }
        }
        proof {
            assert(all.take(k) =~= all);
        }
        Ok(())
    }

    /// Emits the tail of a finalize block: the HAVING guard, the limit
    /// guards, the projection and the row. Returns the sites to patch: `cont`
    /// (HAVING failed or skip not spent: drop the row, go on) and `stop`
    /// (take spent: end the output).
    fn cc_emit_group_yield(
        &mut self,
        constructor: Constructor,
        having: Option<Expr>,
        bindings: &Vec<(String, usize)>,
        cnt_skip: Option<usize>,
        cnt_take: Option<usize>,
    ) -> (r: Result<(Vec<usize>, Vec<usize>), Error>)
        requires
            old(self).wf(),
            old(self).len() >= 1,
            cons_ready(constructor, old(self).agg_slots as nat),
            having matches Some(h) ==> expr_ready(h, old(self).agg_slots as nat),
            cnt_skip matches Some(c) ==> c < old(self).counter_slots,
            cnt_take matches Some(c) ==> c < old(self).counter_slots,
        ensures
            final(self).moved(old(self)),
            final(self).counter_slots == old(self).counter_slots,
            final(self).agg_slots == old(self).agg_slots,
            r matches Ok((cont, stop)) ==> (forall|i: int|
                0 <= i < cont@.len() ==> 1 <= #[trigger] cont@[i] <= final(self).len())
                && (forall|i: int| 0 <= i < stop@.len() ==> 1 <= #[trigger] stop@[i] <= final(self).len()),
            r is Ok <==> yield_code(
                constructor,
                having,
                bindings@,
                cnt_skip,
                cnt_take,
                old(self).sink,
            ) is Some && cons_fits(constructor, bindings@),
            r matches Ok((cont, stop)) ==> {
                &&& code_is(
                    final(self).code@.skip(old(self).code@.len() as int),
                    yield_code(constructor, having, bindings@, cnt_skip, cnt_take, old(self).sink)->0,
                )
                &&& extends(final(self).code@, old(self).code@)
                &&& sites_patchable(final(self).code@, cont@)
                &&& sites_patchable(final(self).code@, stop@)
                &&& cont@ == yield_cont(old(self).code@.len() as int, having, cnt_skip)
                &&& stop@ == yield_stop(old(self).code@.len() as int, having, cnt_skip, cnt_take)
            },
    {
        let ghost c0 = self.code@;
        let mut cont: Vec<usize> = Vec::new();
        let mut stop: Vec<usize> = Vec::new();
        if let Some(h) = having {
            let r = self.cc_expr(h);
            if r.is_err() {
                return Err(r.unwrap_err());
            }
            let ghost ca = self.code@;
            self.emit(Vop::IfNot(0));
            proof {
                assert(self.code@.skip(ca.len() as int) =~= seq![Vop::IfNot(0)]);
                lemma_code_chain(
                    c0,
                    ca,
                    self.code@,
                    expr_code(h)->0,
                    seq![CodeItem::Op(Vop::IfNot(0))],
                );
                assert(expr_code(h)->0 + seq![CodeItem::Op(Vop::IfNot(0))] =~= expr_code(h)->0.push(
                    CodeItem::Op(Vop::IfNot(0)),
                ));
            }
            cont.push(self.pc());
        } else {
            assert(self.code@.skip(c0.len() as int) =~= Seq::<Vop>::empty());
        }
        let ghost c1 = self.code@;
        assert(extends(c1, c0));
        assert(c1.len() == c0.len() + guard_code(having)->0.len());
        let c1len = self.code.len();
        let (offset, limit_pc) = self.emit_limit_checks(cnt_skip, cnt_take);
        let ghost c2 = self.code@;
        proof {
            assert(c2.skip(c1.len() as int) =~= limit_checks_code(cnt_skip, cnt_take));
            lemma_ops_code(c2.skip(c1.len() as int), limit_checks_code(cnt_skip, cnt_take));
            lemma_code_chain(
                c0,
                c1,
                c2,
                guard_code(having)->0,
                ops(limit_checks_code(cnt_skip, cnt_take)),
            );
        }
        let c2len = self.code.len();
        let ghost cont1 = cont@;
        proof {
            assert forall|j: int| 0 <= j < cont1.len() implies #[trigger] cont1[j] < c2.len()
                && patchable(c2[cont1[j] as int]) by {
                assert(c2[cont1[j] as int] == c1[cont1[j] as int]);
            }
            let lc = limit_checks_code(cnt_skip, cnt_take);
            assert(c2 == c1 + lc);
            if let Some(pc) = offset {
                assert(pc == c1len);
                assert(lc[0] == Vop::CntIfPos(cnt_skip->0, 0));
                assert(c2[c1.len() as int] == lc[0]);
            }
            if let Some(pc) = limit_pc {
                let t = if cnt_skip is Some { 1int } else { 0int };
                assert(c2len == c1len + lc.len());
                assert(pc == c1len + t);
                assert(lc[t] == Vop::CntIfZero(cnt_take->0, 0));
                assert(c2[c1.len() + t] == lc[t]);
            }
        }
        if let Some(pc) = offset {
            cont.push(pc);
        }
        if let Some(pc) = limit_pc {
            stop.push(pc);
        }
        assert(forall|j: int| 0 <= j < cont@.len() ==> #[trigger] cont@[j] < c2.len() && patchable(
            c2[cont@[j] as int],
        )) by {
            assert forall|j: int| 0 <= j < cont@.len() implies #[trigger] cont@[j] < c2.len()
                && patchable(c2[cont@[j] as int]) by {
                if j < cont1.len() {
                    assert(cont@[j] == cont1[j]);
                }
            }
        }
        assert(forall|j: int| 0 <= j < stop@.len() ==> #[trigger] stop@[j] < c2.len() && patchable(
            c2[stop@[j] as int],
        ));
        let r = self.cc_select_constructor(constructor, bindings);
        if r.is_err() {
            return Err(r.unwrap_err());
        }
        let ghost c3 = self.code@;
        proof {
            lemma_code_chain(
                c0,
                c2,
                c3,
                guard_code(having)->0 + ops(limit_checks_code(cnt_skip, cnt_take)),
                cons_code(constructor, bindings@)->0,
            );
        }
        self.emit_row();
        proof {
            let row = row_op(old(self).sink);
            assert(self.code@.skip(c3.len() as int) =~= seq![row]);
            lemma_code_chain(
                c0,
                c3,
                self.code@,
                guard_code(having)->0 + ops(limit_checks_code(cnt_skip, cnt_take)) + cons_code(
                    constructor,
                    bindings@,
                )->0,
                seq![CodeItem::Op(row)],
            );
            assert(extends(self.code@, c2));
            assert forall|j: int| 0 <= j < cont@.len() implies #[trigger] cont@[j] < self.code@.len()
                && patchable(self.code@[cont@[j] as int]) by {
                assert(self.code@[cont@[j] as int] == c2[cont@[j] as int]);
            }
            assert forall|j: int| 0 <= j < stop@.len() implies #[trigger] stop@[j] < self.code@.len()
                && patchable(self.code@[stop@[j] as int]) by {
                assert(self.code@[stop@[j] as int] == c2[stop@[j] as int]);
            }
        }
        Ok((cont, stop))
    }

    /// Patches every site in `sites` to `dst`.
    fn patch_all(&mut self, sites: &Vec<usize>, dst: usize) -> (r: Result<(), Error>)
        requires
            old(self).wf(),
            dst <= old(self).len(),
            forall|i: int| 0 <= i < sites@.len() ==> 1 <= #[trigger] sites@[i],
        ensures
            final(self).moved(old(self)),
            final(self).same_slots(old(self)),
            final(self).len() == old(self).len(),
            r is Ok <==> sites_patchable(old(self).code@, sites@),
            r is Ok ==> final(self).code@ == patched_at(old(self).code@, sites@, dst),
    {
        let mut i: usize = 0;
        assert(patched_at(old(self).code@, sites@.take(0), dst) =~= old(self).code@);
        while i < sites.len()
            invariant
                i <= sites@.len(),
                self.moved(old(self)),
                self.same_slots(old(self)),
                self.len() == old(self).len(),
                dst <= self.len(),
                forall|j: int| 0 <= j < sites@.len() ==> 1 <= #[trigger] sites@[j],
                sites_patchable(old(self).code@, sites@.take(i as int)),
                self.code@ == patched_at(old(self).code@, sites@.take(i as int), dst),
            decreases sites@.len() - i,
        {
            let ghost prev = self.code@;
            let ghost k = sites@[i as int];
            proof {
                if k < prev.len() {
                    lemma_with_target(old(self).code@[k as int], dst);
                }
            }
            let r = self.patch(sites[i], dst);
            if r.is_err() {
                proof {
                    assert(!sites_patchable(old(self).code@, sites@)) by {
                        assert(sites@[i as int] == k);
                    }
                }
                return r;
            }
            let cur_len = self.code.len();
            proof {
                let t0 = sites@.take(i as int);
                let t1 = sites@.take(i + 1);
                assert(t1 =~= t0.push(k));
                assert forall|x: usize| #[trigger] t1.contains(x) <==> (t0.contains(x) || x == k) by {
                    if t1.contains(x) {
                        let j = choose|j: int| 0 <= j < t1.len() && t1[j] == x;
                        if j < t0.len() {
                            assert(t0[j] == x);
                        }
                    }
                    if t0.contains(x) {
                        let j = choose|j: int| 0 <= j < t0.len() && t0[j] == x;
                        assert(t1[j] == x);
                    }
                    if x == k {
                        assert(t1[i as int] == x);
                    }
                }
                let want = patched_at(old(self).code@, t1, dst);
                assert forall|m: int| 0 <= m < cur_len implies self.code@[m] == want[m] by {
                    if m == k {
                        assert(t1.contains(k));
                        assert(patchable(prev[m]));
                    } else {
                        assert((m as usize) != k);
                        assert(self.code@[m] == prev[m]);
                    }
                }
                assert(self.code@ =~= want);
                assert forall|j: int| 0 <= j < t1.len() implies t1[j] < old(self).code@.len()
                    && patchable(old(self).code@[t1[j] as int]) by {
                    if j < i {
                        assert(t1[j] == t0[j]);
                    }
                }
            }
            i = i + 1;
        }
        assert(sites@.take(sites@.len() as int) =~= sites@);
        Ok(())
    }

    /// Compiles an ungrouped aggregate query: the loop folds each row into
    /// the accumulators, and the outermost exhaust edge lands on the
    /// finalize block, so an empty input still yields one row.
    #[verifier::spinoff_prover]
    #[verifier::rlimit(100)]
    fn cc_aggregate(&mut self, select: Select) -> (r: Result<(), Error>)
        requires
            old(self).wf(),
            select_ok(select),
            plan_spec(select) == Plan::Aggregate,
        ensures
            final(self).moved(old(self)),
            r is Ok ==> agg_ok(select, old(self).agg_slots as nat, old(self).counter_slots as int),
            r is Ok ==> exists|
                w: Seq<Vop>,
                pre: Seq<Vop>,
                f: LoopFrame,
                b: Seq<(String, usize)>,
                c: Constructor,
                h: Option<Expr>,
            |
                agg_is(
                    final(self).code@,
                    w,
                    pre,
                    f,
                    b,
                    c,
                    h,
                    old(self).code@,
                    select,
                    old(self).agg_slots as nat,
                    old(self).counter_slots as int,
                    old(self).sink,
                ),
            agg_ok(select, old(self).agg_slots as nat, old(self).counter_slots as int)
                && agg_outputs_ok(
                select,
                old(self).agg_slots as nat,
                old(self).counter_slots as int,
                old(self).sink,
            ) ==> r is Ok,
    {
        let ghost s0 = select;
        let ghost c0 = self.code@;
        let ghost a0 = self.agg_slots as nat;
        let ghost k0 = self.counter_slots as int;
        let ghost sink = self.sink;
        if select.order.is_some() {
            assert(!agg_ok(s0, a0, k0)) by {
                reveal(agg_ok);
            }
            return Err(
                Error::Unsupported(
                    String::from_str("order by of an aggregate query is not supported"),
                ),
            );
        }
        let Select { from, where_, group: _, having, order: _, limit, select: constructor } =
            select;
        if from.len() == 0 {
            assert(!agg_ok(s0, a0, k0)) by {
                reveal(agg_ok);
            }
            return Err(Error::Unsupported(String::from_str("aggregate requires a from clause")));
        }
        let groups: Vec<Expr> = Vec::new();
        assert(groups@ =~= Seq::<Expr>::empty());
        let (constructor, having, terms, bare) = match self.collect_terms(
            constructor,
            having,
            &groups,
        ) {
            Ok(x) => x,
            Err(e) => {
                assert(!agg_ok(s0, a0, k0)) by {
                    reveal(agg_ok);
                }
                return Err(e);
            },
        };
        let ghost st = terms_after(s0.select, s0.having, Seq::empty(), a0);
        assert(agg_collected(s0, constructor, having, a0));
        if bare {
            assert(!agg_ok(s0, a0, k0)) by {
                reveal(agg_ok);
            }
            return Err(
                Error::Unsupported(
                    String::from_str("non-aggregate reference mixed with aggregates"),
                ),
            );
        }
        let ghost collected = self.agg_slots as nat;
        let fp = analyze_from(&from);
        let ghost fv = from@;
        proof {
            assert(fp.loop_csr@ =~= from_csrs(fv));
        }
        self.emit_term_inits(&terms);
        let (cnt_skip, cnt_take) = match self.emit_limit_counters(limit) {
            Ok(x) => x,
            Err(e) => {
                assert(!agg_ok(s0, a0, k0)) by {
                    reveal(agg_ok);
                }
                return Err(e);
            },
        };
        let ghost head = self.code@;
        assert(head =~= c0 + term_inits(st.0) + limit_counters_code(s0.limit, k0));
        let frame = match self.cc_loop_open(from, &fp, where_) {
            Ok(f) => f,
            Err(e) => {
                assert(!agg_ok(s0, a0, k0)) by {
                    reveal(agg_ok);
                }
                return Err(e);
            },
        };
        let ghost cb = self.code@;
        assert(loop_frame_is(frame, fv, fp.loop_csr@, fp.seeds@, s0.where_, head.len() as int)) by {
            assert(frame.entry@.len() == fv.len());
            assert(frame.begin@.len() == fv.len());
        }
        let r = self.emit_term_steps(terms);
        if r.is_err() {
            assert(!agg_ok(s0, a0, k0)) by {
                reveal(agg_ok);
            }
            return r;
        }
        let ghost pre = self.code@;
        proof {
            lemma_code_chain(
                head,
                cb,
                pre,
                loop_open_code(fv, fp.loop_csr@, fp.seeds@, s0.where_)->0,
                term_steps_code(st.0)->0,
            );
        }
        assert(agg_ok(s0, a0, k0)) by {
            reveal(agg_ok);
        }
        assert(patches_ok(
            pre + next_chain(frame, frame.loop_csr@.len() as int),
            close_patches(frame, pre.len() as int),
        )) by {
            assert forall|i: int| 0 <= i < frame.begin@.len() implies #[trigger] frame.begin@[i]
                < pre.len() && patchable(pre[frame.begin@[i] as int]) by {
                assert(pre[frame.begin@[i] as int] == cb[frame.begin@[i] as int]);
            }
            if let Some(p) = frame.where_fail {
                assert(pre[p as int] == cb[p as int]);
            }
            lemma_close_patches_ok(frame, pre);
        }
        let exits = match self.cc_loop_close(&frame) {
            Ok(x) => x,
            Err(e) => {
                return Err(e);
            },
        };
        let ghost n = frame.loop_csr@.len() as int;
        let ghost nexts = pre + next_chain(frame, n);
        let ghost ps0 = close_patches(frame, pre.len() as int);
        let fin = self.code.len();
        proof {
            lemma_next_chain_len(frame, n);
            lemma_apply_patches(nexts, ps0, frame.begin@[0] as int);
            assert(nexts[frame.begin@[0] as int] == pre[frame.begin@[0] as int]);
        }
        let r = self.patch(exits.begin0, fin);
        if r.is_err() {
            return r;
        }
        let ghost ps1 = ps0.push((frame.begin@[0], fin));
        assert(ps1.drop_last() =~= ps0);
        let ghost patched = self.code@;
        proof {
            lemma_cons_ready_mono(constructor, collected, self.agg_slots as nat);
            if having is Some {
                lemma_ready_mono(having.unwrap(), collected, self.agg_slots as nat);
            }
        }
        let ghost cv = constructor;
        let ghost hv = having;
        let (cont, stop) = match self.cc_emit_group_yield(
            constructor,
            having,
            &fp.bindings,
            cnt_skip,
            cnt_take,
        ) {
            Ok(x) => x,
            Err(e) => {
                return Err(e);
            },
        };
        let ghost w = self.code@;
        let exit = self.code.len();
        let r = self.patch_all(&cont, exit);
        if r.is_err() {
            return r;
        }
        let ghost p1 = self.code@;
        proof {
            assert forall|j: int| 0 <= j < stop@.len() implies #[trigger] stop@[j] < p1.len()
                && patchable(p1[stop@[j] as int]) by {
                lemma_with_target(w[stop@[j] as int], exit);
            }
        }
        let r = self.patch_all(&stop, exit);
        if r.is_err() {
            return r;
        }
        proof {
            assert(agg_is(self.code@, w, pre, frame, fp.bindings@, cv, hv, c0, s0, a0, k0, sink)) by {
                reveal(agg_is);
            }
        }
        r
    }
}

} // verus!

verus! {

/// Whether a grouped query `s`, its terms pulled out from the accumulator
/// slots after the key and representative slots (`aggs` and `aggs + 1`),
/// has the projection `c` and the HAVING predicate `h`.
pub open spec fn group_collected(s: Select, c: Constructor, h: Option<Expr>, aggs: nat) -> bool {
    let keys = s.group->0.keys@;
    let a = cons_state(s.select, keys, Seq::empty(), aggs + 2);
    &&& cons_collected(s.select, c, keys, Seq::empty(), aggs + 2)
    &&& match (s.having, h) {
        (Some(x), Some(y)) => collected(x, y, keys, a.0, a.1),
        (None, None) => true,
        _ => false,
    }
}

/// What a grouped query needs to compile, from `cursors` cursor, `counters`
/// counter and `aggs` accumulator slots, apart from its output: no ORDER
/// BY, a from clause, a projection that is neither `*`, `.` nor a pivot;
/// the key and representative slots and its terms' slots below the limit;
/// no reference outside its keys and aggregates; its cursors, the payload
/// and representative cursors after them below the limit; its limit's
/// counters; a prologue, key code and term steps that compile.
#[verifier::opaque]
pub open spec fn group_ok(s: Select, cursors: int, counters: int, aggs: nat) -> bool {
    let keys = s.group->0.keys@;
    let st = terms_after(s.select, s.having, keys, aggs + 2);
    &&& s.order is None
    &&& s.group is Some
    &&& s.from@.len() > 0
    &&& !(s.select is Identity || s.select is Star || s.select is Pivot)
    &&& aggs + 2 <= usize::MAX
    &&& st.1 <= usize::MAX
    &&& !st.2
    &&& cursors_fit(order_cursors(s))
    &&& slots_after(cursors, order_cursors(s)) + 2 <= usize::MAX
    &&& counters + limit_count(s.limit) <= usize::MAX
    &&& opens_fit(s.from@)
    &&& loop_open_code(s.from@, from_csrs(s.from@), from_seeds(s.from@), s.where_) is Some
    &&& exprs_code(keys, keys.len() as int, false) is Some
    &&& seeds_fit(from_seeds(s.from@))
    &&& term_steps_code(st.0) is Some
}

/// Whether a group's output compiles over the bindings `b`: its projection
/// `c` and HAVING `h`, and any same copy of them.
pub open spec fn group_output_ok(
    c: Constructor,
    h: Option<Expr>,
    b: Seq<(String, usize)>,
    skip: Option<usize>,
    take: Option<usize>,
    sink: Sink,
) -> bool {
    &&& yield_code(c, h, b, skip, take, sink) is Some
    &&& cons_fits(c, b)
    &&& forall|c1: Constructor, h1: Option<Expr>|
        #![trigger cons_same(c1, c), opt_expr_same(h1, h)]
        cons_same(c1, c) && opt_expr_same(h1, h) ==> yield_code(c1, h1, b, skip, take, sink) is Some
            && cons_fits(c1, b)
}

/// Whether every collected projection and HAVING predicate of the grouped
/// query `s` has output code over the from bindings.
pub open spec fn group_outputs_ok(s: Select, aggs: nat, counters: int, sink: Sink) -> bool {
    forall|c: Constructor, h: Option<Expr>, b: Seq<(String, usize)>|
        #![trigger group_collected(s, c, h, aggs), bindings_view(b)]
        group_collected(s, c, h, aggs) && bindings_view(b) == from_bindings(s.from@)
            ==> group_output_ok(
            c,
            h,
            b,
            at_if(limit_parts(s.limit).0 is Some, counters),
            at_if(limit_parts(s.limit).1 is Some, counters + limit_count_skip(s.limit)),
            sink,
        )
}

/// `w1` followed by a group's accumulator reset and the start of the fold
/// of one sorted element: the bindings re-seeded from the payload, the row
/// folded into the representative slot.
pub open spec fn group_fold_code(
    w1: Seq<Vop>,
    terms: Seq<AggTerm>,
    payload: usize,
    b: Seq<(String, usize)>,
    repr_slot: usize,
) -> Seq<Vop> {
    w1 + seq![Vop::AggInit { slot: repr_slot, kind: AggKind::First }] + term_inits(terms)
        + reseed_code(payload, b) + seq![
        Vop::LoadVal { csr: payload },
        Vop::Jpi(1),
        Vop::AggStep { slot: repr_slot, kind: AggKind::First },
    ]
}

/// `code` is the fold code after `w1`, its term steps `steps`, then the
/// `Next` back to `loop_top`.
pub open spec fn group_fold_is(
    code: Seq<Vop>,
    steps: Seq<Vop>,
    w1: Seq<Vop>,
    terms: Seq<AggTerm>,
    payload: usize,
    b: Seq<(String, usize)>,
    repr_slot: usize,
    loop_top: usize,
) -> bool {
    let fold = group_fold_code(w1, terms, payload, b, repr_slot);
    &&& extends(steps, fold)
    &&& code_is(steps.skip(fold.len() as int), term_steps_code(terms)->0)
    &&& code == steps + seq![Vop::Next { csr: payload, jmp: loop_top }]
}

/// `code` is the scan over a sorted group collector laid out after `mid`,
/// on the payload cursor `payload`, the group's representative row on
/// `repr_csr` and in slot `repr_slot`, the current key in slot `key_slot`,
/// with the terms `terms`, the bindings `b`, the limit's counters `skip`
/// and `take`, to `sink`. It loads each element's key: `GroupBreak` goes on
/// to fold the row while the key is the group's, else falls into the flush
/// `w1` (the output of `c1` and `h1`, same copies of the projection `c` and
/// HAVING `h`), whose end resets the accumulators; the fold (`steps`)
/// re-seeds the bindings from the payload, folds the row into the
/// representative and each term, and goes on with `Next`. When the
/// collector is exhausted, the final flush `w2` emits the last group; an
/// empty collector jumps past it, so an empty input yields no rows.
#[verifier::opaque]
pub open spec fn group_tail_is(
    code: Seq<Vop>,
    mid: Seq<Vop>,
    w1: Seq<Vop>,
    c1: Constructor,
    h1: Option<Expr>,
    steps: Seq<Vop>,
    w2: Seq<Vop>,
    c: Constructor,
    h: Option<Expr>,
    b: Seq<(String, usize)>,
    terms: Seq<AggTerm>,
    payload: usize,
    repr_csr: usize,
    key_slot: usize,
    repr_slot: usize,
    skip: Option<usize>,
    take: Option<usize>,
    sink: Sink,
) -> bool {
    let scan = mid + seq![
        Vop::Iter { csr: payload, jmp: 0 },
        Vop::LoadVal { csr: payload },
        Vop::Jpi(0),
        Vop::GroupBreak { slot: key_slot, jmp: 0 },
    ];
    let out_head = group_head(repr_csr, repr_slot, b);
    let step_at = (w1.len() + 1 + term_inits(terms).len()) as usize;
    let fold = group_fold_code(w1, terms, payload, b, repr_slot);
    let looped = steps + seq![Vop::Next { csr: payload, jmp: (mid.len() + 1) as usize }];
    let done = w2.len() as usize;
    let jumps = w2.update(mid.len() as int, Vop::Iter { csr: payload, jmp: done }).update(
        mid.len() + 3int,
        Vop::GroupBreak { slot: key_slot, jmp: step_at },
    );
    let base1 = (scan.len() + out_head.len()) as int;
    let base2 = (looped.len() + out_head.len()) as int;
    &&& cons_same(c1, c)
    &&& opt_expr_same(h1, h)
    &&& extends(w1, scan)
    &&& code_is(w1.skip(scan.len() as int), ops(out_head) + yield_code(c1, h1, b, skip, take, sink)->0)
    &&& extends(steps, fold)
    &&& code_is(steps.skip(fold.len() as int), term_steps_code(terms)->0)
    &&& extends(w2, looped)
    &&& code_is(w2.skip(looped.len() as int), ops(out_head) + yield_code(c, h, b, skip, take, sink)->0)
    &&& code == patched_at(
        patched_at(
            patched_at(
                patched_at(jumps, yield_cont(base1, h1, skip), w1.len() as usize),
                yield_cont(base2, h, skip),
                done,
            ),
            yield_stop(base1, h1, skip, take),
            done,
        ),
        yield_stop(base2, h, skip, take),
        done,
    )
}

/// `code` is what a grouped SELECT `s` emits after `old`, from `cursors`
/// cursor, `counters` counter and `aggs` accumulator slots and to `sink`:
/// the key slot (`aggs`), the representative-row slot (`aggs + 1`) and the
/// terms' accumulators reset and the limit's counters set; the collection
/// phase `mid` (as [`collect_sorted_is`] says, over the group keys, all
/// ascending), which sorts `[key, payload]` per tuple so that a group is
/// contiguous; then the scan over the sorted collector (as
/// [`group_tail_is`] says) on the payload cursor, the next free slot, with
/// the representative row on the cursor after it.
#[verifier::opaque]
pub open spec fn group_is(
    code: Seq<Vop>,
    mid: Seq<Vop>,
    pre: Seq<Vop>,
    f: LoopFrame,
    b: Seq<(String, usize)>,
    dirs: Vec<bool>,
    w1: Seq<Vop>,
    c1: Constructor,
    h1: Option<Expr>,
    steps: Seq<Vop>,
    w2: Seq<Vop>,
    c: Constructor,
    h: Option<Expr>,
    old: Seq<Vop>,
    s: Select,
    cursors: int,
    counters: int,
    aggs: nat,
    sink: Sink,
) -> bool {
    let keys = s.group->0.keys@;
    let st = terms_after(s.select, s.having, keys, aggs + 2);
    let payload = slots_after(cursors, order_cursors(s)) as usize;
    let head = old + seq![
        Vop::AggInit { slot: aggs as usize, kind: AggKind::First },
        Vop::AggInit { slot: (aggs + 1) as usize, kind: AggKind::First },
    ] + term_inits(st.0) + limit_counters_code(s.limit, counters);
    &&& group_collected(s, c, h, aggs)
    &&& bindings_view(b) == from_bindings(s.from@)
    &&& dirs@ == Seq::new(keys.len(), |i: int| false)
    &&& collect_sorted_is(
        mid,
        pre,
        f,
        head,
        s.from@,
        from_csrs(s.from@),
        from_seeds(s.from@),
        b,
        s.where_,
        keys,
        dirs,
    )
    &&& group_tail_is(
        code,
        mid,
        w1,
        c1,
        h1,
        steps,
        w2,
        c,
        h,
        b,
        st.0,
        payload,
        (payload + 1) as usize,
        aggs as usize,
        (aggs + 1) as usize,
        at_if(limit_parts(s.limit).0 is Some, counters),
        at_if(limit_parts(s.limit).1 is Some, counters + limit_count_skip(s.limit)),
        sink,
    )
}

impl Compiler {
    /// Emits one group's output: re-seed the bindings from the group's
    /// representative row, then HAVING, the limit, the projection and the
    /// row. Returns the `cont` and `stop` sites to patch.
    fn cc_group_output(
        &mut self,
        constructor: Constructor,
        having: Option<Expr>,
        repr_csr: usize,
        repr_slot: usize,
        bindings: &Vec<(String, usize)>,
        cnt_skip: Option<usize>,
        cnt_take: Option<usize>,
    ) -> (r: Result<(Vec<usize>, Vec<usize>), Error>)
        requires
            old(self).wf(),
            repr_slot < old(self).agg_slots,
            cons_ready(constructor, old(self).agg_slots as nat),
            having matches Some(h) ==> expr_ready(h, old(self).agg_slots as nat),
            cnt_skip matches Some(c) ==> c < old(self).counter_slots,
            cnt_take matches Some(c) ==> c < old(self).counter_slots,
        ensures
            final(self).moved(old(self)),
            final(self).counter_slots == old(self).counter_slots,
            final(self).agg_slots == old(self).agg_slots,
            r matches Ok((cont, stop)) ==> (forall|i: int|
                0 <= i < cont@.len() ==> 1 <= #[trigger] cont@[i] <= final(self).len())
                && (forall|i: int| 0 <= i < stop@.len() ==> 1 <= #[trigger] stop@[i] <= final(self).len()),
            r is Ok <==> repr_csr < usize::MAX && cursors_fit(
                bindings@.map_values(|p: (String, usize)| p.1),
            ) && yield_code(constructor, having, bindings@, cnt_skip, cnt_take, old(self).sink) is Some
                && cons_fits(constructor, bindings@),
            r matches Ok((cont, stop)) ==> extends(final(self).code@, old(self).code@)
                && sites_patchable(final(self).code@, cont@) && sites_patchable(
                final(self).code@,
                stop@,
            ),
            r matches Ok((cont, stop)) ==> {
                let head = group_head(repr_csr, repr_slot, bindings@);
                let base = (old(self).code@.len() + head.len()) as int;
                &&& code_is(
                    final(self).code@.skip(old(self).code@.len() as int),
                    ops(head) + yield_code(
                        constructor,
                        having,
                        bindings@,
                        cnt_skip,
                        cnt_take,
                        old(self).sink,
                    )->0,
                )
                &&& cont@ == yield_cont(base, having, cnt_skip)
                &&& stop@ == yield_stop(base, having, cnt_skip, cnt_take)
            },
    {
        let ghost c0 = self.code@;
        let ghost csrs = bindings@.map_values(|p: (String, usize)| p.1);
        self.emit(Vop::AggFinal { slot: repr_slot, kind: AggKind::First });
        let r = self.emit_cursor_op(Vop::SetVal { csr: repr_csr }, repr_csr);
        if r.is_err() {
            return Err(r.unwrap_err());
        }
        let mut i: usize = 0;
        assert(bindings@.take(0) =~= Seq::<(String, usize)>::empty());
        while i < bindings.len()
            invariant
                i <= bindings@.len(),
                repr_csr < usize::MAX,
                c0 == old(self).code@,
                csrs == bindings@.map_values(|p: (String, usize)| p.1),
                self.moved(old(self)),
                self.counter_slots == old(self).counter_slots,
                self.agg_slots == old(self).agg_slots,
                cursors_fit(csrs.take(i as int)),
                self.code@ == c0 + seq![
                    Vop::AggFinal { slot: repr_slot, kind: AggKind::First },
                    Vop::SetVal { csr: repr_csr },
                ] + unpack_code(repr_csr, bindings@.take(i as int)),
            decreases bindings@.len() - i,
        {
            assert(bindings@.take(i + 1).drop_last() =~= bindings@.take(i as int));
            assert(csrs[i as int] == bindings@[i as int].1);
            let r = self.emit_cursor_op(Vop::LoadVal { csr: repr_csr }, repr_csr);
            if r.is_err() {
                return Err(r.unwrap_err());
            }
            self.emit_plain(Vop::Jpk(bindings[i].0.clone()));
            let csr = bindings[i].1;
            let r = self.emit_cursor_op(Vop::SetVal { csr }, csr);
            if r.is_err() {
                assert(!cursors_fit(csrs)) by {
                    assert(csrs[i as int] == usize::MAX);
                }
                return Err(r.unwrap_err());
            }
            assert(self.code@ =~= c0 + seq![
                Vop::AggFinal { slot: repr_slot, kind: AggKind::First },
                Vop::SetVal { csr: repr_csr },
            ] + unpack_code(repr_csr, bindings@.take(i + 1)));
            assert forall|k: int| 0 <= k < i + 1 implies #[trigger] csrs.take(i + 1)[k]
                < usize::MAX by {
                if k < i {
                    assert(csrs.take(i + 1)[k] == csrs.take(i as int)[k]);
                }
            }
            i = i + 1;
        }
        let ghost c1 = self.code@;
        proof {
            assert(bindings@.take(i as int) =~= bindings@);
            assert(csrs.take(i as int) =~= csrs);
            let head = group_head(repr_csr, repr_slot, bindings@);
            assert(c1 =~= c0 + head);
            assert(c1.skip(c0.len() as int) =~= head);
            lemma_ops_code(c1.skip(c0.len() as int), head);
            assert(extends(c1, c0));
        }
        let r = self.cc_emit_group_yield(constructor, having, bindings, cnt_skip, cnt_take);
        proof {
            if r.is_ok() {
                lemma_code_chain(
                    c0,
                    c1,
                    self.code@,
                    ops(group_head(repr_csr, repr_slot, bindings@)),
                    yield_code(constructor, having, bindings@, cnt_skip, cnt_take, old(self).sink)->0,
                );
            }
        }
        r
    }

    /// Sets the jumps of a group scan once its code is laid out: the
    /// collector's `Iter` and the `GroupBreak`, then the flushes' drop sites
    /// (to the reset after the first flush, past the end after the last)
    /// and their stop sites (past the end).
    #[verifier::spinoff_prover]
    fn patch_group_scan(
        &mut self,
        iter_pc: usize,
        break_pc: usize,
        step_pc: usize,
        reset_pc: usize,
        cont1: &Vec<usize>,
        stop1: &Vec<usize>,
        cont2: &Vec<usize>,
        stop2: &Vec<usize>,
    ) -> (r: Result<(), Error>)
        requires
            old(self).wf(),
            1 <= iter_pc < old(self).code@.len(),
            1 <= break_pc < old(self).code@.len(),
            patchable(old(self).code@[iter_pc as int]),
            patchable(old(self).code@[break_pc as int]),
            step_pc <= old(self).code@.len(),
            reset_pc <= old(self).code@.len(),
            forall|i: int| 0 <= i < cont1@.len() ==> 1 <= #[trigger] cont1@[i],
            forall|i: int| 0 <= i < cont2@.len() ==> 1 <= #[trigger] cont2@[i],
            forall|i: int| 0 <= i < stop1@.len() ==> 1 <= #[trigger] stop1@[i],
            forall|i: int| 0 <= i < stop2@.len() ==> 1 <= #[trigger] stop2@[i],
            sites_patchable(old(self).code@, cont1@),
            sites_patchable(old(self).code@, cont2@),
            sites_patchable(old(self).code@, stop1@),
            sites_patchable(old(self).code@, stop2@),
        ensures
            final(self).moved(old(self)),
            final(self).same_slots(old(self)),
            r is Ok,
            final(self).code@ == {
                let done = old(self).code@.len() as usize;
                let c = old(self).code@;
                let jumps = c.update(iter_pc as int, with_target(c[iter_pc as int], done)).update(
                    break_pc as int,
                    with_target(c[break_pc as int], step_pc),
                );
                patched_at(
                    patched_at(
                        patched_at(patched_at(jumps, cont1@, reset_pc), cont2@, done),
                        stop1@,
                        done,
                    ),
                    stop2@,
                    done,
                )
            },
    {
        let ghost c = self.code@;
        let done = self.code.len();
        let r = self.patch(iter_pc, done);
        let ghost j1 = self.code@;
        proof {
            lemma_with_target(c[iter_pc as int], done);
        }
        let r = self.patch(break_pc, step_pc);
        let ghost j2 = self.code@;
        proof {
            lemma_patchable_kept(c, j1, iter_pc, done);
            lemma_patchable_kept(j1, j2, break_pc, step_pc);
            assert(sites_patchable(j2, cont1@));
        }
        let r = self.patch_all(cont1, reset_pc);
        let ghost j3 = self.code@;
        proof {
            lemma_patched_at_keeps(j2, cont1@, reset_pc);
            assert(sites_patchable(j3, cont2@));
        }
        let r = self.patch_all(cont2, done);
        let ghost j4 = self.code@;
        proof {
            lemma_patched_at_keeps(j3, cont2@, done);
            assert(sites_patchable(j4, stop1@));
        }
        let r = self.patch_all(stop1, done);
        let ghost j5 = self.code@;
        proof {
            lemma_patched_at_keeps(j4, stop1@, done);
            assert(sites_patchable(j5, stop2@));
        }
        self.patch_all(stop2, done)
    }

    /// Emits the fold of one sorted element after a group's flush: reset
    /// the accumulators, re-seed the bindings from the payload, fold the row
    /// into the representative and each term, and go on with `Next` to
    /// `loop_top`.
    #[verifier::spinoff_prover]
    fn cc_group_fold(
        &mut self,
        terms: Vec<AggTerm>,
        bindings: &Vec<(String, usize)>,
        payload_csr: usize,
        repr_slot: usize,
        loop_top: usize,
    ) -> (r: Result<usize, Error>)
        requires
            old(self).wf(),
            repr_slot < old(self).agg_slots,
            terms_ok(terms@, old(self).agg_slots as nat),
            loop_top <= old(self).code@.len(),
        ensures
            final(self).moved(old(self)),
            final(self).counter_slots == old(self).counter_slots,
            final(self).agg_slots == old(self).agg_slots,
            r is Ok <==> payload_csr < usize::MAX && cursors_fit(
                bindings@.map_values(|p: (String, usize)| p.1),
            ) && term_steps_code(terms@) is Some,
            r matches Ok(p) ==> p == old(self).code@.len() + 1 + term_inits(terms@).len(),
            r is Ok ==> exists|steps: Seq<Vop>|
                group_fold_is(
                    final(self).code@,
                    steps,
                    old(self).code@,
                    terms@,
                    payload_csr,
                    bindings@,
                    repr_slot,
                    loop_top,
                ),
    {
        let ghost w1 = self.code@;
        let ghost tv = terms@;
        self.emit_group_reset(repr_slot, &terms);
        let step_pc = self.code.len();
        let r = self.emit_reseed_from_payload(payload_csr, bindings);
        if r.is_err() {
            return Err(r.unwrap_err());
        }
        let r = self.emit_cursor_op(Vop::LoadVal { csr: payload_csr }, payload_csr);
        if r.is_err() {
            return Err(r.unwrap_err());
        }
        self.emit_plain(Vop::Jpi(1));
        self.emit(Vop::AggStep { slot: repr_slot, kind: AggKind::First });
        let ghost fold = self.code@;
        assert(fold =~= group_fold_code(w1, tv, payload_csr, bindings@, repr_slot));
        let r = self.emit_term_steps(terms);
        if r.is_err() {
            return Err(r.unwrap_err());
        }
        let ghost steps = self.code@;
        let r = self.emit_cursor_op(Vop::Next { csr: payload_csr, jmp: loop_top }, payload_csr);
        if r.is_err() {
            return Err(r.unwrap_err());
        }
        assert(self.code@ =~= steps + seq![Vop::Next { csr: payload_csr, jmp: loop_top }]);
        assert(group_fold_is(self.code@, steps, w1, tv, payload_csr, bindings@, repr_slot, loop_top));
        Ok(step_pc)
    }

    /// Emits the scan over a sorted group collector on `payload_csr`: per
    /// element, a key change flushes the finished group and resets the
    /// accumulators, then the row is folded in; the last group is flushed
    /// when the collector is exhausted.
    #[verifier::spinoff_prover]
    #[verifier::rlimit(100)]
    fn cc_group_scan(
        &mut self,
        constructor: Constructor,
        having: Option<Expr>,
        terms: Vec<AggTerm>,
        bindings: &Vec<(String, usize)>,
        payload_csr: usize,
        repr_csr: usize,
        key_slot: usize,
        repr_slot: usize,
        cnt_skip: Option<usize>,
        cnt_take: Option<usize>,
    ) -> (r: Result<(), Error>)
        requires
            old(self).wf(),
            old(self).len() >= 1,
            key_slot < old(self).agg_slots,
            repr_slot < old(self).agg_slots,
            terms_ok(terms@, old(self).agg_slots as nat),
            cons_ready(constructor, old(self).agg_slots as nat),
            having matches Some(h) ==> expr_ready(h, old(self).agg_slots as nat),
            cnt_skip matches Some(c) ==> c < old(self).counter_slots,
            cnt_take matches Some(c) ==> c < old(self).counter_slots,
        ensures
            final(self).moved(old(self)),
            final(self).counter_slots == old(self).counter_slots,
            final(self).agg_slots == old(self).agg_slots,
            r is Ok ==> term_steps_code(terms@) is Some,
            payload_csr < usize::MAX && repr_csr < usize::MAX && cursors_fit(
                bindings@.map_values(|p: (String, usize)| p.1),
            ) && term_steps_code(terms@) is Some && group_output_ok(
                constructor,
                having,
                bindings@,
                cnt_skip,
                cnt_take,
                old(self).sink,
            ) ==> r is Ok,
            r is Ok ==> exists|
                w1: Seq<Vop>,
                c1: Constructor,
                h1: Option<Expr>,
                steps: Seq<Vop>,
                w2: Seq<Vop>,
            |
                group_tail_is(
                    final(self).code@,
                    old(self).code@,
                    w1,
                    c1,
                    h1,
                    steps,
                    w2,
                    constructor,
                    having,
                    bindings@,
                    terms@,
                    payload_csr,
                    repr_csr,
                    key_slot,
                    repr_slot,
                    cnt_skip,
                    cnt_take,
                    old(self).sink,
                ),
    {
        let ghost mid = self.code@;
        let ghost sink = self.sink;
        let ghost tv = terms@;
        let r = self.emit_cursor_op(Vop::Iter { csr: payload_csr, jmp: 0 }, payload_csr);
        if r.is_err() {
            return r;
        }
        let iter_pc = self.pc();
        let loop_top = self.code.len();
        let r = self.emit_cursor_op(Vop::LoadVal { csr: payload_csr }, payload_csr);
        if r.is_err() {
            return r;
        }
        self.emit_plain(Vop::Jpi(0));
        self.emit(Vop::GroupBreak { slot: key_slot, jmp: 0 });
        let break_pc = self.pc();
        let ghost scan = self.code@;
        assert(scan =~= mid + seq![
            Vop::Iter { csr: payload_csr, jmp: 0 },
            Vop::LoadVal { csr: payload_csr },
            Vop::Jpi(0),
            Vop::GroupBreak { slot: key_slot, jmp: 0 },
        ]);
        let constructor2 = copy_constructor(&constructor);
        let having2 = match &having {
            Some(h) => Some(copy_expr(h)),
            None => None,
        };
        assert(opt_expr_same(having2, having));
        proof {
            lemma_cons_ready_same(constructor2, constructor, self.agg_slots as nat);
            if having is Some {
                lemma_ready_same(having2.unwrap(), having.unwrap(), self.agg_slots as nat);
            }
        }
        let (cont1, stop1) = match self.cc_group_output(
            constructor2,
            having2,
            repr_csr,
            repr_slot,
            bindings,
            cnt_skip,
            cnt_take,
        ) {
            Ok(x) => x,
            Err(e) => {
                return Err(e);
            },
        };
        let ghost w1 = self.code@;
        let reset_pc = self.code.len();
        let step_pc = match self.cc_group_fold(terms, bindings, payload_csr, repr_slot, loop_top) {
            Ok(p) => p,
            Err(e) => {
                return Err(e);
            },
        };
        let ghost looped = self.code@;
        let ghost steps = choose|steps: Seq<Vop>|
            group_fold_is(looped, steps, w1, tv, payload_csr, bindings@, repr_slot, loop_top);
        let (cont2, stop2) = match self.cc_group_output(
            constructor,
            having,
            repr_csr,
            repr_slot,
            bindings,
            cnt_skip,
            cnt_take,
        ) {
            Ok(x) => x,
            Err(e) => {
                return Err(e);
            },
        };
        let ghost w2 = self.code@;
        proof {
            assert(extends(looped, scan));
            assert(w2[iter_pc as int] == scan[iter_pc as int]);
            assert(w2[break_pc as int] == scan[break_pc as int]);
            assert(sites_patchable(w2, cont1@)) by {
                assert forall|j: int| 0 <= j < cont1@.len() implies #[trigger] cont1@[j] < w2.len()
                    && patchable(w2[cont1@[j] as int]) by {
                    assert(w2[cont1@[j] as int] == w1[cont1@[j] as int]);
                }
            }
            assert(sites_patchable(w2, stop1@)) by {
                assert forall|j: int| 0 <= j < stop1@.len() implies #[trigger] stop1@[j] < w2.len()
                    && patchable(w2[stop1@[j] as int]) by {
                    assert(w2[stop1@[j] as int] == w1[stop1@[j] as int]);
                }
            }
        }
        let r = self.patch_group_scan(
            iter_pc,
            break_pc,
            step_pc,
            reset_pc,
            &cont1,
            &stop1,
            &cont2,
            &stop2,
        );
        proof {
            assert(group_tail_is(
                self.code@,
                mid,
                w1,
                constructor2,
                having2,
                steps,
                w2,
                constructor,
                having,
                bindings@,
                tv,
                payload_csr,
                repr_csr,
                key_slot,
                repr_slot,
                cnt_skip,
                cnt_take,
                sink,
            )) by {
                reveal(group_tail_is);
            }
        }
        r
    }

    /// Compiles a GROUP BY query: collect `[group_key_bytes, payload]` per
    /// tuple and sort, so each group is contiguous; then stream the sorted
    /// rows through one accumulator bank, flushing a finished group when the
    /// key changes (`GroupBreak`) and once more at the end. A transition slot
    /// holds the current key and a `First` slot the group's representative
    /// row. An empty input yields no rows.
    #[verifier::spinoff_prover]
    #[verifier::rlimit(100)]
    fn cc_group(&mut self, select: Select) -> (r: Result<(), Error>)
        requires
            old(self).wf(),
            select_ok(select),
            plan_spec(select) == Plan::Group,
        ensures
            final(self).wf(),
            final(self).grew_from(old(self)),
            final(self).txm == Some(mode_join(TransactionMode::Read, old(self).txm)),
            final(self).mutates_catalog == old(self).mutates_catalog,
            final(self).head_kept(old(self)),
            r is Ok ==> group_ok(
                select,
                old(self).cursor_slots as int,
                old(self).counter_slots as int,
                old(self).agg_slots as nat,
            ),
            r is Ok ==> exists|
                mid: Seq<Vop>,
                pre: Seq<Vop>,
                f: LoopFrame,
                b: Seq<(String, usize)>,
                d: Vec<bool>,
                w1: Seq<Vop>,
                c1: Constructor,
                h1: Option<Expr>,
                steps: Seq<Vop>,
                w2: Seq<Vop>,
                c: Constructor,
                h: Option<Expr>,
            |
                group_is(
                    final(self).code@,
                    mid,
                    pre,
                    f,
                    b,
                    d,
                    w1,
                    c1,
                    h1,
                    steps,
                    w2,
                    c,
                    h,
                    old(self).code@,
                    select,
                    old(self).cursor_slots as int,
                    old(self).counter_slots as int,
                    old(self).agg_slots as nat,
                    old(self).sink,
                ),
            group_ok(
                select,
                old(self).cursor_slots as int,
                old(self).counter_slots as int,
                old(self).agg_slots as nat,
            ) && group_outputs_ok(
                select,
                old(self).agg_slots as nat,
                old(self).counter_slots as int,
                old(self).sink,
            ) ==> r is Ok,
    {
        let ghost s0 = select;
        let ghost c0 = self.code@;
        let ghost q0 = self.cursor_slots as int;
        let ghost k0 = self.counter_slots as int;
        let ghost a0 = self.agg_slots as nat;
        let ghost sink = self.sink;
        self.ensure_txn(TransactionMode::Read);
        if select.order.is_some() {
            assert(!group_ok(s0, q0, k0, a0)) by {
                reveal(group_ok);
            }
            return Err(
                Error::Unsupported(
                    String::from_str("order by of a grouped query is not supported"),
                ),
            );
        }
        let Select { from, where_, group, having, order: _, limit, select: constructor } = select;
        let group = match group {
            Some(g) => g,
            None => {
                return Ok(());
            },
        };
        if from.len() == 0 {
            assert(!group_ok(s0, q0, k0, a0)) by {
                reveal(group_ok);
            }
            return Err(Error::Unsupported(String::from_str("group by requires a from clause")));
        }
        match constructor {
            Constructor::Identity | Constructor::Star | Constructor::Pivot(_) => {
                assert(!group_ok(s0, q0, k0, a0)) by {
                    reveal(group_ok);
                }
                return Err(
                    Error::Unsupported(
                        String::from_str("select * / select . is not supported with group by"),
                    ),
                );
            },
            _ => {},
        }
        let group_keys = group.keys;
        let ghost keys = group_keys@;
        let prevkey_slot = match self.alloc_agg() {
            Ok(s) => s,
            Err(e) => {
                assert(!group_ok(s0, q0, k0, a0)) by {
                    reveal(group_ok);
                }
                return Err(e);
            },
        };
        let repr_slot = match self.alloc_agg() {
            Ok(s) => s,
            Err(e) => {
                assert(!group_ok(s0, q0, k0, a0)) by {
                    reveal(group_ok);
                }
                return Err(e);
            },
        };
        let (constructor, having, terms, bare) = match self.collect_terms(
            constructor,
            having,
            &group_keys,
        ) {
            Ok(x) => x,
            Err(e) => {
                assert(!group_ok(s0, q0, k0, a0)) by {
                    reveal(group_ok);
                }
                return Err(e);
            },
        };
        let ghost st = terms_after(s0.select, s0.having, keys, a0 + 2);
        assert(group_collected(s0, constructor, having, a0));
        if bare {
            assert(!group_ok(s0, q0, k0, a0)) by {
                reveal(group_ok);
            }
            return Err(
                Error::Unsupported(
                    String::from_str(
                        "a grouped projection may only reference group keys and aggregates",
                    ),
                ),
            );
        }
        let fp = analyze_from(&from);
        let ghost fv = from@;
        proof {
            assert(fp.loop_csr@ =~= from_csrs(fv));
            assert(fp.bindings@.map_values(|p: (String, usize)| p.1) =~= binding_csrs(fv)) by {
                assert forall|i: int| 0 <= i < fp.bindings@.len() implies fp.bindings@[i].1
                    == #[trigger] binding_csrs(fv)[i] by {
                    assert(bindings_view(fp.bindings@)[i] == from_bindings(fv)[i]);
                }
            }
            assert(plan_cursors(fp) =~= order_cursors(s0));
        }
        let r = self.use_cursors(&fp);
        if r.is_err() {
            assert(!group_ok(s0, q0, k0, a0)) by {
                reveal(group_ok);
            }
            return r;
        }
        let payload_csr = match self.alloc_cursor() {
            Ok(c) => c,
            Err(e) => {
                assert(!group_ok(s0, q0, k0, a0)) by {
                    reveal(group_ok);
                }
                return Err(e);
            },
        };
        let repr_csr = match self.alloc_cursor() {
            Ok(c) => c,
            Err(e) => {
                assert(!group_ok(s0, q0, k0, a0)) by {
                    reveal(group_ok);
                }
                return Err(e);
            },
        };
        proof {
            let bc = fp.bindings@.map_values(|p: (String, usize)| p.1);
            assert(plan_cursors(fp) == fp.loop_csr@ + bc);
            if cursors_fit(plan_cursors(fp)) {
                assert forall|i: int| 0 <= i < fp.loop_csr@.len() implies #[trigger] fp.loop_csr@[i]
                    < usize::MAX by {
                    assert(plan_cursors(fp)[i] == fp.loop_csr@[i]);
                }
                assert forall|i: int| 0 <= i < bc.len() implies #[trigger] bc[i] < usize::MAX by {
                    assert(plan_cursors(fp)[fp.loop_csr@.len() + i] == bc[i]);
                }
            }
        }
        self.emit(Vop::AggInit { slot: prevkey_slot, kind: AggKind::First });
        self.emit_group_reset(repr_slot, &terms);
        let (cnt_skip, cnt_take) = match self.emit_limit_counters(limit) {
            Ok(x) => x,
            Err(e) => {
                assert(!group_ok(s0, q0, k0, a0)) by {
                    reveal(group_ok);
                }
                return Err(e);
            },
        };
        let ghost head = self.code@;
        assert(head =~= c0 + seq![
            Vop::AggInit { slot: a0 as usize, kind: AggKind::First },
            Vop::AggInit { slot: (a0 + 1) as usize, kind: AggKind::First },
        ] + term_inits(st.0) + limit_counters_code(s0.limit, k0));
        let mut dirs: Vec<bool> = Vec::new();
        let mut d: usize = 0;
        while d < group_keys.len()
            invariant
                d <= group_keys@.len(),
                dirs@ =~= Seq::new(d as nat, |i: int| false),
            decreases group_keys@.len() - d,
        {
            dirs.push(false);
            d = d + 1;
        }
        let ghost dv = dirs;
        let r = self.cc_collect_sorted(from, &fp, where_, group_keys, dirs);
        if r.is_err() {
            assert(!group_ok(s0, q0, k0, a0)) by {
                reveal(group_ok);
            }
            return r;
        }
        let ghost mid = self.code@;
        proof {
            assert(group_output_ok(
                constructor,
                having,
                fp.bindings@,
                cnt_skip,
                cnt_take,
                sink,
            ) <== group_outputs_ok(s0, a0, k0, sink)) by {
                assert(group_collected(s0, constructor, having, a0));
                assert(bindings_view(fp.bindings@) == from_bindings(s0.from@));
            }
        }
        let r = self.cc_group_scan(
            constructor,
            having,
            terms,
            &fp.bindings,
            payload_csr,
            repr_csr,
            prevkey_slot,
            repr_slot,
            cnt_skip,
            cnt_take,
        );
        if r.is_err() {
            assert(!(group_ok(s0, q0, k0, a0) && group_outputs_ok(s0, a0, k0, sink))) by {
                reveal(group_ok);
            }
            return r;
        }
        proof {
            assert(group_ok(s0, q0, k0, a0)) by {
                reveal(group_ok);
            }
            let (pre, f) = choose|pre: Seq<Vop>, f: LoopFrame|
                collect_sorted_is(
                    mid,
                    pre,
                    f,
                    head,
                    fv,
                    fp.loop_csr@,
                    fp.seeds@,
                    fp.bindings@,
                    s0.where_,
                    keys,
                    dv,
                );
            let (w1, c1, h1, steps, w2) = choose|
                w1: Seq<Vop>,
                c1: Constructor,
                h1: Option<Expr>,
                steps: Seq<Vop>,
                w2: Seq<Vop>,
            |
                group_tail_is(
                    self.code@,
                    mid,
                    w1,
                    c1,
                    h1,
                    steps,
                    w2,
                    constructor,
                    having,
                    fp.bindings@,
                    st.0,
                    payload_csr,
                    repr_csr,
                    prevkey_slot,
                    repr_slot,
                    cnt_skip,
                    cnt_take,
                    sink,
                );
            assert(group_is(
                self.code@,
                mid,
                pre,
                f,
                fp.bindings@,
                dv,
                w1,
                c1,
                h1,
                steps,
                w2,
                constructor,
                having,
                c0,
                s0,
                q0,
                k0,
                a0,
                sink,
            )) by {
                reveal(group_is);
            }
        }
        r
    }
}

} // verus!

verus! {

/// A bound statement: what the binder guarantees the compiler.
pub open spec fn statement_ok(s: Statement) -> bool {
    match s {
        Statement::Select(q) => select_ok(q),
        Statement::Insert(i) => i.target.oid is Some && forall|k: int|
            0 <= k < i.source@.len() ==> expr_ready(#[trigger] i.source@[k], 0),
        Statement::Delete(d) => d.where_ matches Some(w) ==> expr_ready(w, 0),
        Statement::Drop(d) => d.oid is Some,
        Statement::Clear(c) => c.oid is Some,
        Statement::Create(_) => true,
    }
}

/// The transaction a statement runs in: a SELECT reads, anything else
/// writes.
pub open spec fn statement_mode(s: Statement) -> TransactionMode {
    if s is Select {
        TransactionMode::Read
    } else {
        TransactionMode::Write
    }
}

/// Whether a statement changes which tables the catalog holds.
pub open spec fn statement_mutates_catalog(s: Statement) -> bool {
    s is Create || s is Drop
}

/// A program laid out in its three blocks: `Init` at the start jumps to the
/// transaction block, the body ends at `Halt`, and the last two
/// instructions open the transaction in `mode` and jump back to the body.
/// Every jump lands inside the program and every slot is allocated.
pub open spec fn program_ok(p: Program, mode: TransactionMode) -> bool {
    let code = p.instructions@;
    let n = code.len();
    &&& n >= 4
    &&& code_ok(code, (n - 1) as nat, p.cursors as nat, p.counters as nat, p.aggs as nat)
    &&& code[0] == Vop::Init { jmp: (n - 2) as usize }
    &&& code[n - 3] == Vop::Halt
    &&& code[n - 2] == Vop::Transaction { txm: mode }
    &&& code[n - 1] == Vop::Jump { jmp: 1 }
}

/// The program of `drop table` on the table with oid `oid`: delete its
/// catalog row, then clear its btree.
pub open spec fn drop_program(oid: u32) -> Seq<Vop> {
    seq![
        Vop::Init { jmp: 6 },
        Vop::Open { csr: 0, tbl: CATALOG_OID },
        Vop::Push { val: Value::Oid(oid) },
        Vop::Delete { csr: 0 },
        Vop::Clear { tbl: oid },
        Vop::Halt,
        Vop::Transaction { txm: TransactionMode::Write },
        Vop::Jump { jmp: 1 },
    ]
}

/// The program of `create table`, around the push of its catalog row
/// `push`: open the catalog, push the row, give it a fresh oid and a new
/// btree, and store it.
pub open spec fn create_table_program(push: Vop) -> Seq<Vop> {
    seq![
        Vop::Init { jmp: 7 },
        Vop::Open { csr: 0, tbl: CATALOG_OID },
        push,
        Vop::NewOid { csr: 0 },
        Vop::NewBtree,
        Vop::Insert { csr: 0 },
        Vop::Halt,
        Vop::Transaction { txm: TransactionMode::Write },
        Vop::Jump { jmp: 1 },
    ]
}

/// The program of `clear` on the table with oid `oid`.
pub open spec fn clear_program(oid: u32) -> Seq<Vop> {
    seq![
        Vop::Init { jmp: 3 },
        Vop::Clear { tbl: oid },
        Vop::Halt,
        Vop::Transaction { txm: TransactionMode::Write },
        Vop::Jump { jmp: 1 },
    ]
}

/// How an INSERT stores a row it has computed into cursor `csr`: keyed by
/// a fresh id for a keyless table, else by its encoded key columns.
pub open spec fn row_store(keys: Seq<Key>, csr: usize) -> Seq<CodeItem> {
    seq![
        if keys.len() == 0 {
            CodeItem::Op(Vop::NewOid { csr })
        } else {
            CodeItem::EncodeKey(keys)
        },
        CodeItem::Op(Vop::Insert { csr }),
    ]
}

/// The code of the first `n` rows of an INSERT: each row's value, then its
/// store.
pub open spec fn rows_code(rows: Seq<Expr>, n: int, keys: Seq<Key>, csr: usize) -> Option<
    Seq<CodeItem>,
>
    decreases n,
{
    if n <= 0 {
        Some(Seq::empty())
    } else if n > rows.len() {
        None
    } else {
        match (rows_code(rows, n - 1, keys, csr), expr_code(rows[n - 1])) {
            (Some(a), Some(b)) => Some(a + b + row_store(keys, csr)),
            _ => None,
        }
    }
}

/// The code of an INSERT through cursor `csr`: open the target, then
/// compute and store each row in turn.
pub open spec fn insert_code(ins: Insert, csr: usize) -> Option<Seq<CodeItem>> {
    match rows_code(ins.source@, ins.source@.len() as int, ins.target.keys@, csr) {
        Some(rows) => Some(
            seq![
                CodeItem::Op(
                    Vop::Open {
                        csr,
                        tbl: match ins.target.oid {
                            Some(o) => o,
                            None => 0,
                        },
                    },
                ),
            ] + rows,
        ),
        None => None,
    }
}

/// The cursor a DELETE's key collection gets: the next free slot once the
/// target cursor `t` is in use.
pub open spec fn delete_slot(slots: usize, t: usize) -> int {
    if t >= slots {
        t + 1
    } else {
        slots as int
    }
}

/// Whether a DELETE compiles with `slots` cursors in use: its target is
/// bound to a cursor and a table, the slots do not overflow, and its filter
/// (if any) compiles.
pub open spec fn delete_ok(d: Delete, slots: usize) -> bool {
    &&& d.from.csr is Some
    &&& d.from.oid is Some
    &&& (d.from.csr->0 as usize) < usize::MAX
    &&& delete_slot(slots, d.from.csr->0 as usize) < usize::MAX
    &&& d.where_ matches Some(w) ==> expr_code(w) is Some
}

/// The code of a DELETE starting at `base`, with target cursor `t` and key
/// cursor `k`, in two passes: scan the target, pushing the key of each row
/// that passes the filter onto an array, then close it and delete each
/// collected key.
pub open spec fn delete_code(d: Delete, base: int, k: usize) -> Seq<CodeItem> {
    let t = d.from.csr->0 as usize;
    let w = match d.where_ {
        Some(x) => expr_code(x)->0,
        None => Seq::empty(),
    };
    let q = base + 3 + w.len() + if d.where_ is Some {
        1int
    } else {
        0int
    };
    let filter = if d.where_ is Some {
        w.push(CodeItem::Op(Vop::IfNot((q + 2) as usize)))
    } else {
        Seq::empty()
    };
    seq![
        CodeItem::Op(Vop::Arr),
        CodeItem::Op(Vop::Open { csr: t, tbl: d.from.oid->0 }),
        CodeItem::Op(Vop::Scan { csr: t, jmp: (q + 3) as usize, prefix: ScanPrefix::Whole }),
    ] + filter + seq![
        CodeItem::Op(Vop::LoadKey { csr: t }),
        CodeItem::Op(Vop::ArrPush),
        CodeItem::Op(Vop::Next { csr: t, jmp: (base + 3) as usize }),
        CodeItem::Op(Vop::Close { csr: t }),
        CodeItem::Op(Vop::Iter { csr: k, jmp: (q + 8) as usize }),
        CodeItem::Op(Vop::LoadVal { csr: k }),
        CodeItem::Op(Vop::Delete { csr: t }),
        CodeItem::Op(Vop::Next { csr: k, jmp: (q + 5) as usize }),
    ]
}

/// Code laid out instruction by instruction as a DELETE's is its code.
proof fn lemma_delete_code(d: Delete, base: int, k: usize, fin: Seq<Vop>)
    requires
        0 <= base,
        d.where_ matches Some(x) ==> expr_code(x) is Some,
        ({
            let t = d.from.csr->0 as usize;
            let w = match d.where_ {
                Some(x) => expr_code(x)->0,
                None => Seq::empty(),
            };
            let has = d.where_ is Some;
            let q = base + 3 + w.len() + if has {
                1int
            } else {
                0int
            };
            &&& fin.len() == q + 8
            &&& fin[base] == Vop::Arr
            &&& fin[base + 1] == Vop::Open { csr: t, tbl: d.from.oid->0 }
            &&& fin[base + 2] == Vop::Scan { csr: t, jmp: (q + 3) as usize, prefix: ScanPrefix::Whole }
            &&& has ==> code_is(fin.subrange(base + 3, base + 3 + w.len()), w)
            &&& has ==> fin[q - 1] == Vop::IfNot((q + 2) as usize)
            &&& fin[q] == Vop::LoadKey { csr: t }
            &&& fin[q + 1] == Vop::ArrPush
            &&& fin[q + 2] == Vop::Next { csr: t, jmp: (base + 3) as usize }
            &&& fin[q + 3] == Vop::Close { csr: t }
            &&& fin[q + 4] == Vop::Iter { csr: k, jmp: (q + 8) as usize }
            &&& fin[q + 5] == Vop::LoadVal { csr: k }
            &&& fin[q + 6] == Vop::Delete { csr: t }
            &&& fin[q + 7] == Vop::Next { csr: k, jmp: (q + 5) as usize }
        }),
    ensures
        code_is(fin.skip(base), delete_code(d, base, k)),
{
    let w = match d.where_ {
        Some(x) => expr_code(x)->0,
        None => Seq::empty(),
    };
    let wl = w.len() as int;
    let e = delete_code(d, base, k);
    assert forall|i: int| 0 <= i < fin.len() - base implies item_is(
        #[trigger] fin.skip(base)[i],
        e[i],
    ) by {
        assert(fin.skip(base)[i] == fin[base + i]);
        if d.where_ is Some && 3 <= i < 3 + wl {
            assert(fin.subrange(base + 3, base + 3 + wl)[i - 3] == fin[base + i]);
        }
    }
}

/// No code compiles from some first rows when it does not from fewer.
proof fn lemma_rows_none(rows: Seq<Expr>, k: int, m: int, keys: Seq<Key>, csr: usize)
    requires
        0 <= k <= m <= rows.len(),
        rows_code(rows, k, keys, csr) is None,
    ensures
        rows_code(rows, m, keys, csr) is None,
    decreases m - k,
{
    if k < m {
        lemma_rows_none(rows, k, m - 1, keys, csr);
    }
}

/// A catalog row: `{name, sql, type: "table"}`.
pub open spec fn is_catalog_row(v: Value, name: Seq<char>, sql: Seq<char>) -> bool {
    &&& v matches Value::Object(fs)
    &&& fs@.len() == 3
    &&& fs@[0].key@ == "name"@ && (fs@[0].value matches Value::String(s) && s@ == name)
    &&& fs@[1].key@ == "sql"@ && (fs@[1].value matches Value::String(s) && s@ == sql)
    &&& fs@[2].key@ == "type"@ && (fs@[2].value matches Value::String(s) && s@ == "table"@)
}

/// A declared key type a key can have: int or string.
pub open spec fn key_type_ok(ty: Type) -> bool {
    ty is Int || ty is String
}

/// More room for jumps keeps a program fine.
pub proof fn lemma_code_ok_mono(code: Seq<Vop>, len: nat, more: nat, c: nat, k: nat, a: nat)
    requires
        code_ok(code, len, c, k, a),
        len <= more,
    ensures
        code_ok(code, more, c, k, a),
{
    assert forall|i: int| 0 <= i < code.len() implies op_ok(#[trigger] code[i], more, c, k, a) by {
        assert(op_ok(code[i], len, c, k, a));
    }
}

impl Compiler {
    /// A compiler with nothing emitted, allocated or decided yet.
    pub closed spec fn fresh(&self) -> bool {
        &&& self.code@.len() == 0
        &&& self.cursor_slots == 0
        &&& self.counter_slots == 0
        &&& self.agg_slots == 0
        &&& self.sink == Sink::Yield
        &&& self.txm is None
        &&& !self.mutates_catalog
    }

    /// Compiles an INSERT: open the target, then build and store each row,
    /// keyed by its key columns or, for a keyless table, by a fresh id.
    #[verifier::loop_isolation(false)]
    fn cc_insert(&mut self, insert: Insert) -> (r: Result<(), Error>)
        requires
            old(self).wf(),
            statement_ok(Statement::Insert(insert)),
        ensures
            final(self).wf(),
            final(self).grew_from(old(self)),
            final(self).head_kept(old(self)),
            final(self).txm == Some(mode_join(TransactionMode::Write, old(self).txm)),
            final(self).mutates_catalog == old(self).mutates_catalog,
            r is Ok <==> old(self).cursor_slots < usize::MAX && insert_code(
                insert,
                old(self).cursor_slots,
            ) is Some,
            r is Ok ==> code_is(
                final(self).code@.skip(old(self).code@.len() as int),
                insert_code(insert, old(self).cursor_slots)->0,
            ),
    {
        let ghost whole = insert;
        let ghost c0 = self.code@;
        self.ensure_txn(TransactionMode::Write);
        let ghost start = *self;
        let csr = match self.alloc_cursor() {
            Ok(c) => c,
            Err(e) => {
                return Err(e);
            },
        };
        let tbl = match insert.target.oid {
            Some(o) => o,
            None => 0,
        };
        self.emit(Vop::Open { csr, tbl });
        let ghost c1 = self.code@;
        let members = insert.target.keys;
        let ghost keys = members@;
        let ghost all = insert.source@;
        let mut rest = insert.source;
        let ghost mut k: int = 0;
        proof {
            assert(self.code@.skip(c1.len() as int) =~= Seq::<Vop>::empty());
        }
        while rest.len() > 0
            invariant
                0 <= k <= all.len(),
                rest@ == all.skip(k),
                forall|i: int| 0 <= i < all.len() ==> expr_ready(#[trigger] all[i], 0),
                self.moved(&start),
                csr < self.cursor_slots,
                extends(self.code@, c1),
                members@ == keys,
                rows_code(all, k, keys, csr) is Some,
                code_is(self.code@.skip(c1.len() as int), rows_code(all, k, keys, csr)->0),
            decreases rest.len(),
        {
            let val = rest.remove(0);
            let ghost c2 = self.code@;
            assert(val == all[k]);
            proof {
                lemma_ready_mono(val, 0, self.agg_slots as nat);
            }
            let r = self.cc_expr(val);
            if r.is_err() {
                proof {
                    lemma_rows_none(all, k + 1, all.len() as int, keys, csr);
                    assert(all.skip(0) =~= all);
                }
                return r;
            }
            let ghost c3 = self.code@;
            if members.len() == 0 {
                self.emit(Vop::NewOid { csr });
            } else {
                self.emit_plain(Vop::EncodeKey { keys: copy_keys(&members) });
            }
            self.emit(Vop::Insert { csr });
            proof {
                lemma_code_chain(c1, c2, c3, rows_code(all, k, keys, csr)->0, expr_code(all[k])->0);
                let d = self.code@.skip(c3.len() as int);
                assert(d.len() == 2);
                assert(item_is(d[0], row_store(keys, csr)[0]));
                assert(item_is(d[1], row_store(keys, csr)[1]));
                lemma_code_chain(
                    c1,
                    c3,
                    self.code@,
                    rows_code(all, k, keys, csr)->0 + expr_code(all[k])->0,
                    row_store(keys, csr),
                );
                k = k + 1;
            }
        }
        proof {
            assert(all.skip(k) =~= Seq::<Expr>::empty());
            assert(c1.skip(c0.len() as int) =~= seq![Vop::Open { csr, tbl }]);
            lemma_code_chain(
                c0,
                c1,
                self.code@,
                seq![CodeItem::Op(Vop::Open { csr, tbl })],
                rows_code(all, k, keys, csr)->0,
            );
        }
        Ok(())
    }

    /// Compiles a DELETE in two passes: collect the keys of the matching rows
    /// into an array, then delete each (a scan cannot change its own btree
    /// while it walks it).
    #[verifier::rlimit(30)]
    fn cc_delete(&mut self, delete: Delete) -> (r: Result<(), Error>)
        requires
            old(self).wf(),
            statement_ok(Statement::Delete(delete)),
        ensures
            final(self).wf(),
            final(self).grew_from(old(self)),
            final(self).head_kept(old(self)),
            final(self).txm == Some(mode_join(TransactionMode::Write, old(self).txm)),
            final(self).mutates_catalog == old(self).mutates_catalog,
            r is Ok <==> delete_ok(delete, old(self).cursor_slots),
            r is Ok ==> code_is(
                final(self).code@.skip(old(self).code@.len() as int),
                delete_code(
                    delete,
                    old(self).code@.len() as int,
                    delete_slot(old(self).cursor_slots, delete.from.csr->0 as usize) as usize,
                ),
            ),
    {
        let ghost d0 = delete;
        let ghost c0 = self.code@;
        let ghost base = c0.len() as int;
        let ghost slots0 = self.cursor_slots;
        self.ensure_txn(TransactionMode::Write);
        let ghost start = *self;
        let Delete { from, where_ } = delete;
        let tcsr = match from.csr {
            Some(c) => c as usize,
            None => {
                return Err(
                    Error::InternalError(
                        String::from_str("mutation target was not bound to a cursor"),
                    ),
                );
            },
        };
        let oid = match from.oid {
            Some(o) => o,
            None => {
                return Err(Error::InternalError(String::from_str("mutation target has no table oid")));
            },
        };
        self.emit_plain(Vop::Arr);
        let r = self.emit_cursor_op(Vop::Open { csr: tcsr, tbl: oid }, tcsr);
        if r.is_err() {
            return r;
        }
        let dcsr = match self.alloc_cursor() {
            Ok(c) => c,
            Err(e) => {
                return Err(e);
            },
        };
        assert(dcsr == delete_slot(slots0, tcsr));
        self.emit(Vop::Scan { csr: tcsr, jmp: 0, prefix: ScanPrefix::Whole });
        let scan = self.pc();
        let top = self.code.len();
        let ghost cw0 = self.code@;
        let mut where_fail: Option<usize> = None;
        let ghost mut wcode: Seq<CodeItem> = Seq::empty();
        let ghost mut cwa: Seq<Vop> = cw0;
        if let Some(w) = where_ {
            proof {
                lemma_ready_mono(w, 0, self.agg_slots as nat);
            }
            let ghost wv = w;
            let r = self.cc_expr(w);
            if r.is_err() {
                return r;
            }
            proof {
                wcode = expr_code(wv)->0;
                cwa = self.code@;
            }
            self.emit(Vop::IfNot(0));
            where_fail = Some(self.pc());
        }
        let ghost cw1 = self.code@;
        self.emit(Vop::LoadKey { csr: tcsr });
        self.emit_plain(Vop::ArrPush);
        self.emit(Vop::Next { csr: tcsr, jmp: top });
        let next_pc = self.pc();
        self.emit(Vop::Close { csr: tcsr });
        let close_pc = self.pc();
        self.emit(Vop::Iter { csr: dcsr, jmp: 0 });
        let iter = self.pc();
        let loop_top = self.code.len();
        self.emit(Vop::LoadVal { csr: dcsr });
        self.emit(Vop::Delete { csr: tcsr });
        self.emit(Vop::Next { csr: dcsr, jmp: loop_top });
        let exit = self.code.len();
        let ghost pre = self.code@;
        let r = self.patch(scan, close_pc);
        if r.is_err() {
            return r;
        }
        let r = self.patch(iter, exit);
        if r.is_err() {
            return r;
        }
        if let Some(pc) = where_fail {
            let r = self.patch(pc, next_pc);
            if r.is_err() {
                return r;
            }
        }
        proof {
            let fin = self.code@;
            let wl = wcode.len() as int;
            assert(cw0.len() == base + 3);
            if d0.where_ is Some {
                assert(cwa.len() == base + 3 + wl);
                assert(fin.subrange(base + 3, base + 3 + wl) =~= cwa.skip(base + 3)) by {
                    assert forall|i: int| 0 <= i < wl implies #[trigger] fin.subrange(base + 3, base + 3 + wl)[i]
                        == cwa.skip(base + 3)[i] by {
                        assert(fin[base + 3 + i] == pre[base + 3 + i]);
                        assert(pre[base + 3 + i] == cwa[base + 3 + i]);
                    }
                }
            }
            lemma_delete_code(d0, base, dcsr, fin);
        }
        Ok(())
    }

    /// Compiles a DROP TABLE: delete the table's catalog row, then clear its
    /// btree.
    fn cc_drop(&mut self, oid: u32) -> (r: Result<(), Error>)
        requires
            old(self).wf(),
        ensures
            final(self).wf(),
            final(self).grew_from(old(self)),
            final(self).txm == Some(mode_join(TransactionMode::Write, old(self).txm)),
            final(self).mutates_catalog == old(self).mutates_catalog,
            final(self).counter_slots == old(self).counter_slots,
            final(self).agg_slots == old(self).agg_slots,
            old(self).cursor_slots < usize::MAX ==> r is Ok,
            r is Ok ==> final(self).cursor_slots == old(self).cursor_slots + 1 && final(self).code@
                == old(self).code@ + seq![
                Vop::Open { csr: old(self).cursor_slots, tbl: CATALOG_OID },
                Vop::Push { val: Value::Oid(oid) },
                Vop::Delete { csr: old(self).cursor_slots },
                Vop::Clear { tbl: oid },
            ],
            r is Err ==> final(self).code@ == old(self).code@,
    {
        self.ensure_txn(TransactionMode::Write);
        let csr = match self.alloc_cursor() {
            Ok(c) => c,
            Err(e) => {
                return Err(e);
            },
        };
        self.emit(Vop::Open { csr, tbl: CATALOG_OID });
        self.emit_plain(Vop::Push { val: Value::Oid(oid) });
        self.emit(Vop::Delete { csr });
        self.emit_plain(Vop::Clear { tbl: oid });
        assert(self.code@ =~= old(self).code@ + seq![
            Vop::Open { csr, tbl: CATALOG_OID },
            Vop::Push { val: Value::Oid(oid) },
            Vop::Delete { csr },
            Vop::Clear { tbl: oid },
        ]);
        Ok(())
    }

    /// Compiles a CLEAR: empty the table's btree, keeping its catalog row.
    fn cc_clear(&mut self, oid: u32)
        requires
            old(self).wf(),
        ensures
            final(self).wf(),
            final(self).grew_from(old(self)),
            final(self).same_slots_but_txm(old(self)),
            final(self).txm == Some(mode_join(TransactionMode::Write, old(self).txm)),
            final(self).code@ == old(self).code@.push(Vop::Clear { tbl: oid }),
    {
        self.ensure_txn(TransactionMode::Write);
        self.emit_plain(Vop::Clear { tbl: oid });
    }

    /// Same slot counts, sink and catalog flag as `old`.
    pub closed spec fn same_slots_but_txm(&self, old: &Compiler) -> bool {
        &&& self.cursor_slots == old.cursor_slots
        &&& self.counter_slots == old.counter_slots
        &&& self.agg_slots == old.agg_slots
        &&& self.sink == old.sink
        &&& self.mutates_catalog == old.mutates_catalog
    }

    /// Compiles a CREATE TABLE: insert the table's definition into the
    /// catalog under a fresh oid, with a new btree for its rows. A key column
    /// that is neither int nor string is unsupported.
    #[verifier::loop_isolation(false)]
    fn cc_create_table(&mut self, def: TableDefinition) -> (r: Result<(), Error>)
        requires
            old(self).wf(),
        ensures
            final(self).wf(),
            final(self).grew_from(old(self)),
            final(self).txm == Some(TransactionMode::Write),
            final(self).mutates_catalog == old(self).mutates_catalog,
            final(self).counter_slots == old(self).counter_slots,
            final(self).agg_slots == old(self).agg_slots,
            (forall|i: int| 0 <= i < def.keys@.len() ==> key_type_ok(#[trigger] def.keys@[i].ty))
                && old(self).cursor_slots < usize::MAX <==> r is Ok,
            r matches Err(e) ==> (e is Unsupported || e is InternalError),
            r is Ok ==> final(self).code@.len() == old(self).code@.len() + 5 && final(self).code@
                == old(self).code@ + seq![
                Vop::Open { csr: old(self).cursor_slots, tbl: CATALOG_OID },
                final(self).code@[old(self).code@.len() + 1int],
                Vop::NewOid { csr: old(self).cursor_slots },
                Vop::NewBtree,
                Vop::Insert { csr: old(self).cursor_slots },
            ] && (final(self).code@[old(self).code@.len() + 1int] matches Vop::Push { val }
                && is_catalog_row(val, def.name@, table_text(def, 0) + ";"@)),
            r is Err ==> final(self).code@ == old(self).code@,
    {
        self.txm = Some(TransactionMode::Write);
        let mut sql = def.sql();
        sql.append(";");
        let mut i: usize = 0;
        while i < def.keys.len()
            invariant
                i <= def.keys@.len(),
                forall|j: int| 0 <= j < i ==> key_type_ok(#[trigger] def.keys@[j].ty),
            decreases def.keys@.len() - i,
        {
            match def.keys[i].ty {
                Type::Int | Type::String => {},
                _ => {
                    let msg = String::from_str("key column '").concat(def.keys[i].name.as_str()).concat(
                        "' must be int or string",
                    );
                    return Err(Error::Unsupported(msg));
                },
            }
            i = i + 1;
        }
        let object = Value::Object(
            vec![
                Field { key: String::from_str("name"), value: Value::String(def.name.clone()) },
                Field { key: String::from_str("sql"), value: Value::String(sql) },
                Field { key: String::from_str("type"), value: Value::String(String::from_str("table")) },
            ],
        );
        let csr = match self.alloc_cursor() {
            Ok(c) => c,
            Err(e) => {
                return Err(e);
            },
        };
        self.emit(Vop::Open { csr, tbl: CATALOG_OID });
        self.emit_plain(Vop::Push { val: object });
        self.emit(Vop::NewOid { csr });
        self.emit_plain(Vop::NewBtree);
        self.emit(Vop::Insert { csr });
        Ok(())
    }
}

} // verus!

verus! {

impl Compiler {
    /// Compiles a statement into a self-contained program in three blocks:
    /// `Init` jumps over the body to the transaction block, which opens the
    /// transaction and jumps back to the body's first instruction; the body
    /// ends at `Halt`.
    pub fn compile(self, statement: Statement) -> (r: Result<Program, Error>)
        requires
            self.fresh(),
            statement_ok(statement),
        ensures
            r matches Ok(p) ==> program_ok(p, statement_mode(statement)) && p.mutates_catalog
                == statement_mutates_catalog(statement),
            statement matches Statement::Drop(d) ==> r matches Ok(p) && p.instructions@
                == drop_program(d.oid.unwrap()),
            statement matches Statement::Clear(c) ==> r matches Ok(p) && p.instructions@
                == clear_program(c.oid.unwrap()),
            statement matches Statement::Delete(d) ==> (r is Ok <==> delete_ok(d, 0)),
            statement matches Statement::Delete(d) ==> (r matches Ok(p) ==> code_is(
                p.instructions@.subrange(1, p.instructions@.len() - 3),
                delete_code(d, 1, delete_slot(0, d.from.csr->0 as usize) as usize),
            )),
            statement matches Statement::Insert(ins) ==> (r is Ok <==> insert_code(ins, 0) is Some),
            statement matches Statement::Insert(ins) ==> (r matches Ok(p) ==> code_is(
                p.instructions@.subrange(1, p.instructions@.len() - 3),
                insert_code(ins, 0)->0,
            )),
            statement matches Statement::Select(q) ==> (select_compiles(q, 0, 0, 0, Sink::Yield)
                ==> r is Ok),
            statement matches Statement::Select(q) ==> (r is Ok ==> select_needs(q, 0, 0, 0)),
            statement matches Statement::Select(q) ==> (r matches Ok(p) ==> exists|body: Seq<Vop>|
                {
                    &&& #[trigger] select_is(body, seq![Vop::Init { jmp: 0 }], q, 0, 0, 0, Sink::Yield)
                    &&& p.instructions@.len() == body.len() + 3
                    &&& p.instructions@.subrange(1, p.instructions@.len() - 3) == body.skip(1)
                }),
            statement matches Statement::Create(Create::Table(def)) ==> (r is Ok <==> forall|i: int|
                0 <= i < def.keys@.len() ==> key_type_ok(#[trigger] def.keys@[i].ty)),
            statement matches Statement::Create(Create::Table(def)) ==> (r matches Ok(p) ==> {
                let code = p.instructions@;
                &&& code.len() == 9
                &&& code == create_table_program(code[2])
                &&& code[2] matches Vop::Push { val } && is_catalog_row(
                    val,
                    def.name@,
                    table_text(def, 0) + ";"@,
                )
            }),
    {
        let mut c = self;
        c.emit(Vop::Init { jmp: 0 });
        let ghost head = c.code@[0];
        let ghost start = c;
        let ghost is_create = statement is Create;
        let ghost is_drop = statement is Drop;
        let ghost st0 = statement;
        let body = match statement {
            Statement::Create(create) => {
                c.mutates_catalog = true;
                match create {
                    Create::Table(def) => c.cc_create_table(def),
                }
            },
            Statement::Delete(delete) => c.cc_delete(delete),
            Statement::Drop(drop) => {
                c.mutates_catalog = true;
                let oid = match drop.oid {
                    Some(o) => o,
                    None => 0,
                };
                c.cc_drop(oid)
            },
            Statement::Clear(clear) => {
                let oid = match clear.oid {
                    Some(o) => o,
                    None => 0,
                };
                c.cc_clear(oid);
                Ok(())
            },
            Statement::Insert(insert) => c.cc_insert(insert),
            Statement::Select(select) => c.cc_select(select),
        };
        if body.is_err() {
            return Err(body.unwrap_err());
        }
        let ghost body_code = c.code@;
        let ghost halt_at = c.code@.len();
        proof {
            assert(c.code@[0] == head);
        }
        c.emit_plain(Vop::Halt);
        let txm = match c.txm {
            Some(t) => t,
            None => TransactionMode::Read,
        };
        c.emit_plain(Vop::Transaction { txm });
        let at = c.pc();
        let p = c.patch(0, at);
        if p.is_err() {
            return Err(p.unwrap_err());
        }
        c.emit(Vop::Jump { jmp: 1 });
        proof {
            if is_create {
                assert(c.code@ =~= create_table_program(body_code[2]));
            }
            assert(c.code@.subrange(1, c.code@.len() - 3) =~= body_code.skip(1));
            if st0 is Select {
                assert(start.code@ =~= seq![Vop::Init { jmp: 0 }]);
                assert(select_is(
                    body_code,
                    seq![Vop::Init { jmp: 0 }],
                    st0->Select_0,
                    0,
                    0,
                    0,
                    Sink::Yield,
                ));
            }
            let code = c.code@;
            let n = code.len();
            assert(n == halt_at + 3);
            assert(code_ok(code, n, c.cursor_slots as nat, c.counter_slots as nat, c.agg_slots as nat));
            assert forall|k: int| 0 <= k < n implies op_ok(
                #[trigger] code[k],
                (n - 1) as nat,
                c.cursor_slots as nat,
                c.counter_slots as nat,
                c.agg_slots as nat,
            ) by {
                assert(op_ok(
                    code[k],
                    n,
                    c.cursor_slots as nat,
                    c.counter_slots as nat,
                    c.agg_slots as nat,
                ));
            }
        }
        Ok(
            Program {
                cursors: c.cursor_slots,
                counters: c.counter_slots,
                aggs: c.agg_slots,
                mutates_catalog: c.mutates_catalog,
                instructions: c.code,
            },
        )
    }
}

} // verus!

verus! {

/// The tables a program opens, each once, in order of first `Open`.
pub open spec fn opened_tables(code: Seq<Vop>) -> Seq<u32>
    decreases code.len(),
{
    if code.len() == 0 {
        Seq::empty()
    } else {
        let before = opened_tables(code.drop_last());
        match code.last() {
            Vop::Open { tbl, .. } => if before.contains(tbl) {
                before
            } else {
                before.push(tbl)
            },
            _ => before,
        }
    }
}

/// The index of the first `x` in `s`.
pub open spec fn first_index(s: Seq<u32>, x: u32) -> int
    decreases s.len(),
{
    if s.len() == 0 {
        0
    } else if s[0] == x {
        0
    } else {
        1 + first_index(s.drop_first(), x)
    }
}

/// The instruction with an `Open`'s table oid replaced by its slot in `oids`.
pub open spec fn with_slot(op: Vop, oids: Seq<u32>) -> Vop {
    match op {
        Vop::Open { csr, tbl } => Vop::Open { csr, tbl: first_index(oids, tbl) as u32 },
        _ => op,
    }
}

/// The first index of an element is where it stands.
pub proof fn lemma_first_index(s: Seq<u32>, x: u32)
    requires
        s.contains(x),
    ensures
        0 <= first_index(s, x) < s.len(),
        s[first_index(s, x)] == x,
        forall|j: int| 0 <= j < first_index(s, x) ==> s[j] != x,
    decreases s.len(),
{
    if s[0] != x {
        let k = choose|k: int| 0 <= k < s.len() && s[k] == x;
        assert(s.drop_first()[k - 1] == x);
        lemma_first_index(s.drop_first(), x);
        assert forall|j: int| 0 <= j < first_index(s, x) implies s[j] != x by {
            if j > 0 {
                assert(s.drop_first()[j - 1] == s[j]);
            }
        }
    }
}

/// Appending to a sequence keeps the first index of what it held.
pub proof fn lemma_first_index_push(s: Seq<u32>, y: u32, x: u32)
    requires
        s.contains(x),
    ensures
        first_index(s.push(y), x) == first_index(s, x),
    decreases s.len(),
{
    if s[0] != x {
        let k = choose|k: int| 0 <= k < s.len() && s[k] == x;
        assert(s.drop_first()[k - 1] == x);
        assert(s.push(y).drop_first() =~= s.drop_first().push(y));
        lemma_first_index_push(s.drop_first(), y, x);
    }
}

/// The opened tables are distinct, and every opened table is among them.
pub proof fn lemma_opened_tables(code: Seq<Vop>)
    ensures
        forall|i: int, j: int|
            0 <= i < j < opened_tables(code).len() ==> opened_tables(code)[i] != opened_tables(
                code,
            )[j],
        forall|k: int|
            0 <= k < code.len() ==> (#[trigger] code[k] matches Vop::Open { tbl, .. }
                ==> opened_tables(code).contains(tbl)),
        opened_tables(code).len() <= code.len(),
    decreases code.len(),
{
    if code.len() > 0 {
        let before = opened_tables(code.drop_last());
        lemma_opened_tables(code.drop_last());
        assert forall|k: int|
            0 <= k < code.len() implies (#[trigger] code[k] matches Vop::Open { tbl, .. }
            ==> opened_tables(code).contains(tbl)) by {
            if k < code.len() - 1 {
                assert(code.drop_last()[k] == code[k]);
                if let Vop::Open { tbl, .. } = code[k] {
                    let i = choose|i: int| 0 <= i < before.len() && before[i] == tbl;
                    if let Vop::Open { tbl: t2, .. } = code.last() {
                        if !before.contains(t2) {
                            assert(before.push(t2)[i] == tbl);
                        }
                    }
                }
            } else {
                if let Vop::Open { tbl, .. } = code[k] {
                    if !before.contains(tbl) {
                        assert(before.push(tbl)[before.len() as int] == tbl);
                    }
                }
            }
        }
    }
}

/// Slot assignment loses no table: every `Open`'s slot names the table it
/// opened, and no table takes two slots.
pub proof fn law_table_slots_resolve(code: Seq<Vop>)
    requires
        code.len() <= u32::MAX,
    ensures
        forall|k: int|
            0 <= k < code.len() ==> (#[trigger] code[k] matches Vop::Open { csr, tbl } ==> (
            with_slot(code[k], opened_tables(code)) matches Vop::Open { csr: c2, tbl: slot }
                && c2 == csr && slot < opened_tables(code).len() && opened_tables(code)[slot as int]
                == tbl)),
        forall|i: int, j: int|
            0 <= i < j < opened_tables(code).len() ==> opened_tables(code)[i] != opened_tables(
                code,
            )[j],
{
    lemma_opened_tables(code);
    assert forall|k: int| 0 <= k < code.len() implies (#[trigger] code[k] matches Vop::Open {
        csr,
        tbl,
    } ==> (with_slot(code[k], opened_tables(code)) matches Vop::Open { csr: c2, tbl: slot }
        && c2 == csr && slot < opened_tables(code).len() && opened_tables(code)[slot as int]
        == tbl)) by {
        if let Vop::Open { csr, tbl } = code[k] {
            lemma_first_index(opened_tables(code), tbl);
        }
    }
}

/// Rewrites each `Open` of `program` from its table oid to the table's slot
/// and returns the slots' oids: the tables the program opens, each once, in
/// order of first `Open`. Opening the tables' btrees is the storage's part.
pub fn assign_table_slots(program: &mut Program) -> (oids: Vec<u32>)
    requires
        old(program).instructions@.len() <= u32::MAX,
    ensures
        oids@ == opened_tables(old(program).instructions@),
        final(program).instructions@.len() == old(program).instructions@.len(),
        forall|k: int|
            0 <= k < old(program).instructions@.len() ==> final(program).instructions@[k]
                == with_slot(#[trigger] old(program).instructions@[k], oids@),
        final(program).cursors == old(program).cursors,
        final(program).counters == old(program).counters,
        final(program).aggs == old(program).aggs,
        final(program).mutates_catalog == old(program).mutates_catalog,
{
    let ghost code0 = program.instructions@;
    let mut oids: Vec<u32> = Vec::new();
    let n = program.instructions.len();
    let mut k: usize = 0;
    proof {
        lemma_opened_tables(code0);
    }
    while k < n
        invariant
            n == code0.len(),
            n <= u32::MAX,
            k <= n,
            program.instructions@.len() == n,
            oids@ == opened_tables(code0.take(k as int)),
            forall|j: int|
                k <= j < n ==> #[trigger] program.instructions@[j] == code0[j],
            forall|j: int|
                0 <= j < k ==> #[trigger] program.instructions@[j] == with_slot(
                    code0[j],
                    opened_tables(code0.take(k as int)),
                ),
            forall|j: int| 0 <= j < k ==> !(#[trigger] code0[j] matches Vop::Open { .. }) || (
            code0[j] matches Vop::Open { tbl, .. } && opened_tables(code0.take(k as int)).contains(
                tbl,
            )),
            program.cursors == old(program).cursors,
            program.counters == old(program).counters,
            program.aggs == old(program).aggs,
            program.mutates_catalog == old(program).mutates_catalog,
        decreases n - k,
    {
        let ghost before = oids@;
        assert(code0.take(k + 1).drop_last() =~= code0.take(k as int));
        assert(code0.take(k + 1).last() == code0[k as int]);
        proof {
            lemma_opened_tables(code0.take(k as int));
        }
        let open = match &program.instructions[k] {
            Vop::Open { csr, tbl } => Some((*csr, *tbl)),
            _ => None,
        };
        if let Some((csr, oid)) = open {
            let mut slot: usize = 0;
            while slot < oids.len() && oids[slot] != oid
                invariant
                    slot <= oids@.len(),
                    forall|j: int| 0 <= j < slot ==> oids@[j] != oid,
                decreases oids@.len() - slot,
            {
                slot = slot + 1;
            }
            if slot == oids.len() {
                oids.push(oid);
            }
            proof {
                assert(oids@[slot as int] == oid);
                assert(oids@.contains(oid));
                lemma_first_index(oids@, oid);
                assert(first_index(oids@, oid) == slot);
                assert(oids@.len() <= k + 1) by {
                    lemma_opened_tables(code0.take(k + 1));
                }
                assert forall|j: int| 0 <= j < k implies with_slot(code0[j], before) == with_slot(
                    code0[j],
                    oids@,
                ) by {
                    if let Vop::Open { tbl, .. } = code0[j] {
                        if oids@ != before {
                            lemma_first_index_push(before, oid, tbl);
                        }
                    }
                }
            }
            program.instructions.set(k, Vop::Open { csr, tbl: slot as u32 });
        } else {
            proof {
                assert(oids@ == before);
            }
        }
        proof {
            assert forall|j: int|
                0 <= j < k + 1 implies !(#[trigger] code0[j] matches Vop::Open { .. }) || (
            code0[j] matches Vop::Open { tbl, .. } && oids@.contains(tbl)) by {
                lemma_opened_tables(code0.take(k + 1));
                assert(code0.take(k + 1)[j] == code0[j]);
            }
        }
        k = k + 1;
    }
    assert(code0.take(n as int) =~= code0);
    oids
}

} // verus!

//! SQL text of table definitions and declared types.
use vstd::prelude::*;

use crate::display::{
    comma_break, deeper, join, lemma_render_concat, member_block, member_text, newline,
    object_block, object_text, render, renders, text, concat, joined, type_block, type_text, Block,
    ToSql,
};
use crate::ir::{Create, Key, TMember, TObject, TableDefinition, Type};

verus! {

impl ToSql for Type {
    open spec fn sql_at(&self, depth: nat) -> Seq<char> {
        type_text(*self, depth)
    }

    fn block(&self) -> (b: Block) {
        type_block(self)
    }

    fn sql(&self) -> (s: String) {
        self.block().sql()
    }
}

impl ToSql for TObject {
    open spec fn sql_at(&self, depth: nat) -> Seq<char> {
        object_text(*self, depth)
    }

    fn block(&self) -> (b: Block) {
        object_block(self)
    }

    fn sql(&self) -> (s: String) {
        self.block().sql()
    }
}

impl ToSql for TMember {
    open spec fn sql_at(&self, depth: nat) -> Seq<char> {
        member_text(*self, depth)
    }

    fn block(&self) -> (b: Block) {
        member_block(self)
    }

    fn sql(&self) -> (s: String) {
        self.block().sql()
    }
}

/// One key column: `name type`.
pub open spec fn key_text(k: Key, d: nat) -> Seq<char> {
    k.name@ + " "@ + type_text(k.ty, d)
}

/// Key columns at depth `d`, separated by a comma and a line break.
pub open spec fn keys_text(keys: Seq<Key>, d: nat) -> Seq<char> {
    joined(Seq::new(keys.len(), |i: int| key_text(keys[i], d)), ","@ + newline(d))
}

/// `create table <name>`, then, when there are key columns, the columns one
/// per line inside parentheses.
pub open spec fn table_text(t: TableDefinition, d: nat) -> Seq<char> {
    if t.keys@.len() == 0 {
        "create table "@ + t.name@
    } else {
        "create table "@ + t.name@ + " "@ + "("@ + newline(deeper(d)) + keys_text(t.keys@, deeper(d))
            + newline(d) + ")"@
    }
}

impl ToSql for Key {
    open spec fn sql_at(&self, depth: nat) -> Seq<char> {
        key_text(*self, depth)
    }

    fn block(&self) -> (b: Block) {
        let n = text(self.name.as_str());
        let ghost g_n = n;
        let sp = text(" ");
        let ghost g_sp = sp;
        let ty = type_block(&self.ty);
        let ghost g_ty = ty;
        let r = n.append_block(sp).append_block(ty);
        assert forall|d: nat| #[trigger] render(r, d) == key_text(*self, d) by {
            lemma_render_concat(g_n, g_sp, d);
            lemma_render_concat(concat(g_n, g_sp), g_ty, d);
        }
        r
    }

    fn sql(&self) -> (s: String) {
        self.block().sql()
    }
}

impl ToSql for TableDefinition {
    open spec fn sql_at(&self, depth: nat) -> Seq<char> {
        table_text(*self, depth)
    }

    fn block(&self) -> (b: Block) {
        let head = text("create table ");
        let ghost g_head = head;
        let name = text(self.name.as_str());
        let ghost g_name = name;
        let t = head.append_block(name);
        let ghost g_t = t;
        proof {
            assert forall|d: nat| #[trigger] render(g_t, d) == "create table "@ + self.name@ by {
                lemma_render_concat(g_head, g_name, d);
            }
        }
        if self.keys.len() == 0 {
            return t;
        }
        let mut blocks: Vec<Block> = Vec::new();
        let mut i: usize = 0;
        while i < self.keys.len()
            invariant
                i <= self.keys@.len(),
                blocks@.len() == i,
                forall|j: int, d: nat|
                    0 <= j < i ==> #[trigger] render(blocks@[j], d) == key_text(self.keys@[j], d),
            decreases self.keys.len() - i,
        {
            let kb = self.keys[i].block();
            blocks.push(kb);
            i = i + 1;
        }
        let ghost g_blocks = blocks@;
        let body = join(comma_break(), blocks);
        let ghost g_body = body;
        let sp = text(" ");
        let ghost g_sp = sp;
        let nested = body.nest("(", ")");
        let ghost g_nested = nested;
        let r = t.append_block(sp).append_block(nested);
        assert forall|d: nat| #[trigger] render(r, d) == table_text(*self, d) by {
            let dd = deeper(d);
            assert(renders(g_blocks, dd) =~= Seq::new(
                self.keys@.len(),
                |k: int| key_text(self.keys@[k], dd),
            ));
            lemma_render_concat(g_t, g_sp, d);
            lemma_render_concat(concat(g_t, g_sp), g_nested, d);
        }
        r
    }

    fn sql(&self) -> (s: String) {
        self.block().sql()
    }
}

impl ToSql for Create {
    open spec fn sql_at(&self, depth: nat) -> Seq<char> {
        match *self {
            Create::Table(td) => table_text(td, depth) + ";"@,
        }
    }

    fn block(&self) -> (b: Block) {
        match self {
            Create::Table(td) => {
                let tb = td.block();
                let ghost g_tb = tb;
                let semi = text(";");
                let ghost g_semi = semi;
                let r = tb.append_block(semi);
                assert forall|d: nat| #[trigger] render(r, d) == self.sql_at(d) by {
                    lemma_render_concat(g_tb, g_semi, d);
                }
                r
            },
        }
    }

    fn sql(&self) -> (s: String) {
        self.block().sql()
    }
}

} // verus!

//! Rendering IR nodes back to SQL text.
//!
//! A [`Block`] is a chain of Wadler-style layout tokens — text, soft and hard
//! line breaks, and indented sub-chains. [`Block::sql`] lays a block out
//! without recursion; [`render`] is the layout it produces, stated
//! recursively.
use std::ops::Add;
use vstd::prelude::*;

use crate::ir::{Key, TMember, TObject, TableDefinition, Type};

verus! {

/// Block type so we can make a linked-list (tree) of tokens.
#[derive(Debug)]
pub struct Block {
    /// The block content token
    pub token: Token,
    /// Next token block (if any) in the list (tree).
    pub next: Option<Box<Block>>,
}

/// Tokens are the Wadler primitives for pretty-printing.
#[derive(Debug)]
pub enum Token {
    /// Raw text string.
    Text(String),
    /// The soft break token, more common hence 'line'.
    Line,
    /// The hard break token.
    LineBreak,
    /// Indent the whole block.
    Indent(Box<Block>),
}

/// The depth one level further in (it stops growing at the machine limit).
pub open spec fn deeper(d: nat) -> nat {
    if d < usize::MAX {
        d + 1
    } else {
        d
    }
}

/// A line break followed by the indentation of depth `d` (two spaces a level).
pub open spec fn newline(d: nat) -> Seq<char> {
    seq!['\n'] + Seq::new(2 * d, |i: int| ' ')
}

/// The text a block lays out to at indentation depth `d`.
pub open spec fn render(b: Block, d: nat) -> Seq<char>
    decreases b,
{
    render_token(b.token, d) + match b.next {
        Some(n) => render(*n, d),
        None => Seq::<char>::empty(),
    }
}

/// The text one token lays out to at depth `d`.
pub open spec fn render_token(t: Token, d: nat) -> Seq<char>
    decreases t,
{
    match t {
        Token::Text(s) => s@,
        Token::Line => newline(d),
        Token::LineBreak => newline(d),
        Token::Indent(child) => render(*child, deeper(d)),
    }
}

/// The text of what follows a block's first token.
pub open spec fn rest_text(b: Block, d: nat) -> Seq<char> {
    match b.next {
        Some(n) => render(*n, d),
        None => Seq::<char>::empty(),
    }
}

/// The number of tokens following a block's first token.
pub open spec fn rest_size(b: Block) -> nat {
    match b.next {
        Some(n) => size(*n),
        None => 0,
    }
}

/// The number of tokens in a block tree.
pub open spec fn size(b: Block) -> nat
    decreases b,
{
    1 + token_size(b.token) + match b.next {
        Some(n) => size(*n),
        None => 0,
    }
}

/// The number of tokens below a token.
pub open spec fn token_size(t: Token) -> nat
    decreases t,
{
    match t {
        Token::Indent(child) => size(*child),
        _ => 0,
    }
}

/// The text of a work stack of blocks and depths, top first.
pub open spec fn stack_text(s: Seq<(&Block, usize)>) -> Seq<char>
    decreases s.len(),
{
    if s.len() == 0 {
        Seq::empty()
    } else {
        render(*s.last().0, s.last().1 as nat) + stack_text(s.drop_last())
    }
}

/// The number of tokens left on a work stack.
pub open spec fn stack_size(s: Seq<(&Block, usize)>) -> nat
    decreases s.len(),
{
    if s.len() == 0 {
        0
    } else {
        size(*s.last().0) + stack_size(s.drop_last())
    }
}

impl Block {
    /// Wraps a single token as a one-element block.
    fn new(token: Token) -> (b: Self)
        ensures
            b == (Block { token, next: None }),
    {
        Block { token, next: None }
    }

    /// Renders the block tree as a SQL string. Iterative walk; no recursion.
    pub fn sql(&self) -> (out: String)
        ensures
            out@ == render(*self, 0),
    {
        let mut out = String::new();
        let mut stack: Vec<(&Block, usize)> = Vec::new();
        stack.push((self, 0));
        proof {
            assert(stack@.drop_last() =~= Seq::<(&Block, usize)>::empty());
            assert(stack_text(stack@.drop_last()) == Seq::<char>::empty());
            assert(stack@.last() == (self, 0usize));
            assert(stack_text(stack@) == render(*self, 0) + Seq::<char>::empty());
            assert(out@ + stack_text(stack@) =~= render(*self, 0));
        }
        while stack.len() > 0
            invariant
                out@ + stack_text(stack@) == render(*self, 0),
            decreases stack_size(stack@),
        {
            let ghost before = stack@;
            let ghost text_before = out@;
            let (curr, depth) = stack.pop().unwrap();
            proof {
                assert(stack@ == before.drop_last());
            }
            let ghost rest = stack@;
            match &curr.next {
                Some(n) => {
                    stack.push((&**n, depth));
                },
                None => {},
            }
            let ghost after_next = stack@;
            let ghost next_text = rest_text(*curr, depth as nat);
            proof {
                assert(render(*curr, depth as nat) == render_token(curr.token, depth as nat)
                    + next_text);
                if curr.next is Some {
                    assert(after_next.drop_last() =~= rest);
                    assert(*after_next.last().0 == *curr.next->Some_0);
                    assert(after_next.last().1 == depth);
                } else {
                    assert(after_next =~= rest);
                    assert(Seq::<char>::empty() + stack_text(rest) =~= stack_text(rest));
                }
                assert(stack_text(after_next) == next_text + stack_text(rest));
                assert(stack_size(after_next) == rest_size(*curr) + stack_size(rest));
                assert(size(*curr) == 1 + token_size(curr.token) + rest_size(*curr));
                assert(stack_size(before) == size(*curr) + stack_size(rest));
            }
            match &curr.token {
                Token::Text(text) => {
                    out.append(text.as_str());
                    proof {
                        assert(render_token(curr.token, depth as nat) == text@);
                        assert(stack_size(stack@) < stack_size(before));
                        assert(out@ == text_before + text@);
                        assert(out@ + stack_text(stack@) =~= text_before + (render(*curr, depth as nat)
                            + stack_text(rest)));
                    }
                },
                Token::Line | Token::LineBreak => {
                    out.append("\n");
                    proof {
                        reveal_strlit("\n");
                        assert(out@ =~= text_before + seq!['\n'] + Seq::new(0, |i: int| ' '));
                    }
                    let mut k: usize = 0;
                    while k < depth
                        invariant
                            k <= depth,
                            out@ == text_before + seq!['\n'] + Seq::new(2 * k as nat, |i: int| ' '),
                        decreases depth - k,
                    {
                        out.append("  ");
                        proof {
                            reveal_strlit("  ");
                            assert(Seq::new(2 * k as nat, |i: int| ' ') + "  "@ =~= Seq::new(
                                2 * (k + 1) as nat,
                                |i: int| ' ',
                            ));
                        }
                        k = k + 1;
                    }
                    proof {
                        assert(render_token(curr.token, depth as nat) == newline(depth as nat));
                        assert(stack_size(stack@) < stack_size(before));
                        assert(out@ =~= text_before + newline(depth as nat));
                        assert(out@ + stack_text(stack@) =~= text_before + (render(*curr, depth as nat)
                            + stack_text(rest)));
                    }
                },
                Token::Indent(child) => {
                    let inner = depth.saturating_add(1);
                    stack.push((&**child, inner));
                    proof {
                        assert(stack@.drop_last() == after_next);
                        assert(inner as nat == deeper(depth as nat));
                        assert(stack_size(stack@) == size(**child) + stack_size(after_next));
                        assert(token_size(curr.token) == size(**child));
                        assert(stack_size(stack@) < stack_size(before));
                        assert(render_token(curr.token, depth as nat) == render(
                            **child,
                            deeper(depth as nat),
                        ));
                        assert(out@ + stack_text(stack@) =~= text_before + (render(*curr, depth as nat)
                            + stack_text(rest)));
                    }
                },
            }
            proof {
                assert(render(*curr, depth as nat) + stack_text(rest) == stack_text(before));
            }
        }
        out
    }
}

} // verus!

verus! {

/// Parts interleaved with a separator.
pub open spec fn joined(parts: Seq<Seq<char>>, sep: Seq<char>) -> Seq<char>
    decreases parts.len(),
{
    if parts.len() == 0 {
        Seq::empty()
    } else if parts.len() == 1 {
        parts[0]
    } else {
        joined(parts.drop_last(), sep) + sep + parts.last()
    }
}

/// The chain of `a` followed by the chain of `b`.
pub open spec fn concat(a: Block, b: Block) -> Block
    decreases a,
{
    Block {
        token: a.token,
        next: Some(
            Box::new(
                match a.next {
                    Some(n) => concat(*n, b),
                    None => b,
                },
            ),
        ),
    }
}

/// Concatenating chains concatenates their layouts.
pub proof fn lemma_render_concat(a: Block, b: Block, d: nat)
    ensures
        render(concat(a, b), d) == render(a, d) + render(b, d),
    decreases a,
{
    match a.next {
        Some(n) => {
            lemma_render_concat(*n, b, d);
            assert(render(concat(a, b), d) =~= render(a, d) + render(b, d));
        },
        None => {
            assert(render(concat(a, b), d) =~= render(a, d) + render(b, d));
        },
    }
}

/// A one-token chain of text.
pub open spec fn text_block(s: String) -> Block {
    Block { token: Token::Text(s), next: None }
}

impl Block {
    /// Appends `rhs` at the tail of this chain.
    fn append(self, rhs: Block) -> (r: Block)
        ensures
            r == concat(self, rhs),
        decreases self,
    {
        let Block { token, next } = self;
        match next {
            None => Block { token, next: Some(Box::new(rhs)) },
            Some(n) => {
                let tail = (*n).append(rhs);
                Block { token, next: Some(Box::new(tail)) }
            },
        }
    }

    /// Appends `rhs` at the tail of this chain (what `+` does).
    pub fn append_block(self, rhs: Block) -> (r: Block)
        ensures
            r == concat(self, rhs),
    {
        self.append(rhs)
    }

    /// Bumps the indent level for this whole chain.
    fn indent(self) -> (r: Block)
        ensures
            r == (Block { token: Token::Indent(Box::new(self)), next: None }),
    {
        Block::new(Token::Indent(Box::new(self)))
    }

    /// Nests the chain inside a prefix/suffix pair like `{ }` or `( )`: the
    /// prefix, the chain indented one level on a line of its own, and the
    /// suffix on a line of its own.
    pub fn nest(self, prefix: &str, postfix: &str) -> (r: Block)
        ensures
            forall|d: nat| #[trigger]
                render(r, d) == prefix@ + newline(deeper(d)) + render(self, deeper(d)) + newline(d)
                    + postfix@,
    {
        let ghost me = self;
        let ln = line();
        let ghost g_ln = ln;
        let inner = ln.append(self);
        let ind = inner.indent();
        let ghost g_ind = ind;
        let tp = text(prefix);
        let ghost g_tp = tp;
        let a = tp.append(ind);
        let ghost g_a = a;
        let ln2 = line();
        let ghost g_ln2 = ln2;
        let b = a.append(ln2);
        let ghost g_b = b;
        let tq = text(postfix);
        let ghost g_tq = tq;
        let r = b.append(tq);
        assert forall|d: nat| #[trigger]
            render(r, d) == prefix@ + newline(deeper(d)) + render(me, deeper(d)) + newline(d)
                + postfix@ by {
            let dd = deeper(d);
            lemma_render_concat(g_ln, me, dd);
            assert(render_token(g_ind.token, d) == render(concat(g_ln, me), dd));
            assert(render(g_ind, d) == render_token(g_ind.token, d) + rest_text(g_ind, d));
            assert(render(g_ind, d) =~= render(concat(g_ln, me), dd));
            lemma_render_concat(g_tp, g_ind, d);
            lemma_render_concat(g_a, g_ln2, d);
            lemma_render_concat(g_b, g_tq, d);
            assert(render(r, d) =~= prefix@ + newline(deeper(d)) + render(me, deeper(d)) + newline(d)
                + postfix@);
        }
        r
    }
}

/// The soft-break block.
pub open spec fn line_block() -> Block {
    Block { token: Token::Line, next: None }
}

/// Returns a text block.
pub fn text(s: &str) -> (b: Block)
    ensures
        b.next is None,
        b.token matches Token::Text(t) && t@ == s@,
        forall|d: nat| #[trigger] render(b, d) == s@,
{
    let b = Block::new(Token::Text(String::from_str(s)));
    assert forall|d: nat| #[trigger] render(b, d) == s@ by {
        assert(render_token(b.token, d) == s@);
        assert(render(b, d) == render_token(b.token, d) + rest_text(b, d));
        assert(render(b, d) =~= s@);
    }
    b
}

/// Returns a soft-break block.
pub fn line() -> (b: Block)
    ensures
        b == line_block(),
        forall|d: nat| #[trigger] render(b, d) == newline(d),
{
    let b = Block::new(Token::Line);
    assert forall|d: nat| #[trigger] render(b, d) == newline(d) by {
        assert(render_token(b.token, d) == newline(d));
        assert(render(b, d) == render_token(b.token, d) + rest_text(b, d));
        assert(render(b, d) =~= newline(d));
    }
    b
}

/// Returns a hard-break block.
pub fn linebreak() -> (b: Block)
    ensures
        b == (Block { token: Token::LineBreak, next: None }),
        forall|d: nat| #[trigger] render(b, d) == newline(d),
{
    let b = Block::new(Token::LineBreak);
    assert forall|d: nat| #[trigger] render(b, d) == newline(d) by {
        assert(render_token(b.token, d) == newline(d));
        assert(render(b, d) == render_token(b.token, d) + rest_text(b, d));
        assert(render(b, d) =~= newline(d));
    }
    b
}

} // verus!

verus! {

/// Concatenate two blocks (block + block).
impl Add<Block> for Block {
    type Output = Block;

    fn add(self, rhs: Block) -> (r: Block)
        ensures
            r == concat(self, rhs),
    {
        let r = self.append(rhs);
        r
    }
}

impl vstd::std_specs::ops::AddSpecImpl<Block> for Block {
    open spec fn obeys_add_spec() -> bool {
        true
    }

    open spec fn add_req(self, rhs: Block) -> bool {
        true
    }

    open spec fn add_spec(self, rhs: Block) -> Block {
        concat(self, rhs)
    }
}

/// Concatenate a block and a string (block + string literal).
impl Add<&str> for Block {
    type Output = Block;

    fn add(self, rhs: &str) -> (r: Block)
        ensures
            forall|d: nat| #[trigger] render(r, d) == render(self, d) + rhs@,
    {
        let ghost me = self;
        let t = text(rhs);
        let ghost g_t = t;
        let r = self.append(t);
        assert forall|d: nat| #[trigger] render(r, d) == render(me, d) + rhs@ by {
            lemma_render_concat(me, g_t, d);
        }
        r
    }
}

impl vstd::std_specs::ops::AddSpecImpl<&str> for Block {
    open spec fn obeys_add_spec() -> bool {
        false
    }

    open spec fn add_req(self, rhs: &str) -> bool {
        true
    }

    open spec fn add_spec(self, rhs: &str) -> Block {
        self
    }
}

/// Concatenate a string and a block (string literal + block).
impl Add<Block> for &str {
    type Output = Block;

    fn add(self, rhs: Block) -> (r: Block)
        ensures
            forall|d: nat| #[trigger] render(r, d) == self@ + render(rhs, d),
    {
        let ghost g_rhs = rhs;
        let t = text(self);
        let ghost g_t = t;
        let r = t.append(rhs);
        assert forall|d: nat| #[trigger] render(r, d) == self@ + render(g_rhs, d) by {
            lemma_render_concat(g_t, g_rhs, d);
        }
        r
    }
}

impl vstd::std_specs::ops::AddSpecImpl<Block> for &str {
    open spec fn obeys_add_spec() -> bool {
        false
    }

    open spec fn add_req(self, rhs: Block) -> bool {
        true
    }

    open spec fn add_spec(self, rhs: Block) -> Block {
        rhs
    }
}

/// Concatenate an owned string and a block (owned string + block).
impl Add<Block> for String {
    type Output = Block;

    fn add(self, rhs: Block) -> (r: Block)
        ensures
            r == concat(text_block(self), rhs),
            forall|d: nat| #[trigger] render(r, d) == self@ + render(rhs, d),
    {
        let ghost g_rhs = rhs;
        let ghost me = self;
        let t = Block::new(Token::Text(self));
        let r = t.append(rhs);
        assert forall|d: nat| #[trigger] render(r, d) == me@ + render(g_rhs, d) by {
            lemma_render_concat(text_block(me), g_rhs, d);
            assert(render_token(text_block(me).token, d) == me@);
            assert(render(text_block(me), d) =~= me@);
        }
        r
    }
}

impl vstd::std_specs::ops::AddSpecImpl<Block> for String {
    open spec fn obeys_add_spec() -> bool {
        true
    }

    open spec fn add_req(self, rhs: Block) -> bool {
        true
    }

    open spec fn add_spec(self, rhs: Block) -> Block {
        concat(text_block(self), rhs)
    }
}

/// Convert a string slice into a text block.
impl From<&str> for Block {
    fn from(s: &str) -> (b: Block)
        ensures
            forall|d: nat| #[trigger] render(b, d) == s@,
    {
        text(s)
    }
}

impl vstd::std_specs::convert::FromSpecImpl<&str> for Block {
    open spec fn obeys_from_spec() -> bool {
        false
    }

    open spec fn from_spec(s: &str) -> Block {
        line_block()
    }
}

/// Convert an owned string into a text block.
impl From<String> for Block {
    fn from(s: String) -> (b: Block)
        ensures
            b == text_block(s),
    {
        Block::new(Token::Text(s))
    }
}

impl vstd::std_specs::convert::FromSpecImpl<String> for Block {
    open spec fn obeys_from_spec() -> bool {
        true
    }

    open spec fn from_spec(s: String) -> Block {
        text_block(s)
    }
}

} // verus!

verus! {

impl Block {
    /// A copy of this chain.
    pub fn duplicate(&self) -> (r: Block)
        ensures
            r == *self,
        decreases self,
    {
        let token = match &self.token {
            Token::Text(s) => Token::Text(s.clone()),
            Token::Line => Token::Line,
            Token::LineBreak => Token::LineBreak,
            Token::Indent(c) => Token::Indent(Box::new((**c).duplicate())),
        };
        let next = match &self.next {
            Some(n) => Some(Box::new((**n).duplicate())),
            None => None,
        };
        Block { token, next }
    }
}

impl Clone for Block {
    fn clone(&self) -> (r: Self)
        ensures
            r == *self,
    {
        self.duplicate()
    }
}

/// The layouts of blocks at depth `d`.
pub open spec fn renders(items: Seq<Block>, d: nat) -> Seq<Seq<char>> {
    Seq::new(items.len(), |i: int| render(items[i], d))
}

/// Interleave `sep` between `items`. No items → empty text.
pub fn join(sep: Block, items: Vec<Block>) -> (r: Block)
    ensures
        forall|d: nat| #[trigger] render(r, d) == joined(renders(items@, d), render(sep, d)),
{
    let ghost orig = items@;
    let mut items = items;
    if items.len() == 0 {
        let e = text("");
        proof {
            reveal_strlit("");
            assert forall|d: nat| #[trigger] render(e, d) == joined(renders(orig, d), render(sep, d)) by {
                assert(renders(orig, d).len() == 0);
            }
        }
        return e;
    }
    assert(orig.len() <= usize::MAX);
    let mut acc = items.remove(0);
    let mut k: usize = 1;
    proof {
        assert(items@ =~= orig.skip(1));
        assert forall|d: nat| #[trigger]
            render(acc, d) == joined(renders(orig.take(k as int), d), render(sep, d)) by {
            assert(renders(orig.take(1), d).len() == 1);
        }
    }
    while items.len() > 0
        invariant
            1 <= k <= orig.len(),
            orig.len() <= usize::MAX,
            items@ == orig.skip(k as int),
            forall|d: nat| #[trigger]
                render(acc, d) == joined(renders(orig.take(k as int), d), render(sep, d)),
        decreases items.len(),
    {
        let ghost g_acc = acc;
        assert(k < orig.len());
        let it = items.remove(0);
        let s2 = sep.clone();
        acc = acc + s2 + it;
        proof {
            assert(it == orig[k as int]);
            assert forall|d: nat| #[trigger]
                render(acc, d) == joined(renders(orig.take(k + 1), d), render(sep, d)) by {
                lemma_render_concat(g_acc, sep, d);
                lemma_render_concat(concat(g_acc, sep), it, d);
                assert(renders(orig.take(k + 1), d).drop_last() =~= renders(orig.take(k as int), d));
                assert(renders(orig.take(k + 1), d).last() == render(it, d));
            }
            assert(items@ =~= orig.skip(k + 1));
        }
        k = k + 1;
    }
    proof {
        assert(orig.take(k as int) =~= orig);
    }
    acc
}

} // verus!

verus! {

/// Renders an IR node back to SQL text.
pub trait ToSql {
    /// The SQL text of this node laid out at indentation depth `depth`.
    spec fn sql_at(&self, depth: nat) -> Seq<char>;

    /// Returns a block tree for formatting.
    fn block(&self) -> (b: Block)
        ensures
            forall|d: nat| #[trigger] render(b, d) == self.sql_at(d),
    ;

    /// Returns a SQL representation: the block laid out from depth zero.
    fn sql(&self) -> (s: String)
        ensures
            s@ == self.sql_at(0),
    ;
}

/// The SQL text of a type at depth `d`.
pub open spec fn type_text(t: Type, d: nat) -> Seq<char>
    decreases t,
{
    match t {
        Type::Any => "any"@,
        Type::Bool => "bool"@,
        Type::Int => "int"@,
        Type::Float => "float"@,
        Type::Number => "number"@,
        Type::String => "string"@,
        Type::Object(o) => object_text(o, d),
        Type::Array => "array"@,
    }
}

/// The SQL text of an object type at depth `d`: `object` when it has no
/// members, else its members one per line inside braces.
pub open spec fn object_text(o: TObject, d: nat) -> Seq<char>
    decreases o,
{
    if o.members@.len() == 0 {
        "object"@
    } else {
        "{"@ + newline(deeper(d)) + members_text(o.members@, deeper(d)) + newline(d) + "}"@
    }
}

/// Object-type members at depth `d`, separated by a comma and a line break.
pub open spec fn members_text(ms: Seq<TMember>, d: nat) -> Seq<char>
    decreases ms,
{
    if ms.len() == 0 {
        Seq::empty()
    } else if ms.len() == 1 {
        member_text(ms[0], d)
    } else {
        members_text(ms.drop_last(), d) + ","@ + newline(d) + member_text(ms.last(), d)
    }
}

/// One object-type member: `name: type`.
pub open spec fn member_text(m: TMember, d: nat) -> Seq<char>
    decreases m,
{
    m.name@ + ": "@ + type_text(*m.ty, d)
}

} // verus!

verus! {

/// `members_text` is the members' texts interleaved with `,` and a break.
proof fn lemma_members_text_joined(ms: Seq<TMember>, d: nat)
    ensures
        members_text(ms, d) == joined(
            Seq::new(ms.len(), |i: int| member_text(ms[i], d)),
            ","@ + newline(d),
        ),
    decreases ms.len(),
{
    if ms.len() > 1 {
        lemma_members_text_joined(ms.drop_last(), d);
        assert(Seq::new(ms.len(), |i: int| member_text(ms[i], d)).drop_last() =~= Seq::new(
            ms.drop_last().len(),
            |i: int| member_text(ms.drop_last()[i], d),
        ));
    }
}

/// The separator between listed items: a comma and a hard break.
pub(crate) fn comma_break() -> (b: Block)
    ensures
        forall|d: nat| #[trigger] render(b, d) == ","@ + newline(d),
{
    let c = text(",");
    let ghost g_c = c;
    let l = linebreak();
    let ghost g_l = l;
    let b = c.append(l);
    assert forall|d: nat| #[trigger] render(b, d) == ","@ + newline(d) by {
        lemma_render_concat(g_c, g_l, d);
    }
    b
}

/// The block of a type.
pub(crate) fn type_block(t: &Type) -> (b: Block)
    ensures
        forall|d: nat| #[trigger] render(b, d) == type_text(*t, d),
    decreases t,
{
    match t {
        Type::Any => text("any"),
        Type::Bool => text("bool"),
        Type::Int => text("int"),
        Type::Float => text("float"),
        Type::Number => text("number"),
        Type::String => text("string"),
        Type::Object(o) => object_block(o),
        Type::Array => text("array"),
    }
}

/// The block of an object type.
pub(crate) fn object_block(o: &TObject) -> (b: Block)
    ensures
        forall|d: nat| #[trigger] render(b, d) == object_text(*o, d),
    decreases o,
{
    if o.members.len() == 0 {
        return text("object");
    }
    let mut blocks: Vec<Block> = Vec::new();
    let mut i: usize = 0;
    while i < o.members.len()
        invariant
            i <= o.members@.len(),
            blocks@.len() == i,
            forall|j: int, d: nat|
                0 <= j < i ==> #[trigger] render(blocks@[j], d) == member_text(o.members@[j], d),
        decreases o.members.len() - i,
    {
        let mb = member_block(&o.members[i]);
        blocks.push(mb);
        i = i + 1;
    }
    let ghost g_blocks = blocks@;
    let sep = comma_break();
    let ghost g_sep = sep;
    let body = join(sep, blocks);
    let ghost g_body = body;
    let r = body.nest("{", "}");
    assert forall|d: nat| #[trigger] render(r, d) == object_text(*o, d) by {
        let dd = deeper(d);
        lemma_members_text_joined(o.members@, dd);
        assert(renders(g_blocks, dd) =~= Seq::new(
            o.members@.len(),
            |k: int| member_text(o.members@[k], dd),
        ));
        assert(render(g_body, dd) == members_text(o.members@, dd));
    }
    r
}

/// The block of one object-type member.
pub(crate) fn member_block(m: &TMember) -> (b: Block)
    ensures
        forall|d: nat| #[trigger] render(b, d) == member_text(*m, d),
    decreases m,
{
    let n = text(m.name.as_str());
    let ghost g_n = n;
    let colon = text(": ");
    let ghost g_colon = colon;
    let ty = type_block(&m.ty);
    let ghost g_ty = ty;
    let r = n.append(colon).append(ty);
    assert forall|d: nat| #[trigger] render(r, d) == member_text(*m, d) by {
        lemma_render_concat(g_n, g_colon, d);
        lemma_render_concat(concat(g_n, g_colon), g_ty, d);
    }
    r
}

} // verus!


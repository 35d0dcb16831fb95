//! ANSI syntax highlighting of SQL input lines.
use vstd::prelude::*;

use crate::lexer::{
    keyword_text, keyword_token, lemma_lexeme_end, symbol_token, lemma_skip_blanks, lexeme_at, lexeme_ok, skip_blanks, step_spec,
    token_of, Lexeme, SqlLexer, Token,
};

verus! {

/// Ends a styled run.
pub const RESET: &'static str = "\x1b[0m";

/// Starts a keyword.
pub const KEYWORD: &'static str = "\x1b[1;33m";

/// Starts a literal.
pub const LITERAL: &'static str = "\x1b[36m";

/// Starts a symbol.
pub const SYMBOL: &'static str = "\x1b[2m";

/// The style of a token: literals (`null`, `true`, `false`, numbers,
/// strings), keywords and type names, symbols; parameters and identifiers
/// get the plain style.
pub open spec fn style_spec(t: Token) -> &'static str {
    match t {
        Token::Null | Token::True | Token::False | Token::Number(_) | Token::String(_) => LITERAL,
        Token::Ast | Token::Comma | Token::Colon | Token::Dollar | Token::Question | Token::DotDot
        | Token::Ellipsis | Token::Eq | Token::Gt | Token::Ge | Token::Lt | Token::Le
        | Token::Minus | Token::Ne | Token::Percent | Token::Plus | Token::Period | Token::Pipe
        | Token::SemiColon | Token::Sol | Token::ParenL | Token::ParenR | Token::BraceL
        | Token::BraceR | Token::BracketL | Token::BracketR => SYMBOL,
        Token::NumberedParam(_) | Token::NamedParam(_) | Token::Identifier(_) => RESET,
        _ => KEYWORD,
    }
}

/// The style of a lexeme by its kind and text.
pub open spec fn lexeme_style(k: Lexeme, text: Seq<char>) -> &'static str {
    match k {
        Lexeme::Word => match keyword_token(text) {
            Some(t) => style_spec(t),
            None => RESET,
        },
        Lexeme::Number => LITERAL,
        Lexeme::Quoted => LITERAL,
        Lexeme::Symbol => SYMBOL,
        _ => RESET,
    }
}

/// The highlighted text of `s` from position `i`: each token that lexes
/// wrapped in its style and a reset, everything else (blanks, stray
/// characters, strings with bad escapes) as it is.
pub open spec fn highlight_from(s: Seq<char>, i: int) -> Seq<char>
    decreases s.len() - i,
{
    if i < 0 || i > s.len() {
        Seq::empty()
    } else {
        match step_spec(s, i) {
            None => s.subrange(i, s.len() as int),
            Some((a, k, b)) => if i <= a < b <= s.len() {
                if lexeme_ok(k, s.subrange(a, b)) {
                    s.subrange(i, a) + lexeme_style(k, s.subrange(a, b))@ + s.subrange(a, b)
                        + RESET@ + highlight_from(s, b)
                } else {
                    s.subrange(i, b) + highlight_from(s, b)
                }
            } else {
                Seq::empty()
            },
        }
    }
}

/// The style of a token.
fn style_for(t: &Token) -> (r: &'static str)
    ensures
        r == style_spec(*t),
{
    match t {
        Token::Null | Token::True | Token::False | Token::Number(_) | Token::String(_) => LITERAL,
        Token::Ast | Token::Comma | Token::Colon | Token::Dollar | Token::Question | Token::DotDot
        | Token::Ellipsis | Token::Eq | Token::Gt | Token::Ge | Token::Lt | Token::Le
        | Token::Minus | Token::Ne | Token::Percent | Token::Plus | Token::Period | Token::Pipe
        | Token::SemiColon | Token::Sol | Token::ParenL | Token::ParenR | Token::BraceL
        | Token::BraceR | Token::BracketL | Token::BracketR => SYMBOL,
        Token::NumberedParam(_) | Token::NamedParam(_) | Token::Identifier(_) => RESET,
        _ => KEYWORD,
    }
}

/// A token's style is the style of the lexeme it lexes from.
proof fn lemma_style(k: Lexeme, text: Seq<char>, t: Token)
    requires
        token_of(k, text, t),
    ensures
        style_spec(t) == lexeme_style(k, text),
{
    if let Lexeme::Symbol = k {
        let sym = crate::lexer::symbol_token(text);
        assert(sym == Some(t));
    }
}

/// Returns `line` with ANSI escape sequences marking keywords, literals and
/// symbols.
#[verifier::rlimit(40)]
pub fn highlight_line(line: &str) -> (r: String)
    requires
        line@.len() + 8 <= usize::MAX,
    ensures
        r@ == highlight_from(line@, 0),
{
    let mut lx = SqlLexer::new(line);
    let mut out = String::new();
    let mut prev: usize = 0;
    let n = line.unicode_len();
    loop
        invariant
            lx.wf(),
            lx.text() == line@,
            n == line@.len(),
            0 <= prev <= lx.position() <= line@.len(),
            out@ + line@.subrange(prev as int, lx.position()) + highlight_from(
                line@,
                lx.position(),
            ) == highlight_from(line@, 0),
        decreases line@.len() - lx.position(),
    {
        let ghost before = lx.position();
        let ghost step = step_spec(line@, before);
        proof {
            lemma_skip_blanks(line@, before);
            if skip_blanks(line@, before) < line@.len() {
                lemma_lexeme_end(line@, skip_blanks(line@, before));
            }
            assert(line@.subrange(prev as int, before) + Seq::<char>::empty() =~= line@.subrange(
                prev as int,
                before,
            ));
        }
        match lx.next() {
            None => {
                let tail = line.substring_char(prev, n);
                out.append(tail);
                proof {
                    assert(line@.subrange(prev as int, before) + line@.subrange(
                        before,
                        line@.len() as int,
                    ) =~= line@.subrange(prev as int, line@.len() as int));
                }
                return out;
            },
            Some(Ok((a, t, b))) => {
                proof {
                    lemma_style(step.unwrap().1, line@.subrange(a as int, b as int), t);
                    assert(line@.subrange(prev as int, before) + line@.subrange(before, a as int)
                        =~= line@.subrange(prev as int, a as int));
                }
                out.append(line.substring_char(prev, a));
                out.append(style_for(&t));
                out.append(line.substring_char(a, b));
                out.append(RESET);
                prev = b;
                proof {
                    assert(line@.subrange(b as int, b as int) =~= Seq::<char>::empty());
                }
            },
            Some(Err(_)) => {
                proof {
                    assert(line@.subrange(prev as int, before) + line@.subrange(before, lx.position())
                        =~= line@.subrange(prev as int, lx.position()));
                }
            },
        }
    }
}

} // verus!

verus! {

/// The escape character that starts a style.
pub open spec fn esc() -> char {
    '\x1b'
}

/// Where the escape sequence at the start of `s` ends: after its first `m`
/// (or at the end of `s`).
pub open spec fn escape_end(s: Seq<char>, i: int) -> int
    decreases s.len() - i,
{
    if i >= s.len() {
        s.len() as int
    } else if s[i] == 'm' {
        i + 1
    } else {
        escape_end(s, i + 1)
    }
}

/// `s` with its escape sequences (an escape character up to the next `m`)
/// taken out.
pub open spec fn unstyle(s: Seq<char>) -> Seq<char>
    decreases s.len(),
{
    if s.len() == 0 {
        Seq::empty()
    } else if s[0] == esc() {
        let e = escape_end(s, 1);
        if 1 <= e <= s.len() {
            unstyle(s.subrange(e, s.len() as int))
        } else {
            Seq::empty()
        }
    } else {
        seq![s[0]] + unstyle(s.drop_first())
    }
}

/// Text without the escape character.
pub open spec fn no_escapes(s: Seq<char>) -> bool {
    forall|i: int| 0 <= i < s.len() ==> s[i] != esc()
}

proof fn lemma_escape_end_bounds(s: Seq<char>, i: int)
    requires
        0 <= i,
    ensures
        i <= escape_end(s, i) || i > s.len(),
        escape_end(s, i) <= s.len() || i > s.len(),
    decreases s.len() - i,
{
    if i < s.len() && s[i] != 'm' {
        lemma_escape_end_bounds(s, i + 1);
    }
}

/// Text without escapes passes through.
proof fn lemma_unstyle_plain(x: Seq<char>, y: Seq<char>)
    requires
        no_escapes(x),
    ensures
        unstyle(x + y) == x + unstyle(y),
    decreases x.len(),
{
    if x.len() > 0 {
        assert((x + y)[0] == x[0]);
        assert((x + y).drop_first() =~= x.drop_first() + y);
        lemma_unstyle_plain(x.drop_first(), y);
        assert(x =~= seq![x[0]] + x.drop_first());
        assert(seq![x[0]] + (x.drop_first() + unstyle(y)) =~= x + unstyle(y));
    } else {
        assert(x + y =~= y);
        assert(x + unstyle(y) =~= unstyle(y));
    }
}

/// The position of the first `m` of `st` from `i`, when `st` holds one only
/// at its end.
proof fn lemma_escape_end_in(st: Seq<char>, y: Seq<char>, i: int)
    requires
        1 <= i < st.len(),
        st.last() == 'm',
        forall|j: int| 1 <= j < st.len() - 1 ==> st[j] != 'm',
    ensures
        escape_end(st + y, i) == st.len(),
    decreases st.len() - i,
{
    if i < st.len() - 1 {
        assert((st + y)[i] == st[i]);
        lemma_escape_end_in(st, y, i + 1);
    } else {
        assert((st + y)[i] == 'm');
    }
}

/// A style sequence goes away.
proof fn lemma_unstyle_style(st: Seq<char>, y: Seq<char>)
    requires
        st.len() >= 2,
        st[0] == esc(),
        st.last() == 'm',
        forall|j: int| 1 <= j < st.len() - 1 ==> st[j] != 'm',
    ensures
        unstyle(st + y) == unstyle(y),
{
    lemma_escape_end_in(st, y, 1);
    assert((st + y)[0] == esc());
    assert((st + y).subrange(st.len() as int, (st + y).len() as int) =~= y);
}

/// A style: the escape character, then no `m` until the final `m`.
pub open spec fn style_shape(st: Seq<char>) -> bool {
    &&& st.len() >= 2
    &&& st[0] == esc()
    &&& st.last() == 'm'
    &&& forall|j: int| 1 <= j < st.len() - 1 ==> st[j] != 'm'
}

/// The four styles are escape sequences.
proof fn lemma_styles()
    ensures
        style_shape(RESET@),
        style_shape(KEYWORD@),
        style_shape(LITERAL@),
        style_shape(SYMBOL@),
{
    reveal_strlit("\x1b[0m");
    reveal_strlit("\x1b[1;33m");
    reveal_strlit("\x1b[36m");
    reveal_strlit("\x1b[2m");
}

/// Every lexeme's style is one of the four.
proof fn lemma_lexeme_style(k: Lexeme, text: Seq<char>)
    ensures
        style_shape(lexeme_style(k, text)@),
{
    lemma_styles();
}

/// One highlighted token, escapes taken out, is its gap and its text.
proof fn lemma_piece(gap: Seq<char>, st: Seq<char>, text: Seq<char>, rest: Seq<char>)
    requires
        no_escapes(gap),
        no_escapes(text),
        style_shape(st),
        style_shape(RESET@),
    ensures
        unstyle(gap + st + text + RESET@ + rest) == gap + text + unstyle(rest),
{
    assert(gap + st + text + RESET@ + rest =~= gap + (st + (text + (RESET@ + rest))));
    lemma_unstyle_style(RESET@, rest);
    lemma_unstyle_plain(text, RESET@ + rest);
    lemma_unstyle_style(st, text + (RESET@ + rest));
    lemma_unstyle_plain(gap, st + (text + (RESET@ + rest)));
    assert(gap + (text + unstyle(rest)) =~= gap + text + unstyle(rest));
}

/// Taking the escape sequences out of the highlighting of a text from `i`
/// gives the text from `i` back.
proof fn lemma_unstyle_from(s: Seq<char>, i: int)
    requires
        no_escapes(s),
        0 <= i <= s.len(),
    ensures
        unstyle(highlight_from(s, i)) == s.subrange(i, s.len() as int),
    decreases s.len() - i,
{
    match step_spec(s, i) {
        None => {
            lemma_unstyle_plain(s.subrange(i, s.len() as int), Seq::empty());
            assert(s.subrange(i, s.len() as int) + Seq::<char>::empty() =~= s.subrange(
                i,
                s.len() as int,
            ));
        },
        Some((a, k, b)) => {
            lemma_skip_blanks(s, i);
            lemma_lexeme_end(s, a);
            let rest = highlight_from(s, b);
            lemma_unstyle_from(s, b);
            let text = s.subrange(a, b);
            if lexeme_ok(k, text) {
                let gap = s.subrange(i, a);
                lemma_styles();
                lemma_lexeme_style(k, text);
                lemma_piece(gap, lexeme_style(k, text)@, text, rest);
                assert(gap + text + s.subrange(b, s.len() as int) =~= s.subrange(
                    i,
                    s.len() as int,
                ));
            } else {
                lemma_unstyle_plain(s.subrange(i, b), rest);
                assert(s.subrange(i, b) + s.subrange(b, s.len() as int) =~= s.subrange(
                    i,
                    s.len() as int,
                ));
            }
        },
    }
}

/// Highlighting only adds styling: taking the escape sequences back out of
/// the highlighted line gives the line, for any line without escape
/// characters of its own.
pub proof fn law_highlight_keeps_text(line: Seq<char>)
    requires
        no_escapes(line),
    ensures
        unstyle(highlight_from(line, 0)) == line,
{
    lemma_unstyle_from(line, 0);
    assert(line.subrange(0, line.len() as int) =~= line);
}


/// A token that is a literal value: `null`, `true`, `false`, a number or a
/// string.
pub open spec fn is_literal_value(t: Token) -> bool {
    t is Null || t is True || t is False || t is Number || t is String
}

/// How each kind of token is styled: literal values as literals; the other
/// words that are keywords or type names as keywords; every symbol as a
/// symbol; parameters and identifiers plainly.
pub proof fn law_token_styles(t: Token)
    ensures
        is_literal_value(t) ==> style_spec(t) == LITERAL,
        keyword_text(t) is Some && !is_literal_value(t) ==> style_spec(t) == KEYWORD,
        (exists|text: Seq<char>| symbol_token(text) == Some(t)) ==> style_spec(t) == SYMBOL,
        t is Identifier || t is NumberedParam || t is NamedParam ==> style_spec(t) == RESET,
{
    assert forall|text: Seq<char>| #[trigger] symbol_token(text) == Some(t) implies style_spec(t) == SYMBOL by {
    }
}

} // verus!

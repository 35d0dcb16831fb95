//! The SQL token grammar: a longest-match lexer over the characters of a
//! line. Blanks (space, tab, newline, form feed) separate tokens; a keyword
//! wins over an identifier of the same text; a character that starts no
//! token is an error of its own and lexing goes on after it.
use vstd::prelude::*;

use crate::error::Error;
use crate::value::str_eq;
use vstd::std_specs::iter::IteratorSpec;

verus! {

/// A lexical token. Symbol, keyword and type tokens carry nothing; number,
/// string, parameter and identifier tokens carry their text (a string
/// literal its decoded content, a parameter its name without the `$`).
#[derive(Debug)]
pub enum Token {
    Ast,
    Comma,
    Colon,
    Dollar,
    Question,
    DotDot,
    Ellipsis,
    Eq,
    Gt,
    Ge,
    Lt,
    Le,
    Minus,
    Ne,
    Percent,
    Plus,
    Period,
    Pipe,
    SemiColon,
    Sol,
    ParenL,
    ParenR,
    BraceL,
    BraceR,
    BracketL,
    BracketR,
    All,
    And,
    As,
    Asc,
    At,
    Begin,
    Between,
    By,
    Clear,
    Commit,
    Copy,
    Create,
    Delete,
    Desc,
    Drop,
    Exists,
    Group,
    Having,
    In,
    Is,
    Limit,
    From,
    Insert,
    Into,
    Not,
    Or,
    Order,
    Pivot,
    Rollback,
    Select,
    Table,
    To,
    Unknown,
    Unpivot,
    Where,
    TypeBool,
    TypeInt,
    TypeFloat,
    TypeNumber,
    TypeString,
    TypeObject,
    TypeArray,
    TypeAny,
    Null,
    True,
    False,
    Number(String),
    String(String),
    NumberedParam(String),
    NamedParam(String),
    Identifier(String),
}

/// A blank between tokens.
pub open spec fn is_blank(c: char) -> bool {
    c == ' ' || c == '\t' || c == '\n' || c == '\x0c'
}

/// A decimal digit.
pub open spec fn is_digit(c: char) -> bool {
    '0' <= c <= '9'
}

/// A character that can start a word: a letter or `_`.
pub open spec fn is_word_start(c: char) -> bool {
    ('a' <= c <= 'z') || ('A' <= c <= 'Z') || c == '_'
}

/// A character that can continue a word.
pub open spec fn is_word_char(c: char) -> bool {
    is_word_start(c) || is_digit(c)
}

/// The character at `i`, when there is one.
pub open spec fn char_at(s: Seq<char>, i: int) -> Option<char> {
    if 0 <= i < s.len() {
        Some(s[i])
    } else {
        None
    }
}

/// Whether the character at `i` is a digit.
pub open spec fn digit_at(s: Seq<char>, i: int) -> bool {
    char_at(s, i) matches Some(c) && is_digit(c)
}

/// The first position at or after `i` that holds no blank.
pub open spec fn skip_blanks(s: Seq<char>, i: int) -> int
    decreases s.len() - i,
{
    if 0 <= i < s.len() && is_blank(s[i]) {
        skip_blanks(s, i + 1)
    } else {
        i
    }
}

/// The end of the run of digits from `i`.
pub open spec fn digits_end(s: Seq<char>, i: int) -> int
    decreases s.len() - i,
{
    if 0 <= i < s.len() && is_digit(s[i]) {
        digits_end(s, i + 1)
    } else {
        i
    }
}

/// The end of the run of word characters from `i`.
pub open spec fn word_end(s: Seq<char>, i: int) -> int
    decreases s.len() - i,
{
    if 0 <= i < s.len() && is_word_char(s[i]) {
        word_end(s, i + 1)
    } else {
        i
    }
}

/// The end of the number starting at `i` (which starts with a digit, or
/// with `-` and a digit): `-?(0|[1-9][0-9]*)(\.[0-9]+)?([eE][+-]?[0-9]+)?`,
/// as long as it goes.
pub open spec fn number_end(s: Seq<char>, i: int) -> int {
    let j0 = if char_at(s, i) == Some('-') {
        i + 1
    } else {
        i
    };
    let j1 = if char_at(s, j0) == Some('0') {
        j0 + 1
    } else {
        digits_end(s, j0)
    };
    let j2 = if char_at(s, j1) == Some('.') && digit_at(s, j1 + 1) {
        digits_end(s, j1 + 1)
    } else {
        j1
    };
    if char_at(s, j2) == Some('e') || char_at(s, j2) == Some('E') {
        let k = if char_at(s, j2 + 1) == Some('+') || char_at(s, j2 + 1) == Some('-') {
            j2 + 2
        } else {
            j2 + 1
        };
        if digit_at(s, k) {
            digits_end(s, k)
        } else {
            j2
        }
    } else {
        j2
    }
}

/// The end of a quoted string whose body starts at `j`, closed by `q`: any
/// character but `q` and `\`, or `\` and any character but a newline.
pub open spec fn string_end_from(s: Seq<char>, j: int, q: char) -> Option<int>
    decreases s.len() - j,
{
    if j < 0 || j >= s.len() {
        None
    } else if s[j] == q {
        Some(j + 1)
    } else if s[j] == '\\' {
        if j + 1 < s.len() && s[j + 1] != '\n' {
            string_end_from(s, j + 2, q)
        } else {
            None
        }
    } else {
        string_end_from(s, j + 1, q)
    }
}

/// The symbol spelled by `t`.
pub open spec fn symbol_token(t: Seq<char>) -> Option<Token> {
    if t == "*"@ {
        Some(Token::Ast)
    } else if t == ","@ {
        Some(Token::Comma)
    } else if t == ":"@ {
        Some(Token::Colon)
    } else if t == "$"@ {
        Some(Token::Dollar)
    } else if t == "?"@ {
        Some(Token::Question)
    } else if t == ".."@ {
        Some(Token::DotDot)
    } else if t == "..."@ {
        Some(Token::Ellipsis)
    } else if t == "="@ {
        Some(Token::Eq)
    } else if t == ">"@ {
        Some(Token::Gt)
    } else if t == ">="@ {
        Some(Token::Ge)
    } else if t == "<"@ {
        Some(Token::Lt)
    } else if t == "<="@ {
        Some(Token::Le)
    } else if t == "-"@ {
        Some(Token::Minus)
    } else if t == "!="@ {
        Some(Token::Ne)
    } else if t == "%"@ {
        Some(Token::Percent)
    } else if t == "+"@ {
        Some(Token::Plus)
    } else if t == "."@ {
        Some(Token::Period)
    } else if t == "|"@ {
        Some(Token::Pipe)
    } else if t == ";"@ {
        Some(Token::SemiColon)
    } else if t == "/"@ {
        Some(Token::Sol)
    } else if t == "("@ {
        Some(Token::ParenL)
    } else if t == ")"@ {
        Some(Token::ParenR)
    } else if t == "{"@ {
        Some(Token::BraceL)
    } else if t == "}"@ {
        Some(Token::BraceR)
    } else if t == "["@ {
        Some(Token::BracketL)
    } else if t == "]"@ {
        Some(Token::BracketR)
    } else {
        None
    }
}

/// The keyword, type name or literal word spelled by `t`.
pub open spec fn keyword_token(t: Seq<char>) -> Option<Token> {
    if t == "all"@ {
        Some(Token::All)
    } else if t == "and"@ {
        Some(Token::And)
    } else if t == "as"@ {
        Some(Token::As)
    } else if t == "asc"@ {
        Some(Token::Asc)
    } else if t == "at"@ {
        Some(Token::At)
    } else if t == "begin"@ {
        Some(Token::Begin)
    } else if t == "between"@ {
        Some(Token::Between)
    } else if t == "by"@ {
        Some(Token::By)
    } else if t == "clear"@ {
        Some(Token::Clear)
    } else if t == "commit"@ {
        Some(Token::Commit)
    } else if t == "copy"@ {
        Some(Token::Copy)
    } else if t == "create"@ {
        Some(Token::Create)
    } else if t == "delete"@ {
        Some(Token::Delete)
    } else if t == "desc"@ {
        Some(Token::Desc)
    } else if t == "drop"@ {
        Some(Token::Drop)
    } else if t == "exists"@ {
        Some(Token::Exists)
    } else if t == "group"@ {
        Some(Token::Group)
    } else if t == "having"@ {
        Some(Token::Having)
    } else if t == "in"@ {
        Some(Token::In)
    } else if t == "is"@ {
        Some(Token::Is)
    } else if t == "limit"@ {
        Some(Token::Limit)
    } else if t == "from"@ {
        Some(Token::From)
    } else if t == "insert"@ {
        Some(Token::Insert)
    } else if t == "into"@ {
        Some(Token::Into)
    } else if t == "not"@ {
        Some(Token::Not)
    } else if t == "or"@ {
        Some(Token::Or)
    } else if t == "order"@ {
        Some(Token::Order)
    } else if t == "pivot"@ {
        Some(Token::Pivot)
    } else if t == "rollback"@ {
        Some(Token::Rollback)
    } else if t == "select"@ {
        Some(Token::Select)
    } else if t == "table"@ {
        Some(Token::Table)
    } else if t == "to"@ {
        Some(Token::To)
    } else if t == "unknown"@ {
        Some(Token::Unknown)
    } else if t == "unpivot"@ {
        Some(Token::Unpivot)
    } else if t == "where"@ {
        Some(Token::Where)
    } else if t == "bool"@ {
        Some(Token::TypeBool)
    } else if t == "int"@ {
        Some(Token::TypeInt)
    } else if t == "float"@ {
        Some(Token::TypeFloat)
    } else if t == "number"@ {
        Some(Token::TypeNumber)
    } else if t == "string"@ {
        Some(Token::TypeString)
    } else if t == "object"@ {
        Some(Token::TypeObject)
    } else if t == "array"@ {
        Some(Token::TypeArray)
    } else if t == "any"@ {
        Some(Token::TypeAny)
    } else if t == "null"@ {
        Some(Token::Null)
    } else if t == "true"@ {
        Some(Token::True)
    } else if t == "false"@ {
        Some(Token::False)
    } else {
        None
    }
}

/// The text of a symbol token; none for the other tokens.
pub open spec fn symbol_text(t: Token) -> Option<Seq<char>> {
    match t {
        Token::Ast => Some("*"@),
        Token::Comma => Some(","@),
        Token::Colon => Some(":"@),
        Token::Dollar => Some("$"@),
        Token::Question => Some("?"@),
        Token::DotDot => Some(".."@),
        Token::Ellipsis => Some("..."@),
        Token::Eq => Some("="@),
        Token::Gt => Some(">"@),
        Token::Ge => Some(">="@),
        Token::Lt => Some("<"@),
        Token::Le => Some("<="@),
        Token::Minus => Some("-"@),
        Token::Ne => Some("!="@),
        Token::Percent => Some("%"@),
        Token::Plus => Some("+"@),
        Token::Period => Some("."@),
        Token::Pipe => Some("|"@),
        Token::SemiColon => Some(";"@),
        Token::Sol => Some("/"@),
        Token::ParenL => Some("("@),
        Token::ParenR => Some(")"@),
        Token::BraceL => Some("{"@),
        Token::BraceR => Some("}"@),
        Token::BracketL => Some("["@),
        Token::BracketR => Some("]"@),
        _ => None,
    }
}

/// A symbol lexes as a token exactly when it is that token's text: `<`
/// gives `Lt`, `>` gives `Gt`, `;` gives `SemiColon`, and so on for every
/// symbol.
pub proof fn law_symbols_spell_their_tokens(w: Seq<char>, t: Token)
    ensures
        symbol_token(w) == Some(t) <==> symbol_text(t) == Some(w),
{
    reveal_strlit("*");
    reveal_strlit(",");
    reveal_strlit(":");
    reveal_strlit("$");
    reveal_strlit("?");
    reveal_strlit("..");
    reveal_strlit("...");
    reveal_strlit("=");
    reveal_strlit(">");
    reveal_strlit(">=");
    reveal_strlit("<");
    reveal_strlit("<=");
    reveal_strlit("-");
    reveal_strlit("!=");
    reveal_strlit("%");
    reveal_strlit("+");
    reveal_strlit(".");
    reveal_strlit("|");
    reveal_strlit(";");
    reveal_strlit("/");
    reveal_strlit("(");
    reveal_strlit(")");
    reveal_strlit("{");
    reveal_strlit("}");
    reveal_strlit("[");
    reveal_strlit("]");
    if symbol_text(t) == Some(w) {
        match t {
            Token::Ast => {
                
                assert(symbol_token("*"@) == Some(Token::Ast));
            },
            Token::Comma => {
                assert(","@[0] != "*"@[0]);
                assert(symbol_token(","@) == Some(Token::Comma));
            },
            Token::Colon => {
                assert(":"@[0] != "*"@[0]);
                assert(":"@[0] != ","@[0]);
                assert(symbol_token(":"@) == Some(Token::Colon));
            },
            Token::Dollar => {
                assert("$"@[0] != "*"@[0]);
                assert("$"@[0] != ","@[0]);
                assert("$"@[0] != ":"@[0]);
                assert(symbol_token("$"@) == Some(Token::Dollar));
            },
            Token::Question => {
                assert("?"@[0] != "*"@[0]);
                assert("?"@[0] != ","@[0]);
                assert("?"@[0] != ":"@[0]);
                assert("?"@[0] != "$"@[0]);
                assert(symbol_token("?"@) == Some(Token::Question));
            },
            Token::DotDot => {
                assert(".."@.len() != "*"@.len());
                assert(".."@.len() != ","@.len());
                assert(".."@.len() != ":"@.len());
                assert(".."@.len() != "$"@.len());
                assert(".."@.len() != "?"@.len());
                assert(symbol_token(".."@) == Some(Token::DotDot));
            },
            Token::Ellipsis => {
                assert("..."@.len() != "*"@.len());
                assert("..."@.len() != ","@.len());
                assert("..."@.len() != ":"@.len());
                assert("..."@.len() != "$"@.len());
                assert("..."@.len() != "?"@.len());
                assert("..."@.len() != ".."@.len());
                assert(symbol_token("..."@) == Some(Token::Ellipsis));
            },
            Token::Eq => {
                assert("="@[0] != "*"@[0]);
                assert("="@[0] != ","@[0]);
                assert("="@[0] != ":"@[0]);
                assert("="@[0] != "$"@[0]);
                assert("="@[0] != "?"@[0]);
                assert("="@.len() != ".."@.len());
                assert("="@.len() != "..."@.len());
                assert(symbol_token("="@) == Some(Token::Eq));
            },
            Token::Gt => {
                assert(">"@[0] != "*"@[0]);
                assert(">"@[0] != ","@[0]);
                assert(">"@[0] != ":"@[0]);
                assert(">"@[0] != "$"@[0]);
                assert(">"@[0] != "?"@[0]);
                assert(">"@.len() != ".."@.len());
                assert(">"@.len() != "..."@.len());
                assert(">"@[0] != "="@[0]);
                assert(symbol_token(">"@) == Some(Token::Gt));
            },
            Token::Ge => {
                assert(">="@.len() != "*"@.len());
                assert(">="@.len() != ","@.len());
                assert(">="@.len() != ":"@.len());
                assert(">="@.len() != "$"@.len());
                assert(">="@.len() != "?"@.len());
                assert(">="@[0] != ".."@[0]);
                assert(">="@.len() != "..."@.len());
                assert(">="@.len() != "="@.len());
                assert(">="@.len() != ">"@.len());
                assert(symbol_token(">="@) == Some(Token::Ge));
            },
            Token::Lt => {
                assert("<"@[0] != "*"@[0]);
                assert("<"@[0] != ","@[0]);
                assert("<"@[0] != ":"@[0]);
                assert("<"@[0] != "$"@[0]);
                assert("<"@[0] != "?"@[0]);
                assert("<"@.len() != ".."@.len());
                assert("<"@.len() != "..."@.len());
                assert("<"@[0] != "="@[0]);
                assert("<"@[0] != ">"@[0]);
                assert("<"@.len() != ">="@.len());
                assert(symbol_token("<"@) == Some(Token::Lt));
            },
            Token::Le => {
                assert("<="@.len() != "*"@.len());
                assert("<="@.len() != ","@.len());
                assert("<="@.len() != ":"@.len());
                assert("<="@.len() != "$"@.len());
                assert("<="@.len() != "?"@.len());
                assert("<="@[0] != ".."@[0]);
                assert("<="@.len() != "..."@.len());
                assert("<="@.len() != "="@.len());
                assert("<="@.len() != ">"@.len());
                assert("<="@[0] != ">="@[0]);
                assert("<="@.len() != "<"@.len());
                assert(symbol_token("<="@) == Some(Token::Le));
            },
            Token::Minus => {
                assert("-"@[0] != "*"@[0]);
                assert("-"@[0] != ","@[0]);
                assert("-"@[0] != ":"@[0]);
                assert("-"@[0] != "$"@[0]);
                assert("-"@[0] != "?"@[0]);
                assert("-"@.len() != ".."@.len());
                assert("-"@.len() != "..."@.len());
                assert("-"@[0] != "="@[0]);
                assert("-"@[0] != ">"@[0]);
                assert("-"@.len() != ">="@.len());
                assert("-"@[0] != "<"@[0]);
                assert("-"@.len() != "<="@.len());
                assert(symbol_token("-"@) == Some(Token::Minus));
            },
            Token::Ne => {
                assert("!="@.len() != "*"@.len());
                assert("!="@.len() != ","@.len());
                assert("!="@.len() != ":"@.len());
                assert("!="@.len() != "$"@.len());
                assert("!="@.len() != "?"@.len());
                assert("!="@[0] != ".."@[0]);
                assert("!="@.len() != "..."@.len());
                assert("!="@.len() != "="@.len());
                assert("!="@.len() != ">"@.len());
                assert("!="@[0] != ">="@[0]);
                assert("!="@.len() != "<"@.len());
                assert("!="@[0] != "<="@[0]);
                assert("!="@.len() != "-"@.len());
                assert(symbol_token("!="@) == Some(Token::Ne));
            },
            Token::Percent => {
                assert("%"@[0] != "*"@[0]);
                assert("%"@[0] != ","@[0]);
                assert("%"@[0] != ":"@[0]);
                assert("%"@[0] != "$"@[0]);
                assert("%"@[0] != "?"@[0]);
                assert("%"@.len() != ".."@.len());
                assert("%"@.len() != "..."@.len());
                assert("%"@[0] != "="@[0]);
                assert("%"@[0] != ">"@[0]);
                assert("%"@.len() != ">="@.len());
                assert("%"@[0] != "<"@[0]);
                assert("%"@.len() != "<="@.len());
                assert("%"@[0] != "-"@[0]);
                assert("%"@.len() != "!="@.len());
                assert(symbol_token("%"@) == Some(Token::Percent));
            },
            Token::Plus => {
                assert("+"@[0] != "*"@[0]);
                assert("+"@[0] != ","@[0]);
                assert("+"@[0] != ":"@[0]);
                assert("+"@[0] != "$"@[0]);
                assert("+"@[0] != "?"@[0]);
                assert("+"@.len() != ".."@.len());
                assert("+"@.len() != "..."@.len());
                assert("+"@[0] != "="@[0]);
                assert("+"@[0] != ">"@[0]);
                assert("+"@.len() != ">="@.len());
                assert("+"@[0] != "<"@[0]);
                assert("+"@.len() != "<="@.len());
                assert("+"@[0] != "-"@[0]);
                assert("+"@.len() != "!="@.len());
                assert("+"@[0] != "%"@[0]);
                assert(symbol_token("+"@) == Some(Token::Plus));
            },
            Token::Period => {
                assert("."@[0] != "*"@[0]);
                assert("."@[0] != ","@[0]);
                assert("."@[0] != ":"@[0]);
                assert("."@[0] != "$"@[0]);
                assert("."@[0] != "?"@[0]);
                assert("."@.len() != ".."@.len());
                assert("."@.len() != "..."@.len());
                assert("."@[0] != "="@[0]);
                assert("."@[0] != ">"@[0]);
                assert("."@.len() != ">="@.len());
                assert("."@[0] != "<"@[0]);
                assert("."@.len() != "<="@.len());
                assert("."@[0] != "-"@[0]);
                assert("."@.len() != "!="@.len());
                assert("."@[0] != "%"@[0]);
                assert("."@[0] != "+"@[0]);
                assert(symbol_token("."@) == Some(Token::Period));
            },
            Token::Pipe => {
                assert("|"@[0] != "*"@[0]);
                assert("|"@[0] != ","@[0]);
                assert("|"@[0] != ":"@[0]);
                assert("|"@[0] != "$"@[0]);
                assert("|"@[0] != "?"@[0]);
                assert("|"@.len() != ".."@.len());
                assert("|"@.len() != "..."@.len());
                assert("|"@[0] != "="@[0]);
                assert("|"@[0] != ">"@[0]);
                assert("|"@.len() != ">="@.len());
                assert("|"@[0] != "<"@[0]);
                assert("|"@.len() != "<="@.len());
                assert("|"@[0] != "-"@[0]);
                assert("|"@.len() != "!="@.len());
                assert("|"@[0] != "%"@[0]);
                assert("|"@[0] != "+"@[0]);
                assert("|"@[0] != "."@[0]);
                assert(symbol_token("|"@) == Some(Token::Pipe));
            },
            Token::SemiColon => {
                assert(";"@[0] != "*"@[0]);
                assert(";"@[0] != ","@[0]);
                assert(";"@[0] != ":"@[0]);
                assert(";"@[0] != "$"@[0]);
                assert(";"@[0] != "?"@[0]);
                assert(";"@.len() != ".."@.len());
                assert(";"@.len() != "..."@.len());
                assert(";"@[0] != "="@[0]);
                assert(";"@[0] != ">"@[0]);
                assert(";"@.len() != ">="@.len());
                assert(";"@[0] != "<"@[0]);
                assert(";"@.len() != "<="@.len());
                assert(";"@[0] != "-"@[0]);
                assert(";"@.len() != "!="@.len());
                assert(";"@[0] != "%"@[0]);
                assert(";"@[0] != "+"@[0]);
                assert(";"@[0] != "."@[0]);
                assert(";"@[0] != "|"@[0]);
                assert(symbol_token(";"@) == Some(Token::SemiColon));
            },
            Token::Sol => {
                assert("/"@[0] != "*"@[0]);
                assert("/"@[0] != ","@[0]);
                assert("/"@[0] != ":"@[0]);
                assert("/"@[0] != "$"@[0]);
                assert("/"@[0] != "?"@[0]);
                assert("/"@.len() != ".."@.len());
                assert("/"@.len() != "..."@.len());
                assert("/"@[0] != "="@[0]);
                assert("/"@[0] != ">"@[0]);
                assert("/"@.len() != ">="@.len());
                assert("/"@[0] != "<"@[0]);
                assert("/"@.len() != "<="@.len());
                assert("/"@[0] != "-"@[0]);
                assert("/"@.len() != "!="@.len());
                assert("/"@[0] != "%"@[0]);
                assert("/"@[0] != "+"@[0]);
                assert("/"@[0] != "."@[0]);
                assert("/"@[0] != "|"@[0]);
                assert("/"@[0] != ";"@[0]);
                assert(symbol_token("/"@) == Some(Token::Sol));
            },
            Token::ParenL => {
                assert("("@[0] != "*"@[0]);
                assert("("@[0] != ","@[0]);
                assert("("@[0] != ":"@[0]);
                assert("("@[0] != "$"@[0]);
                assert("("@[0] != "?"@[0]);
                assert("("@.len() != ".."@.len());
                assert("("@.len() != "..."@.len());
                assert("("@[0] != "="@[0]);
                assert("("@[0] != ">"@[0]);
                assert("("@.len() != ">="@.len());
                assert("("@[0] != "<"@[0]);
                assert("("@.len() != "<="@.len());
                assert("("@[0] != "-"@[0]);
                assert("("@.len() != "!="@.len());
                assert("("@[0] != "%"@[0]);
                assert("("@[0] != "+"@[0]);
                assert("("@[0] != "."@[0]);
                assert("("@[0] != "|"@[0]);
                assert("("@[0] != ";"@[0]);
                assert("("@[0] != "/"@[0]);
                assert(symbol_token("("@) == Some(Token::ParenL));
            },
            Token::ParenR => {
                assert(")"@[0] != "*"@[0]);
                assert(")"@[0] != ","@[0]);
                assert(")"@[0] != ":"@[0]);
                assert(")"@[0] != "$"@[0]);
                assert(")"@[0] != "?"@[0]);
                assert(")"@.len() != ".."@.len());
                assert(")"@.len() != "..."@.len());
                assert(")"@[0] != "="@[0]);
                assert(")"@[0] != ">"@[0]);
                assert(")"@.len() != ">="@.len());
                assert(")"@[0] != "<"@[0]);
                assert(")"@.len() != "<="@.len());
                assert(")"@[0] != "-"@[0]);
                assert(")"@.len() != "!="@.len());
                assert(")"@[0] != "%"@[0]);
                assert(")"@[0] != "+"@[0]);
                assert(")"@[0] != "."@[0]);
                assert(")"@[0] != "|"@[0]);
                assert(")"@[0] != ";"@[0]);
                assert(")"@[0] != "/"@[0]);
                assert(")"@[0] != "("@[0]);
                assert(symbol_token(")"@) == Some(Token::ParenR));
            },
            Token::BraceL => {
                assert("{"@[0] != "*"@[0]);
                assert("{"@[0] != ","@[0]);
                assert("{"@[0] != ":"@[0]);
                assert("{"@[0] != "$"@[0]);
                assert("{"@[0] != "?"@[0]);
                assert("{"@.len() != ".."@.len());
                assert("{"@.len() != "..."@.len());
                assert("{"@[0] != "="@[0]);
                assert("{"@[0] != ">"@[0]);
                assert("{"@.len() != ">="@.len());
                assert("{"@[0] != "<"@[0]);
                assert("{"@.len() != "<="@.len());
                assert("{"@[0] != "-"@[0]);
                assert("{"@.len() != "!="@.len());
                assert("{"@[0] != "%"@[0]);
                assert("{"@[0] != "+"@[0]);
                assert("{"@[0] != "."@[0]);
                assert("{"@[0] != "|"@[0]);
                assert("{"@[0] != ";"@[0]);
                assert("{"@[0] != "/"@[0]);
                assert("{"@[0] != "("@[0]);
                assert("{"@[0] != ")"@[0]);
                assert(symbol_token("{"@) == Some(Token::BraceL));
            },
            Token::BraceR => {
                assert("}"@[0] != "*"@[0]);
                assert("}"@[0] != ","@[0]);
                assert("}"@[0] != ":"@[0]);
                assert("}"@[0] != "$"@[0]);
                assert("}"@[0] != "?"@[0]);
                assert("}"@.len() != ".."@.len());
                assert("}"@.len() != "..."@.len());
                assert("}"@[0] != "="@[0]);
                assert("}"@[0] != ">"@[0]);
                assert("}"@.len() != ">="@.len());
                assert("}"@[0] != "<"@[0]);
                assert("}"@.len() != "<="@.len());
                assert("}"@[0] != "-"@[0]);
                assert("}"@.len() != "!="@.len());
                assert("}"@[0] != "%"@[0]);
                assert("}"@[0] != "+"@[0]);
                assert("}"@[0] != "."@[0]);
                assert("}"@[0] != "|"@[0]);
                assert("}"@[0] != ";"@[0]);
                assert("}"@[0] != "/"@[0]);
                assert("}"@[0] != "("@[0]);
                assert("}"@[0] != ")"@[0]);
                assert("}"@[0] != "{"@[0]);
                assert(symbol_token("}"@) == Some(Token::BraceR));
            },
            Token::BracketL => {
                assert("["@[0] != "*"@[0]);
                assert("["@[0] != ","@[0]);
                assert("["@[0] != ":"@[0]);
                assert("["@[0] != "$"@[0]);
                assert("["@[0] != "?"@[0]);
                assert("["@.len() != ".."@.len());
                assert("["@.len() != "..."@.len());
                assert("["@[0] != "="@[0]);
                assert("["@[0] != ">"@[0]);
                assert("["@.len() != ">="@.len());
                assert("["@[0] != "<"@[0]);
                assert("["@.len() != "<="@.len());
                assert("["@[0] != "-"@[0]);
                assert("["@.len() != "!="@.len());
                assert("["@[0] != "%"@[0]);
                assert("["@[0] != "+"@[0]);
                assert("["@[0] != "."@[0]);
                assert("["@[0] != "|"@[0]);
                assert("["@[0] != ";"@[0]);
                assert("["@[0] != "/"@[0]);
                assert("["@[0] != "("@[0]);
                assert("["@[0] != ")"@[0]);
                assert("["@[0] != "{"@[0]);
                assert("["@[0] != "}"@[0]);
                assert(symbol_token("["@) == Some(Token::BracketL));
            },
            Token::BracketR => {
                assert("]"@[0] != "*"@[0]);
                assert("]"@[0] != ","@[0]);
                assert("]"@[0] != ":"@[0]);
                assert("]"@[0] != "$"@[0]);
                assert("]"@[0] != "?"@[0]);
                assert("]"@.len() != ".."@.len());
                assert("]"@.len() != "..."@.len());
                assert("]"@[0] != "="@[0]);
                assert("]"@[0] != ">"@[0]);
                assert("]"@.len() != ">="@.len());
                assert("]"@[0] != "<"@[0]);
                assert("]"@.len() != "<="@.len());
                assert("]"@[0] != "-"@[0]);
                assert("]"@.len() != "!="@.len());
                assert("]"@[0] != "%"@[0]);
                assert("]"@[0] != "+"@[0]);
                assert("]"@[0] != "."@[0]);
                assert("]"@[0] != "|"@[0]);
                assert("]"@[0] != ";"@[0]);
                assert("]"@[0] != "/"@[0]);
                assert("]"@[0] != "("@[0]);
                assert("]"@[0] != ")"@[0]);
                assert("]"@[0] != "{"@[0]);
                assert("]"@[0] != "}"@[0]);
                assert("]"@[0] != "["@[0]);
                assert(symbol_token("]"@) == Some(Token::BracketR));
            },
            _ => {},
        }
    }
}

/// The word that spells a keyword, type name or literal word token; none
/// for the other tokens.
pub open spec fn keyword_text(t: Token) -> Option<Seq<char>> {
    match t {
        Token::All => Some("all"@),
        Token::And => Some("and"@),
        Token::As => Some("as"@),
        Token::Asc => Some("asc"@),
        Token::At => Some("at"@),
        Token::Begin => Some("begin"@),
        Token::Between => Some("between"@),
        Token::By => Some("by"@),
        Token::Clear => Some("clear"@),
        Token::Commit => Some("commit"@),
        Token::Copy => Some("copy"@),
        Token::Create => Some("create"@),
        Token::Delete => Some("delete"@),
        Token::Desc => Some("desc"@),
        Token::Drop => Some("drop"@),
        Token::Exists => Some("exists"@),
        Token::Group => Some("group"@),
        Token::Having => Some("having"@),
        Token::In => Some("in"@),
        Token::Is => Some("is"@),
        Token::Limit => Some("limit"@),
        Token::From => Some("from"@),
        Token::Insert => Some("insert"@),
        Token::Into => Some("into"@),
        Token::Not => Some("not"@),
        Token::Or => Some("or"@),
        Token::Order => Some("order"@),
        Token::Pivot => Some("pivot"@),
        Token::Rollback => Some("rollback"@),
        Token::Select => Some("select"@),
        Token::Table => Some("table"@),
        Token::To => Some("to"@),
        Token::Unknown => Some("unknown"@),
        Token::Unpivot => Some("unpivot"@),
        Token::Where => Some("where"@),
        Token::TypeBool => Some("bool"@),
        Token::TypeInt => Some("int"@),
        Token::TypeFloat => Some("float"@),
        Token::TypeNumber => Some("number"@),
        Token::TypeString => Some("string"@),
        Token::TypeObject => Some("object"@),
        Token::TypeArray => Some("array"@),
        Token::TypeAny => Some("any"@),
        Token::Null => Some("null"@),
        Token::True => Some("true"@),
        Token::False => Some("false"@),
        _ => None,
    }
}

/// A word lexes as a keyword token exactly when it is that token's
/// spelling: `and` gives `And`, `or` gives `Or`, `null` gives `Null`, and
/// so on for every keyword, type name and literal word.
pub proof fn law_keywords_spell_their_tokens(w: Seq<char>, t: Token)
    ensures
        keyword_token(w) == Some(t) <==> keyword_text(t) == Some(w),
{
    reveal_strlit("all");
    reveal_strlit("and");
    reveal_strlit("as");
    reveal_strlit("asc");
    reveal_strlit("at");
    reveal_strlit("begin");
    reveal_strlit("between");
    reveal_strlit("by");
    reveal_strlit("clear");
    reveal_strlit("commit");
    reveal_strlit("copy");
    reveal_strlit("create");
    reveal_strlit("delete");
    reveal_strlit("desc");
    reveal_strlit("drop");
    reveal_strlit("exists");
    reveal_strlit("group");
    reveal_strlit("having");
    reveal_strlit("in");
    reveal_strlit("is");
    reveal_strlit("limit");
    reveal_strlit("from");
    reveal_strlit("insert");
    reveal_strlit("into");
    reveal_strlit("not");
    reveal_strlit("or");
    reveal_strlit("order");
    reveal_strlit("pivot");
    reveal_strlit("rollback");
    reveal_strlit("select");
    reveal_strlit("table");
    reveal_strlit("to");
    reveal_strlit("unknown");
    reveal_strlit("unpivot");
    reveal_strlit("where");
    reveal_strlit("bool");
    reveal_strlit("int");
    reveal_strlit("float");
    reveal_strlit("number");
    reveal_strlit("string");
    reveal_strlit("object");
    reveal_strlit("array");
    reveal_strlit("any");
    reveal_strlit("null");
    reveal_strlit("true");
    reveal_strlit("false");
    if keyword_text(t) == Some(w) {
        match t {
            Token::All => {
                
                assert(keyword_token("all"@) == Some(Token::All));
            },
            Token::And => {
                assert("and"@[1] != "all"@[1]);
                assert(keyword_token("and"@) == Some(Token::And));
            },
            Token::As => {
                assert("as"@.len() != "all"@.len());
                assert("as"@.len() != "and"@.len());
                assert(keyword_token("as"@) == Some(Token::As));
            },
            Token::Asc => {
                assert("asc"@[1] != "all"@[1]);
                assert("asc"@[1] != "and"@[1]);
                assert("asc"@.len() != "as"@.len());
                assert(keyword_token("asc"@) == Some(Token::Asc));
            },
            Token::At => {
                assert("at"@.len() != "all"@.len());
                assert("at"@.len() != "and"@.len());
                assert("at"@[1] != "as"@[1]);
                assert("at"@.len() != "asc"@.len());
                assert(keyword_token("at"@) == Some(Token::At));
            },
            Token::Begin => {
                assert("begin"@.len() != "all"@.len());
                assert("begin"@.len() != "and"@.len());
                assert("begin"@.len() != "as"@.len());
                assert("begin"@.len() != "asc"@.len());
                assert("begin"@.len() != "at"@.len());
                assert(keyword_token("begin"@) == Some(Token::Begin));
            },
            Token::Between => {
                assert("between"@.len() != "all"@.len());
                assert("between"@.len() != "and"@.len());
                assert("between"@.len() != "as"@.len());
                assert("between"@.len() != "asc"@.len());
                assert("between"@.len() != "at"@.len());
                assert("between"@.len() != "begin"@.len());
                assert(keyword_token("between"@) == Some(Token::Between));
            },
            Token::By => {
                assert("by"@.len() != "all"@.len());
                assert("by"@.len() != "and"@.len());
                assert("by"@[0] != "as"@[0]);
                assert("by"@.len() != "asc"@.len());
                assert("by"@[0] != "at"@[0]);
                assert("by"@.len() != "begin"@.len());
                assert("by"@.len() != "between"@.len());
                assert(keyword_token("by"@) == Some(Token::By));
            },
            Token::Clear => {
                assert("clear"@.len() != "all"@.len());
                assert("clear"@.len() != "and"@.len());
                assert("clear"@.len() != "as"@.len());
                assert("clear"@.len() != "asc"@.len());
                assert("clear"@.len() != "at"@.len());
                assert("clear"@[0] != "begin"@[0]);
                assert("clear"@.len() != "between"@.len());
                assert("clear"@.len() != "by"@.len());
                assert(keyword_token("clear"@) == Some(Token::Clear));
            },
            Token::Commit => {
                assert("commit"@.len() != "all"@.len());
                assert("commit"@.len() != "and"@.len());
                assert("commit"@.len() != "as"@.len());
                assert("commit"@.len() != "asc"@.len());
                assert("commit"@.len() != "at"@.len());
                assert("commit"@.len() != "begin"@.len());
                assert("commit"@.len() != "between"@.len());
                assert("commit"@.len() != "by"@.len());
                assert("commit"@.len() != "clear"@.len());
                assert(keyword_token("commit"@) == Some(Token::Commit));
            },
            Token::Copy => {
                assert("copy"@.len() != "all"@.len());
                assert("copy"@.len() != "and"@.len());
                assert("copy"@.len() != "as"@.len());
                assert("copy"@.len() != "asc"@.len());
                assert("copy"@.len() != "at"@.len());
                assert("copy"@.len() != "begin"@.len());
                assert("copy"@.len() != "between"@.len());
                assert("copy"@.len() != "by"@.len());
                assert("copy"@.len() != "clear"@.len());
                assert("copy"@.len() != "commit"@.len());
                assert(keyword_token("copy"@) == Some(Token::Copy));
            },
            Token::Create => {
                assert("create"@.len() != "all"@.len());
                assert("create"@.len() != "and"@.len());
                assert("create"@.len() != "as"@.len());
                assert("create"@.len() != "asc"@.len());
                assert("create"@.len() != "at"@.len());
                assert("create"@.len() != "begin"@.len());
                assert("create"@.len() != "between"@.len());
                assert("create"@.len() != "by"@.len());
                assert("create"@.len() != "clear"@.len());
                assert("create"@[1] != "commit"@[1]);
                assert("create"@.len() != "copy"@.len());
                assert(keyword_token("create"@) == Some(Token::Create));
            },
            Token::Delete => {
                assert("delete"@.len() != "all"@.len());
                assert("delete"@.len() != "and"@.len());
                assert("delete"@.len() != "as"@.len());
                assert("delete"@.len() != "asc"@.len());
                assert("delete"@.len() != "at"@.len());
                assert("delete"@.len() != "begin"@.len());
                assert("delete"@.len() != "between"@.len());
                assert("delete"@.len() != "by"@.len());
                assert("delete"@.len() != "clear"@.len());
                assert("delete"@[0] != "commit"@[0]);
                assert("delete"@.len() != "copy"@.len());
                assert("delete"@[0] != "create"@[0]);
                assert(keyword_token("delete"@) == Some(Token::Delete));
            },
            Token::Desc => {
                assert("desc"@.len() != "all"@.len());
                assert("desc"@.len() != "and"@.len());
                assert("desc"@.len() != "as"@.len());
                assert("desc"@.len() != "asc"@.len());
                assert("desc"@.len() != "at"@.len());
                assert("desc"@.len() != "begin"@.len());
                assert("desc"@.len() != "between"@.len());
                assert("desc"@.len() != "by"@.len());
                assert("desc"@.len() != "clear"@.len());
                assert("desc"@.len() != "commit"@.len());
                assert("desc"@[0] != "copy"@[0]);
                assert("desc"@.len() != "create"@.len());
                assert("desc"@.len() != "delete"@.len());
                assert(keyword_token("desc"@) == Some(Token::Desc));
            },
            Token::Drop => {
                assert("drop"@.len() != "all"@.len());
                assert("drop"@.len() != "and"@.len());
                assert("drop"@.len() != "as"@.len());
                assert("drop"@.len() != "asc"@.len());
                assert("drop"@.len() != "at"@.len());
                assert("drop"@.len() != "begin"@.len());
                assert("drop"@.len() != "between"@.len());
                assert("drop"@.len() != "by"@.len());
                assert("drop"@.len() != "clear"@.len());
                assert("drop"@.len() != "commit"@.len());
                assert("drop"@[0] != "copy"@[0]);
                assert("drop"@.len() != "create"@.len());
                assert("drop"@.len() != "delete"@.len());
                assert("drop"@[1] != "desc"@[1]);
                assert(keyword_token("drop"@) == Some(Token::Drop));
            },
            Token::Exists => {
                assert("exists"@.len() != "all"@.len());
                assert("exists"@.len() != "and"@.len());
                assert("exists"@.len() != "as"@.len());
                assert("exists"@.len() != "asc"@.len());
                assert("exists"@.len() != "at"@.len());
                assert("exists"@.len() != "begin"@.len());
                assert("exists"@.len() != "between"@.len());
                assert("exists"@.len() != "by"@.len());
                assert("exists"@.len() != "clear"@.len());
                assert("exists"@[0] != "commit"@[0]);
                assert("exists"@.len() != "copy"@.len());
                assert("exists"@[0] != "create"@[0]);
                assert("exists"@[0] != "delete"@[0]);
                assert("exists"@.len() != "desc"@.len());
                assert("exists"@.len() != "drop"@.len());
                assert(keyword_token("exists"@) == Some(Token::Exists));
            },
            Token::Group => {
                assert("group"@.len() != "all"@.len());
                assert("group"@.len() != "and"@.len());
                assert("group"@.len() != "as"@.len());
                assert("group"@.len() != "asc"@.len());
                assert("group"@.len() != "at"@.len());
                assert("group"@[0] != "begin"@[0]);
                assert("group"@.len() != "between"@.len());
                assert("group"@.len() != "by"@.len());
                assert("group"@[0] != "clear"@[0]);
                assert("group"@.len() != "commit"@.len());
                assert("group"@.len() != "copy"@.len());
                assert("group"@.len() != "create"@.len());
                assert("group"@.len() != "delete"@.len());
                assert("group"@.len() != "desc"@.len());
                assert("group"@.len() != "drop"@.len());
                assert("group"@.len() != "exists"@.len());
                assert(keyword_token("group"@) == Some(Token::Group));
            },
            Token::Having => {
                assert("having"@.len() != "all"@.len());
                assert("having"@.len() != "and"@.len());
                assert("having"@.len() != "as"@.len());
                assert("having"@.len() != "asc"@.len());
                assert("having"@.len() != "at"@.len());
                assert("having"@.len() != "begin"@.len());
                assert("having"@.len() != "between"@.len());
                assert("having"@.len() != "by"@.len());
                assert("having"@.len() != "clear"@.len());
                assert("having"@[0] != "commit"@[0]);
                assert("having"@.len() != "copy"@.len());
                assert("having"@[0] != "create"@[0]);
                assert("having"@[0] != "delete"@[0]);
                assert("having"@.len() != "desc"@.len());
                assert("having"@.len() != "drop"@.len());
                assert("having"@[0] != "exists"@[0]);
                assert("having"@.len() != "group"@.len());
                assert(keyword_token("having"@) == Some(Token::Having));
            },
            Token::In => {
                assert("in"@.len() != "all"@.len());
                assert("in"@.len() != "and"@.len());
                assert("in"@[0] != "as"@[0]);
                assert("in"@.len() != "asc"@.len());
                assert("in"@[0] != "at"@[0]);
                assert("in"@.len() != "begin"@.len());
                assert("in"@.len() != "between"@.len());
                assert("in"@[0] != "by"@[0]);
                assert("in"@.len() != "clear"@.len());
                assert("in"@.len() != "commit"@.len());
                assert("in"@.len() != "copy"@.len());
                assert("in"@.len() != "create"@.len());
                assert("in"@.len() != "delete"@.len());
                assert("in"@.len() != "desc"@.len());
                assert("in"@.len() != "drop"@.len());
                assert("in"@.len() != "exists"@.len());
                assert("in"@.len() != "group"@.len());
                assert("in"@.len() != "having"@.len());
                assert(keyword_token("in"@) == Some(Token::In));
            },
            Token::Is => {
                assert("is"@.len() != "all"@.len());
                assert("is"@.len() != "and"@.len());
                assert("is"@[0] != "as"@[0]);
                assert("is"@.len() != "asc"@.len());
                assert("is"@[0] != "at"@[0]);
                assert("is"@.len() != "begin"@.len());
                assert("is"@.len() != "between"@.len());
                assert("is"@[0] != "by"@[0]);
                assert("is"@.len() != "clear"@.len());
                assert("is"@.len() != "commit"@.len());
                assert("is"@.len() != "copy"@.len());
                assert("is"@.len() != "create"@.len());
                assert("is"@.len() != "delete"@.len());
                assert("is"@.len() != "desc"@.len());
                assert("is"@.len() != "drop"@.len());
                assert("is"@.len() != "exists"@.len());
                assert("is"@.len() != "group"@.len());
                assert("is"@.len() != "having"@.len());
                assert("is"@[1] != "in"@[1]);
                assert(keyword_token("is"@) == Some(Token::Is));
            },
            Token::Limit => {
                assert("limit"@.len() != "all"@.len());
                assert("limit"@.len() != "and"@.len());
                assert("limit"@.len() != "as"@.len());
                assert("limit"@.len() != "asc"@.len());
                assert("limit"@.len() != "at"@.len());
                assert("limit"@[0] != "begin"@[0]);
                assert("limit"@.len() != "between"@.len());
                assert("limit"@.len() != "by"@.len());
                assert("limit"@[0] != "clear"@[0]);
                assert("limit"@.len() != "commit"@.len());
                assert("limit"@.len() != "copy"@.len());
                assert("limit"@.len() != "create"@.len());
                assert("limit"@.len() != "delete"@.len());
                assert("limit"@.len() != "desc"@.len());
                assert("limit"@.len() != "drop"@.len());
                assert("limit"@.len() != "exists"@.len());
                assert("limit"@[0] != "group"@[0]);
                assert("limit"@.len() != "having"@.len());
                assert("limit"@.len() != "in"@.len());
                assert("limit"@.len() != "is"@.len());
                assert(keyword_token("limit"@) == Some(Token::Limit));
            },
            Token::From => {
                assert("from"@.len() != "all"@.len());
                assert("from"@.len() != "and"@.len());
                assert("from"@.len() != "as"@.len());
                assert("from"@.len() != "asc"@.len());
                assert("from"@.len() != "at"@.len());
                assert("from"@.len() != "begin"@.len());
                assert("from"@.len() != "between"@.len());
                assert("from"@.len() != "by"@.len());
                assert("from"@.len() != "clear"@.len());
                assert("from"@.len() != "commit"@.len());
                assert("from"@[0] != "copy"@[0]);
                assert("from"@.len() != "create"@.len());
                assert("from"@.len() != "delete"@.len());
                assert("from"@[0] != "desc"@[0]);
                assert("from"@[0] != "drop"@[0]);
                assert("from"@.len() != "exists"@.len());
                assert("from"@.len() != "group"@.len());
                assert("from"@.len() != "having"@.len());
                assert("from"@.len() != "in"@.len());
                assert("from"@.len() != "is"@.len());
                assert("from"@.len() != "limit"@.len());
                assert(keyword_token("from"@) == Some(Token::From));
            },
            Token::Insert => {
                assert("insert"@.len() != "all"@.len());
                assert("insert"@.len() != "and"@.len());
                assert("insert"@.len() != "as"@.len());
                assert("insert"@.len() != "asc"@.len());
                assert("insert"@.len() != "at"@.len());
                assert("insert"@.len() != "begin"@.len());
                assert("insert"@.len() != "between"@.len());
                assert("insert"@.len() != "by"@.len());
                assert("insert"@.len() != "clear"@.len());
                assert("insert"@[0] != "commit"@[0]);
                assert("insert"@.len() != "copy"@.len());
                assert("insert"@[0] != "create"@[0]);
                assert("insert"@[0] != "delete"@[0]);
                assert("insert"@.len() != "desc"@.len());
                assert("insert"@.len() != "drop"@.len());
                assert("insert"@[0] != "exists"@[0]);
                assert("insert"@.len() != "group"@.len());
                assert("insert"@[0] != "having"@[0]);
                assert("insert"@.len() != "in"@.len());
                assert("insert"@.len() != "is"@.len());
                assert("insert"@.len() != "limit"@.len());
                assert("insert"@.len() != "from"@.len());
                assert(keyword_token("insert"@) == Some(Token::Insert));
            },
            Token::Into => {
                assert("into"@.len() != "all"@.len());
                assert("into"@.len() != "and"@.len());
                assert("into"@.len() != "as"@.len());
                assert("into"@.len() != "asc"@.len());
                assert("into"@.len() != "at"@.len());
                assert("into"@.len() != "begin"@.len());
                assert("into"@.len() != "between"@.len());
                assert("into"@.len() != "by"@.len());
                assert("into"@.len() != "clear"@.len());
                assert("into"@.len() != "commit"@.len());
                assert("into"@[0] != "copy"@[0]);
                assert("into"@.len() != "create"@.len());
                assert("into"@.len() != "delete"@.len());
                assert("into"@[0] != "desc"@[0]);
                assert("into"@[0] != "drop"@[0]);
                assert("into"@.len() != "exists"@.len());
                assert("into"@.len() != "group"@.len());
                assert("into"@.len() != "having"@.len());
                assert("into"@.len() != "in"@.len());
                assert("into"@.len() != "is"@.len());
                assert("into"@.len() != "limit"@.len());
                assert("into"@[0] != "from"@[0]);
                assert("into"@.len() != "insert"@.len());
                assert(keyword_token("into"@) == Some(Token::Into));
            },
            Token::Not => {
                assert("not"@[0] != "all"@[0]);
                assert("not"@[0] != "and"@[0]);
                assert("not"@.len() != "as"@.len());
                assert("not"@[0] != "asc"@[0]);
                assert("not"@.len() != "at"@.len());
                assert("not"@.len() != "begin"@.len());
                assert("not"@.len() != "between"@.len());
                assert("not"@.len() != "by"@.len());
                assert("not"@.len() != "clear"@.len());
                assert("not"@.len() != "commit"@.len());
                assert("not"@.len() != "copy"@.len());
                assert("not"@.len() != "create"@.len());
                assert("not"@.len() != "delete"@.len());
                assert("not"@.len() != "desc"@.len());
                assert("not"@.len() != "drop"@.len());
                assert("not"@.len() != "exists"@.len());
                assert("not"@.len() != "group"@.len());
                assert("not"@.len() != "having"@.len());
                assert("not"@.len() != "in"@.len());
                assert("not"@.len() != "is"@.len());
                assert("not"@.len() != "limit"@.len());
                assert("not"@.len() != "from"@.len());
                assert("not"@.len() != "insert"@.len());
                assert("not"@.len() != "into"@.len());
                assert(keyword_token("not"@) == Some(Token::Not));
            },
            Token::Or => {
                assert("or"@.len() != "all"@.len());
                assert("or"@.len() != "and"@.len());
                assert("or"@[0] != "as"@[0]);
                assert("or"@.len() != "asc"@.len());
                assert("or"@[0] != "at"@[0]);
                assert("or"@.len() != "begin"@.len());
                assert("or"@.len() != "between"@.len());
                assert("or"@[0] != "by"@[0]);
                assert("or"@.len() != "clear"@.len());
                assert("or"@.len() != "commit"@.len());
                assert("or"@.len() != "copy"@.len());
                assert("or"@.len() != "create"@.len());
                assert("or"@.len() != "delete"@.len());
                assert("or"@.len() != "desc"@.len());
                assert("or"@.len() != "drop"@.len());
                assert("or"@.len() != "exists"@.len());
                assert("or"@.len() != "group"@.len());
                assert("or"@.len() != "having"@.len());
                assert("or"@[0] != "in"@[0]);
                assert("or"@[0] != "is"@[0]);
                assert("or"@.len() != "limit"@.len());
                assert("or"@.len() != "from"@.len());
                assert("or"@.len() != "insert"@.len());
                assert("or"@.len() != "into"@.len());
                assert("or"@.len() != "not"@.len());
                assert(keyword_token("or"@) == Some(Token::Or));
            },
            Token::Order => {
                assert("order"@.len() != "all"@.len());
                assert("order"@.len() != "and"@.len());
                assert("order"@.len() != "as"@.len());
                assert("order"@.len() != "asc"@.len());
                assert("order"@.len() != "at"@.len());
                assert("order"@[0] != "begin"@[0]);
                assert("order"@.len() != "between"@.len());
                assert("order"@.len() != "by"@.len());
                assert("order"@[0] != "clear"@[0]);
                assert("order"@.len() != "commit"@.len());
                assert("order"@.len() != "copy"@.len());
                assert("order"@.len() != "create"@.len());
                assert("order"@.len() != "delete"@.len());
                assert("order"@.len() != "desc"@.len());
                assert("order"@.len() != "drop"@.len());
                assert("order"@.len() != "exists"@.len());
                assert("order"@[0] != "group"@[0]);
                assert("order"@.len() != "having"@.len());
                assert("order"@.len() != "in"@.len());
                assert("order"@.len() != "is"@.len());
                assert("order"@[0] != "limit"@[0]);
                assert("order"@.len() != "from"@.len());
                assert("order"@.len() != "insert"@.len());
                assert("order"@.len() != "into"@.len());
                assert("order"@.len() != "not"@.len());
                assert("order"@.len() != "or"@.len());
                assert(keyword_token("order"@) == Some(Token::Order));
            },
            Token::Pivot => {
                assert("pivot"@.len() != "all"@.len());
                assert("pivot"@.len() != "and"@.len());
                assert("pivot"@.len() != "as"@.len());
                assert("pivot"@.len() != "asc"@.len());
                assert("pivot"@.len() != "at"@.len());
                assert("pivot"@[0] != "begin"@[0]);
                assert("pivot"@.len() != "between"@.len());
                assert("pivot"@.len() != "by"@.len());
                assert("pivot"@[0] != "clear"@[0]);
                assert("pivot"@.len() != "commit"@.len());
                assert("pivot"@.len() != "copy"@.len());
                assert("pivot"@.len() != "create"@.len());
                assert("pivot"@.len() != "delete"@.len());
                assert("pivot"@.len() != "desc"@.len());
                assert("pivot"@.len() != "drop"@.len());
                assert("pivot"@.len() != "exists"@.len());
                assert("pivot"@[0] != "group"@[0]);
                assert("pivot"@.len() != "having"@.len());
                assert("pivot"@.len() != "in"@.len());
                assert("pivot"@.len() != "is"@.len());
                assert("pivot"@[0] != "limit"@[0]);
                assert("pivot"@.len() != "from"@.len());
                assert("pivot"@.len() != "insert"@.len());
                assert("pivot"@.len() != "into"@.len());
                assert("pivot"@.len() != "not"@.len());
                assert("pivot"@.len() != "or"@.len());
                assert("pivot"@[0] != "order"@[0]);
                assert(keyword_token("pivot"@) == Some(Token::Pivot));
            },
            Token::Rollback => {
                assert("rollback"@.len() != "all"@.len());
                assert("rollback"@.len() != "and"@.len());
                assert("rollback"@.len() != "as"@.len());
                assert("rollback"@.len() != "asc"@.len());
                assert("rollback"@.len() != "at"@.len());
                assert("rollback"@.len() != "begin"@.len());
                assert("rollback"@.len() != "between"@.len());
                assert("rollback"@.len() != "by"@.len());
                assert("rollback"@.len() != "clear"@.len());
                assert("rollback"@.len() != "commit"@.len());
                assert("rollback"@.len() != "copy"@.len());
                assert("rollback"@.len() != "create"@.len());
                assert("rollback"@.len() != "delete"@.len());
                assert("rollback"@.len() != "desc"@.len());
                assert("rollback"@.len() != "drop"@.len());
                assert("rollback"@.len() != "exists"@.len());
                assert("rollback"@.len() != "group"@.len());
                assert("rollback"@.len() != "having"@.len());
                assert("rollback"@.len() != "in"@.len());
                assert("rollback"@.len() != "is"@.len());
                assert("rollback"@.len() != "limit"@.len());
                assert("rollback"@.len() != "from"@.len());
                assert("rollback"@.len() != "insert"@.len());
                assert("rollback"@.len() != "into"@.len());
                assert("rollback"@.len() != "not"@.len());
                assert("rollback"@.len() != "or"@.len());
                assert("rollback"@.len() != "order"@.len());
                assert("rollback"@.len() != "pivot"@.len());
                assert(keyword_token("rollback"@) == Some(Token::Rollback));
            },
            Token::Select => {
                assert("select"@.len() != "all"@.len());
                assert("select"@.len() != "and"@.len());
                assert("select"@.len() != "as"@.len());
                assert("select"@.len() != "asc"@.len());
                assert("select"@.len() != "at"@.len());
                assert("select"@.len() != "begin"@.len());
                assert("select"@.len() != "between"@.len());
                assert("select"@.len() != "by"@.len());
                assert("select"@.len() != "clear"@.len());
                assert("select"@[0] != "commit"@[0]);
                assert("select"@.len() != "copy"@.len());
                assert("select"@[0] != "create"@[0]);
                assert("select"@[0] != "delete"@[0]);
                assert("select"@.len() != "desc"@.len());
                assert("select"@.len() != "drop"@.len());
                assert("select"@[0] != "exists"@[0]);
                assert("select"@.len() != "group"@.len());
                assert("select"@[0] != "having"@[0]);
                assert("select"@.len() != "in"@.len());
                assert("select"@.len() != "is"@.len());
                assert("select"@.len() != "limit"@.len());
                assert("select"@.len() != "from"@.len());
                assert("select"@[0] != "insert"@[0]);
                assert("select"@.len() != "into"@.len());
                assert("select"@.len() != "not"@.len());
                assert("select"@.len() != "or"@.len());
                assert("select"@.len() != "order"@.len());
                assert("select"@.len() != "pivot"@.len());
                assert("select"@.len() != "rollback"@.len());
                assert(keyword_token("select"@) == Some(Token::Select));
            },
            Token::Table => {
                assert("table"@.len() != "all"@.len());
                assert("table"@.len() != "and"@.len());
                assert("table"@.len() != "as"@.len());
                assert("table"@.len() != "asc"@.len());
                assert("table"@.len() != "at"@.len());
                assert("table"@[0] != "begin"@[0]);
                assert("table"@.len() != "between"@.len());
                assert("table"@.len() != "by"@.len());
                assert("table"@[0] != "clear"@[0]);
                assert("table"@.len() != "commit"@.len());
                assert("table"@.len() != "copy"@.len());
                assert("table"@.len() != "create"@.len());
                assert("table"@.len() != "delete"@.len());
                assert("table"@.len() != "desc"@.len());
                assert("table"@.len() != "drop"@.len());
                assert("table"@.len() != "exists"@.len());
                assert("table"@[0] != "group"@[0]);
                assert("table"@.len() != "having"@.len());
                assert("table"@.len() != "in"@.len());
                assert("table"@.len() != "is"@.len());
                assert("table"@[0] != "limit"@[0]);
                assert("table"@.len() != "from"@.len());
                assert("table"@.len() != "insert"@.len());
                assert("table"@.len() != "into"@.len());
                assert("table"@.len() != "not"@.len());
                assert("table"@.len() != "or"@.len());
                assert("table"@[0] != "order"@[0]);
                assert("table"@[0] != "pivot"@[0]);
                assert("table"@.len() != "rollback"@.len());
                assert("table"@.len() != "select"@.len());
                assert(keyword_token("table"@) == Some(Token::Table));
            },
            Token::To => {
                assert("to"@.len() != "all"@.len());
                assert("to"@.len() != "and"@.len());
                assert("to"@[0] != "as"@[0]);
                assert("to"@.len() != "asc"@.len());
                assert("to"@[0] != "at"@[0]);
                assert("to"@.len() != "begin"@.len());
                assert("to"@.len() != "between"@.len());
                assert("to"@[0] != "by"@[0]);
                assert("to"@.len() != "clear"@.len());
                assert("to"@.len() != "commit"@.len());
                assert("to"@.len() != "copy"@.len());
                assert("to"@.len() != "create"@.len());
                assert("to"@.len() != "delete"@.len());
                assert("to"@.len() != "desc"@.len());
                assert("to"@.len() != "drop"@.len());
                assert("to"@.len() != "exists"@.len());
                assert("to"@.len() != "group"@.len());
                assert("to"@.len() != "having"@.len());
                assert("to"@[0] != "in"@[0]);
                assert("to"@[0] != "is"@[0]);
                assert("to"@.len() != "limit"@.len());
                assert("to"@.len() != "from"@.len());
                assert("to"@.len() != "insert"@.len());
                assert("to"@.len() != "into"@.len());
                assert("to"@.len() != "not"@.len());
                assert("to"@[0] != "or"@[0]);
                assert("to"@.len() != "order"@.len());
                assert("to"@.len() != "pivot"@.len());
                assert("to"@.len() != "rollback"@.len());
                assert("to"@.len() != "select"@.len());
                assert("to"@.len() != "table"@.len());
                assert(keyword_token("to"@) == Some(Token::To));
            },
            Token::Unknown => {
                assert("unknown"@.len() != "all"@.len());
                assert("unknown"@.len() != "and"@.len());
                assert("unknown"@.len() != "as"@.len());
                assert("unknown"@.len() != "asc"@.len());
                assert("unknown"@.len() != "at"@.len());
                assert("unknown"@.len() != "begin"@.len());
                assert("unknown"@[0] != "between"@[0]);
                assert("unknown"@.len() != "by"@.len());
                assert("unknown"@.len() != "clear"@.len());
                assert("unknown"@.len() != "commit"@.len());
                assert("unknown"@.len() != "copy"@.len());
                assert("unknown"@.len() != "create"@.len());
                assert("unknown"@.len() != "delete"@.len());
                assert("unknown"@.len() != "desc"@.len());
                assert("unknown"@.len() != "drop"@.len());
                assert("unknown"@.len() != "exists"@.len());
                assert("unknown"@.len() != "group"@.len());
                assert("unknown"@.len() != "having"@.len());
                assert("unknown"@.len() != "in"@.len());
                assert("unknown"@.len() != "is"@.len());
                assert("unknown"@.len() != "limit"@.len());
                assert("unknown"@.len() != "from"@.len());
                assert("unknown"@.len() != "insert"@.len());
                assert("unknown"@.len() != "into"@.len());
                assert("unknown"@.len() != "not"@.len());
                assert("unknown"@.len() != "or"@.len());
                assert("unknown"@.len() != "order"@.len());
                assert("unknown"@.len() != "pivot"@.len());
                assert("unknown"@.len() != "rollback"@.len());
                assert("unknown"@.len() != "select"@.len());
                assert("unknown"@.len() != "table"@.len());
                assert("unknown"@.len() != "to"@.len());
                assert(keyword_token("unknown"@) == Some(Token::Unknown));
            },
            Token::Unpivot => {
                assert("unpivot"@.len() != "all"@.len());
                assert("unpivot"@.len() != "and"@.len());
                assert("unpivot"@.len() != "as"@.len());
                assert("unpivot"@.len() != "asc"@.len());
                assert("unpivot"@.len() != "at"@.len());
                assert("unpivot"@.len() != "begin"@.len());
                assert("unpivot"@[0] != "between"@[0]);
                assert("unpivot"@.len() != "by"@.len());
                assert("unpivot"@.len() != "clear"@.len());
                assert("unpivot"@.len() != "commit"@.len());
                assert("unpivot"@.len() != "copy"@.len());
                assert("unpivot"@.len() != "create"@.len());
                assert("unpivot"@.len() != "delete"@.len());
                assert("unpivot"@.len() != "desc"@.len());
                assert("unpivot"@.len() != "drop"@.len());
                assert("unpivot"@.len() != "exists"@.len());
                assert("unpivot"@.len() != "group"@.len());
                assert("unpivot"@.len() != "having"@.len());
                assert("unpivot"@.len() != "in"@.len());
                assert("unpivot"@.len() != "is"@.len());
                assert("unpivot"@.len() != "limit"@.len());
                assert("unpivot"@.len() != "from"@.len());
                assert("unpivot"@.len() != "insert"@.len());
                assert("unpivot"@.len() != "into"@.len());
                assert("unpivot"@.len() != "not"@.len());
                assert("unpivot"@.len() != "or"@.len());
                assert("unpivot"@.len() != "order"@.len());
                assert("unpivot"@.len() != "pivot"@.len());
                assert("unpivot"@.len() != "rollback"@.len());
                assert("unpivot"@.len() != "select"@.len());
                assert("unpivot"@.len() != "table"@.len());
                assert("unpivot"@.len() != "to"@.len());
                assert("unpivot"@[2] != "unknown"@[2]);
                assert(keyword_token("unpivot"@) == Some(Token::Unpivot));
            },
            Token::Where => {
                assert("where"@.len() != "all"@.len());
                assert("where"@.len() != "and"@.len());
                assert("where"@.len() != "as"@.len());
                assert("where"@.len() != "asc"@.len());
                assert("where"@.len() != "at"@.len());
                assert("where"@[0] != "begin"@[0]);
                assert("where"@.len() != "between"@.len());
                assert("where"@.len() != "by"@.len());
                assert("where"@[0] != "clear"@[0]);
                assert("where"@.len() != "commit"@.len());
                assert("where"@.len() != "copy"@.len());
                assert("where"@.len() != "create"@.len());
                assert("where"@.len() != "delete"@.len());
                assert("where"@.len() != "desc"@.len());
                assert("where"@.len() != "drop"@.len());
                assert("where"@.len() != "exists"@.len());
                assert("where"@[0] != "group"@[0]);
                assert("where"@.len() != "having"@.len());
                assert("where"@.len() != "in"@.len());
                assert("where"@.len() != "is"@.len());
                assert("where"@[0] != "limit"@[0]);
                assert("where"@.len() != "from"@.len());
                assert("where"@.len() != "insert"@.len());
                assert("where"@.len() != "into"@.len());
                assert("where"@.len() != "not"@.len());
                assert("where"@.len() != "or"@.len());
                assert("where"@[0] != "order"@[0]);
                assert("where"@[0] != "pivot"@[0]);
                assert("where"@.len() != "rollback"@.len());
                assert("where"@.len() != "select"@.len());
                assert("where"@[0] != "table"@[0]);
                assert("where"@.len() != "to"@.len());
                assert("where"@.len() != "unknown"@.len());
                assert("where"@.len() != "unpivot"@.len());
                assert(keyword_token("where"@) == Some(Token::Where));
            },
            Token::TypeBool => {
                assert("bool"@.len() != "all"@.len());
                assert("bool"@.len() != "and"@.len());
                assert("bool"@.len() != "as"@.len());
                assert("bool"@.len() != "asc"@.len());
                assert("bool"@.len() != "at"@.len());
                assert("bool"@.len() != "begin"@.len());
                assert("bool"@.len() != "between"@.len());
                assert("bool"@.len() != "by"@.len());
                assert("bool"@.len() != "clear"@.len());
                assert("bool"@.len() != "commit"@.len());
                assert("bool"@[0] != "copy"@[0]);
                assert("bool"@.len() != "create"@.len());
                assert("bool"@.len() != "delete"@.len());
                assert("bool"@[0] != "desc"@[0]);
                assert("bool"@[0] != "drop"@[0]);
                assert("bool"@.len() != "exists"@.len());
                assert("bool"@.len() != "group"@.len());
                assert("bool"@.len() != "having"@.len());
                assert("bool"@.len() != "in"@.len());
                assert("bool"@.len() != "is"@.len());
                assert("bool"@.len() != "limit"@.len());
                assert("bool"@[0] != "from"@[0]);
                assert("bool"@.len() != "insert"@.len());
                assert("bool"@[0] != "into"@[0]);
                assert("bool"@.len() != "not"@.len());
                assert("bool"@.len() != "or"@.len());
                assert("bool"@.len() != "order"@.len());
                assert("bool"@.len() != "pivot"@.len());
                assert("bool"@.len() != "rollback"@.len());
                assert("bool"@.len() != "select"@.len());
                assert("bool"@.len() != "table"@.len());
                assert("bool"@.len() != "to"@.len());
                assert("bool"@.len() != "unknown"@.len());
                assert("bool"@.len() != "unpivot"@.len());
                assert("bool"@.len() != "where"@.len());
                assert(keyword_token("bool"@) == Some(Token::TypeBool));
            },
            Token::TypeInt => {
                assert("int"@[0] != "all"@[0]);
                assert("int"@[0] != "and"@[0]);
                assert("int"@.len() != "as"@.len());
                assert("int"@[0] != "asc"@[0]);
                assert("int"@.len() != "at"@.len());
                assert("int"@.len() != "begin"@.len());
                assert("int"@.len() != "between"@.len());
                assert("int"@.len() != "by"@.len());
                assert("int"@.len() != "clear"@.len());
                assert("int"@.len() != "commit"@.len());
                assert("int"@.len() != "copy"@.len());
                assert("int"@.len() != "create"@.len());
                assert("int"@.len() != "delete"@.len());
                assert("int"@.len() != "desc"@.len());
                assert("int"@.len() != "drop"@.len());
                assert("int"@.len() != "exists"@.len());
                assert("int"@.len() != "group"@.len());
                assert("int"@.len() != "having"@.len());
                assert("int"@.len() != "in"@.len());
                assert("int"@.len() != "is"@.len());
                assert("int"@.len() != "limit"@.len());
                assert("int"@.len() != "from"@.len());
                assert("int"@.len() != "insert"@.len());
                assert("int"@.len() != "into"@.len());
                assert("int"@[0] != "not"@[0]);
                assert("int"@.len() != "or"@.len());
                assert("int"@.len() != "order"@.len());
                assert("int"@.len() != "pivot"@.len());
                assert("int"@.len() != "rollback"@.len());
                assert("int"@.len() != "select"@.len());
                assert("int"@.len() != "table"@.len());
                assert("int"@.len() != "to"@.len());
                assert("int"@.len() != "unknown"@.len());
                assert("int"@.len() != "unpivot"@.len());
                assert("int"@.len() != "where"@.len());
                assert("int"@.len() != "bool"@.len());
                assert(keyword_token("int"@) == Some(Token::TypeInt));
            },
            Token::TypeFloat => {
                assert("float"@.len() != "all"@.len());
                assert("float"@.len() != "and"@.len());
                assert("float"@.len() != "as"@.len());
                assert("float"@.len() != "asc"@.len());
                assert("float"@.len() != "at"@.len());
                assert("float"@[0] != "begin"@[0]);
                assert("float"@.len() != "between"@.len());
                assert("float"@.len() != "by"@.len());
                assert("float"@[0] != "clear"@[0]);
                assert("float"@.len() != "commit"@.len());
                assert("float"@.len() != "copy"@.len());
                assert("float"@.len() != "create"@.len());
                assert("float"@.len() != "delete"@.len());
                assert("float"@.len() != "desc"@.len());
                assert("float"@.len() != "drop"@.len());
                assert("float"@.len() != "exists"@.len());
                assert("float"@[0] != "group"@[0]);
                assert("float"@.len() != "having"@.len());
                assert("float"@.len() != "in"@.len());
                assert("float"@.len() != "is"@.len());
                assert("float"@[0] != "limit"@[0]);
                assert("float"@.len() != "from"@.len());
                assert("float"@.len() != "insert"@.len());
                assert("float"@.len() != "into"@.len());
                assert("float"@.len() != "not"@.len());
                assert("float"@.len() != "or"@.len());
                assert("float"@[0] != "order"@[0]);
                assert("float"@[0] != "pivot"@[0]);
                assert("float"@.len() != "rollback"@.len());
                assert("float"@.len() != "select"@.len());
                assert("float"@[0] != "table"@[0]);
                assert("float"@.len() != "to"@.len());
                assert("float"@.len() != "unknown"@.len());
                assert("float"@.len() != "unpivot"@.len());
                assert("float"@[0] != "where"@[0]);
                assert("float"@.len() != "bool"@.len());
                assert("float"@.len() != "int"@.len());
                assert(keyword_token("float"@) == Some(Token::TypeFloat));
            },
            Token::TypeNumber => {
                assert("number"@.len() != "all"@.len());
                assert("number"@.len() != "and"@.len());
                assert("number"@.len() != "as"@.len());
                assert("number"@.len() != "asc"@.len());
                assert("number"@.len() != "at"@.len());
                assert("number"@.len() != "begin"@.len());
                assert("number"@.len() != "between"@.len());
                assert("number"@.len() != "by"@.len());
                assert("number"@.len() != "clear"@.len());
                assert("number"@[0] != "commit"@[0]);
                assert("number"@.len() != "copy"@.len());
                assert("number"@[0] != "create"@[0]);
                assert("number"@[0] != "delete"@[0]);
                assert("number"@.len() != "desc"@.len());
                assert("number"@.len() != "drop"@.len());
                assert("number"@[0] != "exists"@[0]);
                assert("number"@.len() != "group"@.len());
                assert("number"@[0] != "having"@[0]);
                assert("number"@.len() != "in"@.len());
                assert("number"@.len() != "is"@.len());
                assert("number"@.len() != "limit"@.len());
                assert("number"@.len() != "from"@.len());
                assert("number"@[0] != "insert"@[0]);
                assert("number"@.len() != "into"@.len());
                assert("number"@.len() != "not"@.len());
                assert("number"@.len() != "or"@.len());
                assert("number"@.len() != "order"@.len());
                assert("number"@.len() != "pivot"@.len());
                assert("number"@.len() != "rollback"@.len());
                assert("number"@[0] != "select"@[0]);
                assert("number"@.len() != "table"@.len());
                assert("number"@.len() != "to"@.len());
                assert("number"@.len() != "unknown"@.len());
                assert("number"@.len() != "unpivot"@.len());
                assert("number"@.len() != "where"@.len());
                assert("number"@.len() != "bool"@.len());
                assert("number"@.len() != "int"@.len());
                assert("number"@.len() != "float"@.len());
                assert(keyword_token("number"@) == Some(Token::TypeNumber));
            },
            Token::TypeString => {
                assert("string"@.len() != "all"@.len());
                assert("string"@.len() != "and"@.len());
                assert("string"@.len() != "as"@.len());
                assert("string"@.len() != "asc"@.len());
                assert("string"@.len() != "at"@.len());
                assert("string"@.len() != "begin"@.len());
                assert("string"@.len() != "between"@.len());
                assert("string"@.len() != "by"@.len());
                assert("string"@.len() != "clear"@.len());
                assert("string"@[0] != "commit"@[0]);
                assert("string"@.len() != "copy"@.len());
                assert("string"@[0] != "create"@[0]);
                assert("string"@[0] != "delete"@[0]);
                assert("string"@.len() != "desc"@.len());
                assert("string"@.len() != "drop"@.len());
                assert("string"@[0] != "exists"@[0]);
                assert("string"@.len() != "group"@.len());
                assert("string"@[0] != "having"@[0]);
                assert("string"@.len() != "in"@.len());
                assert("string"@.len() != "is"@.len());
                assert("string"@.len() != "limit"@.len());
                assert("string"@.len() != "from"@.len());
                assert("string"@[0] != "insert"@[0]);
                assert("string"@.len() != "into"@.len());
                assert("string"@.len() != "not"@.len());
                assert("string"@.len() != "or"@.len());
                assert("string"@.len() != "order"@.len());
                assert("string"@.len() != "pivot"@.len());
                assert("string"@.len() != "rollback"@.len());
                assert("string"@[1] != "select"@[1]);
                assert("string"@.len() != "table"@.len());
                assert("string"@.len() != "to"@.len());
                assert("string"@.len() != "unknown"@.len());
                assert("string"@.len() != "unpivot"@.len());
                assert("string"@.len() != "where"@.len());
                assert("string"@.len() != "bool"@.len());
                assert("string"@.len() != "int"@.len());
                assert("string"@.len() != "float"@.len());
                assert("string"@[0] != "number"@[0]);
                assert(keyword_token("string"@) == Some(Token::TypeString));
            },
            Token::TypeObject => {
                assert("object"@.len() != "all"@.len());
                assert("object"@.len() != "and"@.len());
                assert("object"@.len() != "as"@.len());
                assert("object"@.len() != "asc"@.len());
                assert("object"@.len() != "at"@.len());
                assert("object"@.len() != "begin"@.len());
                assert("object"@.len() != "between"@.len());
                assert("object"@.len() != "by"@.len());
                assert("object"@.len() != "clear"@.len());
                assert("object"@[0] != "commit"@[0]);
                assert("object"@.len() != "copy"@.len());
                assert("object"@[0] != "create"@[0]);
                assert("object"@[0] != "delete"@[0]);
                assert("object"@.len() != "desc"@.len());
                assert("object"@.len() != "drop"@.len());
                assert("object"@[0] != "exists"@[0]);
                assert("object"@.len() != "group"@.len());
                assert("object"@[0] != "having"@[0]);
                assert("object"@.len() != "in"@.len());
                assert("object"@.len() != "is"@.len());
                assert("object"@.len() != "limit"@.len());
                assert("object"@.len() != "from"@.len());
                assert("object"@[0] != "insert"@[0]);
                assert("object"@.len() != "into"@.len());
                assert("object"@.len() != "not"@.len());
                assert("object"@.len() != "or"@.len());
                assert("object"@.len() != "order"@.len());
                assert("object"@.len() != "pivot"@.len());
                assert("object"@.len() != "rollback"@.len());
                assert("object"@[0] != "select"@[0]);
                assert("object"@.len() != "table"@.len());
                assert("object"@.len() != "to"@.len());
                assert("object"@.len() != "unknown"@.len());
                assert("object"@.len() != "unpivot"@.len());
                assert("object"@.len() != "where"@.len());
                assert("object"@.len() != "bool"@.len());
                assert("object"@.len() != "int"@.len());
                assert("object"@.len() != "float"@.len());
                assert("object"@[0] != "number"@[0]);
                assert("object"@[0] != "string"@[0]);
                assert(keyword_token("object"@) == Some(Token::TypeObject));
            },
            Token::TypeArray => {
                assert("array"@.len() != "all"@.len());
                assert("array"@.len() != "and"@.len());
                assert("array"@.len() != "as"@.len());
                assert("array"@.len() != "asc"@.len());
                assert("array"@.len() != "at"@.len());
                assert("array"@[0] != "begin"@[0]);
                assert("array"@.len() != "between"@.len());
                assert("array"@.len() != "by"@.len());
                assert("array"@[0] != "clear"@[0]);
                assert("array"@.len() != "commit"@.len());
                assert("array"@.len() != "copy"@.len());
                assert("array"@.len() != "create"@.len());
                assert("array"@.len() != "delete"@.len());
                assert("array"@.len() != "desc"@.len());
                assert("array"@.len() != "drop"@.len());
                assert("array"@.len() != "exists"@.len());
                assert("array"@[0] != "group"@[0]);
                assert("array"@.len() != "having"@.len());
                assert("array"@.len() != "in"@.len());
                assert("array"@.len() != "is"@.len());
                assert("array"@[0] != "limit"@[0]);
                assert("array"@.len() != "from"@.len());
                assert("array"@.len() != "insert"@.len());
                assert("array"@.len() != "into"@.len());
                assert("array"@.len() != "not"@.len());
                assert("array"@.len() != "or"@.len());
                assert("array"@[0] != "order"@[0]);
                assert("array"@[0] != "pivot"@[0]);
                assert("array"@.len() != "rollback"@.len());
                assert("array"@.len() != "select"@.len());
                assert("array"@[0] != "table"@[0]);
                assert("array"@.len() != "to"@.len());
                assert("array"@.len() != "unknown"@.len());
                assert("array"@.len() != "unpivot"@.len());
                assert("array"@[0] != "where"@[0]);
                assert("array"@.len() != "bool"@.len());
                assert("array"@.len() != "int"@.len());
                assert("array"@[0] != "float"@[0]);
                assert("array"@.len() != "number"@.len());
                assert("array"@.len() != "string"@.len());
                assert("array"@.len() != "object"@.len());
                assert(keyword_token("array"@) == Some(Token::TypeArray));
            },
            Token::TypeAny => {
                assert("any"@[1] != "all"@[1]);
                assert("any"@[2] != "and"@[2]);
                assert("any"@.len() != "as"@.len());
                assert("any"@[1] != "asc"@[1]);
                assert("any"@.len() != "at"@.len());
                assert("any"@.len() != "begin"@.len());
                assert("any"@.len() != "between"@.len());
                assert("any"@.len() != "by"@.len());
                assert("any"@.len() != "clear"@.len());
                assert("any"@.len() != "commit"@.len());
                assert("any"@.len() != "copy"@.len());
                assert("any"@.len() != "create"@.len());
                assert("any"@.len() != "delete"@.len());
                assert("any"@.len() != "desc"@.len());
                assert("any"@.len() != "drop"@.len());
                assert("any"@.len() != "exists"@.len());
                assert("any"@.len() != "group"@.len());
                assert("any"@.len() != "having"@.len());
                assert("any"@.len() != "in"@.len());
                assert("any"@.len() != "is"@.len());
                assert("any"@.len() != "limit"@.len());
                assert("any"@.len() != "from"@.len());
                assert("any"@.len() != "insert"@.len());
                assert("any"@.len() != "into"@.len());
                assert("any"@[0] != "not"@[0]);
                assert("any"@.len() != "or"@.len());
                assert("any"@.len() != "order"@.len());
                assert("any"@.len() != "pivot"@.len());
                assert("any"@.len() != "rollback"@.len());
                assert("any"@.len() != "select"@.len());
                assert("any"@.len() != "table"@.len());
                assert("any"@.len() != "to"@.len());
                assert("any"@.len() != "unknown"@.len());
                assert("any"@.len() != "unpivot"@.len());
                assert("any"@.len() != "where"@.len());
                assert("any"@.len() != "bool"@.len());
                assert("any"@[0] != "int"@[0]);
                assert("any"@.len() != "float"@.len());
                assert("any"@.len() != "number"@.len());
                assert("any"@.len() != "string"@.len());
                assert("any"@.len() != "object"@.len());
                assert("any"@.len() != "array"@.len());
                assert(keyword_token("any"@) == Some(Token::TypeAny));
            },
            Token::Null => {
                assert("null"@.len() != "all"@.len());
                assert("null"@.len() != "and"@.len());
                assert("null"@.len() != "as"@.len());
                assert("null"@.len() != "asc"@.len());
                assert("null"@.len() != "at"@.len());
                assert("null"@.len() != "begin"@.len());
                assert("null"@.len() != "between"@.len());
                assert("null"@.len() != "by"@.len());
                assert("null"@.len() != "clear"@.len());
                assert("null"@.len() != "commit"@.len());
                assert("null"@[0] != "copy"@[0]);
                assert("null"@.len() != "create"@.len());
                assert("null"@.len() != "delete"@.len());
                assert("null"@[0] != "desc"@[0]);
                assert("null"@[0] != "drop"@[0]);
                assert("null"@.len() != "exists"@.len());
                assert("null"@.len() != "group"@.len());
                assert("null"@.len() != "having"@.len());
                assert("null"@.len() != "in"@.len());
                assert("null"@.len() != "is"@.len());
                assert("null"@.len() != "limit"@.len());
                assert("null"@[0] != "from"@[0]);
                assert("null"@.len() != "insert"@.len());
                assert("null"@[0] != "into"@[0]);
                assert("null"@.len() != "not"@.len());
                assert("null"@.len() != "or"@.len());
                assert("null"@.len() != "order"@.len());
                assert("null"@.len() != "pivot"@.len());
                assert("null"@.len() != "rollback"@.len());
                assert("null"@.len() != "select"@.len());
                assert("null"@.len() != "table"@.len());
                assert("null"@.len() != "to"@.len());
                assert("null"@.len() != "unknown"@.len());
                assert("null"@.len() != "unpivot"@.len());
                assert("null"@.len() != "where"@.len());
                assert("null"@[0] != "bool"@[0]);
                assert("null"@.len() != "int"@.len());
                assert("null"@.len() != "float"@.len());
                assert("null"@.len() != "number"@.len());
                assert("null"@.len() != "string"@.len());
                assert("null"@.len() != "object"@.len());
                assert("null"@.len() != "array"@.len());
                assert("null"@.len() != "any"@.len());
                assert(keyword_token("null"@) == Some(Token::Null));
            },
            Token::True => {
                assert("true"@.len() != "all"@.len());
                assert("true"@.len() != "and"@.len());
                assert("true"@.len() != "as"@.len());
                assert("true"@.len() != "asc"@.len());
                assert("true"@.len() != "at"@.len());
                assert("true"@.len() != "begin"@.len());
                assert("true"@.len() != "between"@.len());
                assert("true"@.len() != "by"@.len());
                assert("true"@.len() != "clear"@.len());
                assert("true"@.len() != "commit"@.len());
                assert("true"@[0] != "copy"@[0]);
                assert("true"@.len() != "create"@.len());
                assert("true"@.len() != "delete"@.len());
                assert("true"@[0] != "desc"@[0]);
                assert("true"@[0] != "drop"@[0]);
                assert("true"@.len() != "exists"@.len());
                assert("true"@.len() != "group"@.len());
                assert("true"@.len() != "having"@.len());
                assert("true"@.len() != "in"@.len());
                assert("true"@.len() != "is"@.len());
                assert("true"@.len() != "limit"@.len());
                assert("true"@[0] != "from"@[0]);
                assert("true"@.len() != "insert"@.len());
                assert("true"@[0] != "into"@[0]);
                assert("true"@.len() != "not"@.len());
                assert("true"@.len() != "or"@.len());
                assert("true"@.len() != "order"@.len());
                assert("true"@.len() != "pivot"@.len());
                assert("true"@.len() != "rollback"@.len());
                assert("true"@.len() != "select"@.len());
                assert("true"@.len() != "table"@.len());
                assert("true"@.len() != "to"@.len());
                assert("true"@.len() != "unknown"@.len());
                assert("true"@.len() != "unpivot"@.len());
                assert("true"@.len() != "where"@.len());
                assert("true"@[0] != "bool"@[0]);
                assert("true"@.len() != "int"@.len());
                assert("true"@.len() != "float"@.len());
                assert("true"@.len() != "number"@.len());
                assert("true"@.len() != "string"@.len());
                assert("true"@.len() != "object"@.len());
                assert("true"@.len() != "array"@.len());
                assert("true"@.len() != "any"@.len());
                assert("true"@[0] != "null"@[0]);
                assert(keyword_token("true"@) == Some(Token::True));
            },
            Token::False => {
                assert("false"@.len() != "all"@.len());
                assert("false"@.len() != "and"@.len());
                assert("false"@.len() != "as"@.len());
                assert("false"@.len() != "asc"@.len());
                assert("false"@.len() != "at"@.len());
                assert("false"@[0] != "begin"@[0]);
                assert("false"@.len() != "between"@.len());
                assert("false"@.len() != "by"@.len());
                assert("false"@[0] != "clear"@[0]);
                assert("false"@.len() != "commit"@.len());
                assert("false"@.len() != "copy"@.len());
                assert("false"@.len() != "create"@.len());
                assert("false"@.len() != "delete"@.len());
                assert("false"@.len() != "desc"@.len());
                assert("false"@.len() != "drop"@.len());
                assert("false"@.len() != "exists"@.len());
                assert("false"@[0] != "group"@[0]);
                assert("false"@.len() != "having"@.len());
                assert("false"@.len() != "in"@.len());
                assert("false"@.len() != "is"@.len());
                assert("false"@[0] != "limit"@[0]);
                assert("false"@.len() != "from"@.len());
                assert("false"@.len() != "insert"@.len());
                assert("false"@.len() != "into"@.len());
                assert("false"@.len() != "not"@.len());
                assert("false"@.len() != "or"@.len());
                assert("false"@[0] != "order"@[0]);
                assert("false"@[0] != "pivot"@[0]);
                assert("false"@.len() != "rollback"@.len());
                assert("false"@.len() != "select"@.len());
                assert("false"@[0] != "table"@[0]);
                assert("false"@.len() != "to"@.len());
                assert("false"@.len() != "unknown"@.len());
                assert("false"@.len() != "unpivot"@.len());
                assert("false"@[0] != "where"@[0]);
                assert("false"@.len() != "bool"@.len());
                assert("false"@.len() != "int"@.len());
                assert("false"@[1] != "float"@[1]);
                assert("false"@.len() != "number"@.len());
                assert("false"@.len() != "string"@.len());
                assert("false"@.len() != "object"@.len());
                assert("false"@[0] != "array"@[0]);
                assert("false"@.len() != "any"@.len());
                assert("false"@.len() != "null"@.len());
                assert("false"@.len() != "true"@.len());
                assert(keyword_token("false"@) == Some(Token::False));
            },
            _ => {},
        }
    }

}

/// The length of the symbol at `i` (0 when none starts there): the longest
/// of `...`, `..`, `>=`, `<=`, `!=` and the one-character symbols.
pub open spec fn symbol_len(s: Seq<char>, i: int) -> int {
    if i + 3 <= s.len() && symbol_token(s.subrange(i, i + 3)) is Some {
        3
    } else if i + 2 <= s.len() && symbol_token(s.subrange(i, i + 2)) is Some {
        2
    } else if i + 1 <= s.len() && symbol_token(s.subrange(i, i + 1)) is Some {
        1
    } else {
        0
    }
}

/// The kind of lexeme that starts at a non-blank position.
pub enum Lexeme {
    /// A word: a keyword, or an identifier.
    Word,
    /// A number.
    Number,
    /// A quoted string.
    Quoted,
    /// A numbered parameter `$N`.
    Numbered,
    /// A named parameter `$name`.
    Named,
    /// A symbol.
    Symbol,
    /// A character that starts no token.
    Stray,
}

/// What starts at position `i` (which holds a non-blank character), and
/// where it ends.
pub open spec fn lexeme_at(s: Seq<char>, i: int) -> (Lexeme, int) {
    let c = s[i];
    if is_word_start(c) {
        (Lexeme::Word, word_end(s, i))
    } else if is_digit(c) || (c == '-' && digit_at(s, i + 1)) {
        (Lexeme::Number, number_end(s, i))
    } else if c == '\'' || c == '"' {
        match string_end_from(s, i + 1, c) {
            Some(e) => (Lexeme::Quoted, e),
            None => (Lexeme::Stray, i + 1),
        }
    } else if c == '$' && digit_at(s, i + 1) {
        (Lexeme::Numbered, digits_end(s, i + 1))
    } else if c == '$' && (char_at(s, i + 1) matches Some(d) && is_word_start(d)) {
        (Lexeme::Named, word_end(s, i + 1))
    } else if symbol_len(s, i) > 0 {
        (Lexeme::Symbol, i + symbol_len(s, i))
    } else {
        (Lexeme::Stray, i + 1)
    }
}

/// The value of a hexadecimal digit.
pub open spec fn hex_value(c: char) -> Option<u32> {
    if '0' <= c <= '9' {
        Some((c as u32 - '0' as u32) as u32)
    } else if 'a' <= c <= 'f' {
        Some((c as u32 - 'a' as u32 + 10) as u32)
    } else if 'A' <= c <= 'F' {
        Some((c as u32 - 'A' as u32 + 10) as u32)
    } else {
        None
    }
}

/// Whether `code` is a Unicode scalar value (a `char`).
pub open spec fn is_scalar(code: u32) -> bool {
    code < 0xD800 || (0xE000 <= code <= 0x10FFFF)
}

/// The character a one-character escape stands for: `\" \' \\ \/ \n \t \r
/// \b \f`.
pub open spec fn escape_char(c: char) -> Option<char> {
    if c == '"' {
        Some('"')
    } else if c == '\'' {
        Some('\'')
    } else if c == '\\' {
        Some('\\')
    } else if c == '/' {
        Some('/')
    } else if c == 'n' {
        Some('\n')
    } else if c == 't' {
        Some('\t')
    } else if c == 'r' {
        Some('\r')
    } else if c == 'b' {
        Some('\x08')
    } else if c == 'f' {
        Some('\x0c')
    } else {
        None
    }
}

/// The code of the four hex digits at `j`.
pub open spec fn hex4(t: Seq<char>, j: int) -> Option<u32> {
    if j + 4 <= t.len() {
        match (hex_value(t[j]), hex_value(t[j + 1]), hex_value(t[j + 2]), hex_value(t[j + 3])) {
            (Some(a), Some(b), Some(c), Some(d)) => Some((a * 4096 + b * 256 + c * 16 + d) as u32),
            _ => None,
        }
    } else {
        None
    }
}

/// The decoded content of a string body from `j` on: escapes resolved, an
/// unknown or cut-short escape (or a `\u` code that is no character) an
/// error.
pub open spec fn decode_from(t: Seq<char>, j: int) -> Option<Seq<char>>
    decreases t.len() - j,
{
    if j < 0 || j >= t.len() {
        Some(Seq::empty())
    } else if t[j] != '\\' {
        match decode_from(t, j + 1) {
            Some(rest) => Some(seq![t[j]] + rest),
            None => None,
        }
    } else if j + 1 >= t.len() {
        None
    } else if t[j + 1] == 'u' {
        match hex4(t, j + 2) {
            Some(code) => if is_scalar(code) {
                match decode_from(t, j + 6) {
                    Some(rest) => Some(seq![code as char] + rest),
                    None => None,
                }
            } else {
                None
            },
            None => None,
        }
    } else {
        match escape_char(t[j + 1]) {
            Some(e) => match decode_from(t, j + 2) {
                Some(rest) => Some(seq![e] + rest),
                None => None,
            },
            None => None,
        }
    }
}

/// Whether token `t` is what the text `text` of a lexeme of kind `k`
/// lexes as.
pub open spec fn token_of(k: Lexeme, text: Seq<char>, t: Token) -> bool {
    match k {
        Lexeme::Word => match keyword_token(text) {
            Some(kw) => t == kw,
            None => t matches Token::Identifier(x) && x@ == text,
        },
        Lexeme::Number => t matches Token::Number(x) && x@ == text,
        Lexeme::Quoted => t matches Token::String(x) && decode_from(
            text.subrange(1, text.len() - 1),
            0,
        ) == Some(x@),
        Lexeme::Numbered => t matches Token::NumberedParam(x) && x@ == text.drop_first(),
        Lexeme::Named => t matches Token::NamedParam(x) && x@ == text.drop_first(),
        Lexeme::Symbol => symbol_token(text) == Some(t),
        Lexeme::Stray => false,
    }
}

/// Whether a lexeme's text lexes without error (a quoted string can hold
/// a bad escape).
pub open spec fn lexeme_ok(k: Lexeme, text: Seq<char>) -> bool {
    match k {
        Lexeme::Quoted => decode_from(text.subrange(1, text.len() - 1), 0) is Some,
        Lexeme::Stray => false,
        _ => true,
    }
}


/// `char::from_u32`: the character with scalar value `code`, if there is
/// one.
#[verifier::external_body]
fn char_from_u32(code: u32) -> (r: Option<char>)
    ensures
        r is Some <==> is_scalar(code),
        r matches Some(c) ==> c == code as char,
{
    char::from_u32(code)
}

/// `char::to_string`: the one-character text of `c`.
#[verifier::external_body]
pub(crate) fn char_text(c: char) -> (r: String)
    ensures
        r@ == seq![c],
{
    c.to_string()
}

/// The characters of `s`, in order.
pub fn chars_of(s: &str) -> (r: Vec<char>)
    ensures
        r@ == s@,
{
    broadcast use vstd::string::axiom_spec_iter, vstd::string::next_postcondition;

    let mut out: Vec<char> = Vec::new();
    let mut it = s.chars();
    loop
        invariant
            out@ + it.remaining() == s@,
            it.obeys_prophetic_iter_laws(),
            it.decrease() is Some,
        decreases it.decrease()->0,
    {
        let ghost before = it.remaining();
        match it.next() {
            Some(c) => {
                assert(before.len() > 0);
                out.push(c);
                assert(out@ + it.remaining() =~= s@);
            },
            None => {
                assert(out@ =~= s@);
                return out;
            },
        }
    }
}


/// Whether `s[i..i + n]` is the text `lit`.
fn text_is(s: &Vec<char>, i: usize, n: usize, lit: &str) -> (r: bool)
    requires
        i + n <= s@.len(),
    ensures
        r == (s@.subrange(i as int, i + n) == lit@),
{
    let m = lit.unicode_len();
    if m != n {
        return false;
    }
    let len = s.len();
    let mut k: usize = 0;
    while k < n
        invariant
            len == s@.len(),
            k <= n,
            i + n <= s@.len(),
            m == n,
            lit@.len() == n,
            forall|j: int| 0 <= j < k ==> s@[i + j] == lit@[j],
        decreases n - k,
    {
        if s[i + k] != lit.get_char(k) {
            assert(s@.subrange(i as int, i + n)[k as int] != lit@[k as int]);
            return false;
        }
        k = k + 1;
    }
    assert(s@.subrange(i as int, i + n) =~= lit@);
    true
}

/// The token `s[i..i + n]` spells, per [`symbol_token`].
fn symbol_of(s: &Vec<char>, i: usize, n: usize) -> (r: Option<Token>)
    requires
        i + n <= s@.len(),
    ensures
        r == symbol_token(s@.subrange(i as int, i + n)),
{
    if text_is(s, i, n, "*") {
        Some(Token::Ast)
    } else if text_is(s, i, n, ",") {
        Some(Token::Comma)
    } else if text_is(s, i, n, ":") {
        Some(Token::Colon)
    } else if text_is(s, i, n, "$") {
        Some(Token::Dollar)
    } else if text_is(s, i, n, "?") {
        Some(Token::Question)
    } else if text_is(s, i, n, "..") {
        Some(Token::DotDot)
    } else if text_is(s, i, n, "...") {
        Some(Token::Ellipsis)
    } else if text_is(s, i, n, "=") {
        Some(Token::Eq)
    } else if text_is(s, i, n, ">") {
        Some(Token::Gt)
    } else if text_is(s, i, n, ">=") {
        Some(Token::Ge)
    } else if text_is(s, i, n, "<") {
        Some(Token::Lt)
    } else if text_is(s, i, n, "<=") {
        Some(Token::Le)
    } else if text_is(s, i, n, "-") {
        Some(Token::Minus)
    } else if text_is(s, i, n, "!=") {
        Some(Token::Ne)
    } else if text_is(s, i, n, "%") {
        Some(Token::Percent)
    } else if text_is(s, i, n, "+") {
        Some(Token::Plus)
    } else if text_is(s, i, n, ".") {
        Some(Token::Period)
    } else if text_is(s, i, n, "|") {
        Some(Token::Pipe)
    } else if text_is(s, i, n, ";") {
        Some(Token::SemiColon)
    } else if text_is(s, i, n, "/") {
        Some(Token::Sol)
    } else if text_is(s, i, n, "(") {
        Some(Token::ParenL)
    } else if text_is(s, i, n, ")") {
        Some(Token::ParenR)
    } else if text_is(s, i, n, "{") {
        Some(Token::BraceL)
    } else if text_is(s, i, n, "}") {
        Some(Token::BraceR)
    } else if text_is(s, i, n, "[") {
        Some(Token::BracketL)
    } else if text_is(s, i, n, "]") {
        Some(Token::BracketR)
    } else {
        None
    }
}

/// The token `s[i..i + n]` spells, per [`keyword_token`].
fn keyword_of(s: &Vec<char>, i: usize, n: usize) -> (r: Option<Token>)
    requires
        i + n <= s@.len(),
    ensures
        r == keyword_token(s@.subrange(i as int, i + n)),
{
    if text_is(s, i, n, "all") {
        Some(Token::All)
    } else if text_is(s, i, n, "and") {
        Some(Token::And)
    } else if text_is(s, i, n, "as") {
        Some(Token::As)
    } else if text_is(s, i, n, "asc") {
        Some(Token::Asc)
    } else if text_is(s, i, n, "at") {
        Some(Token::At)
    } else if text_is(s, i, n, "begin") {
        Some(Token::Begin)
    } else if text_is(s, i, n, "between") {
        Some(Token::Between)
    } else if text_is(s, i, n, "by") {
        Some(Token::By)
    } else if text_is(s, i, n, "clear") {
        Some(Token::Clear)
    } else if text_is(s, i, n, "commit") {
        Some(Token::Commit)
    } else if text_is(s, i, n, "copy") {
        Some(Token::Copy)
    } else if text_is(s, i, n, "create") {
        Some(Token::Create)
    } else if text_is(s, i, n, "delete") {
        Some(Token::Delete)
    } else if text_is(s, i, n, "desc") {
        Some(Token::Desc)
    } else if text_is(s, i, n, "drop") {
        Some(Token::Drop)
    } else if text_is(s, i, n, "exists") {
        Some(Token::Exists)
    } else if text_is(s, i, n, "group") {
        Some(Token::Group)
    } else if text_is(s, i, n, "having") {
        Some(Token::Having)
    } else if text_is(s, i, n, "in") {
        Some(Token::In)
    } else if text_is(s, i, n, "is") {
        Some(Token::Is)
    } else if text_is(s, i, n, "limit") {
        Some(Token::Limit)
    } else if text_is(s, i, n, "from") {
        Some(Token::From)
    } else if text_is(s, i, n, "insert") {
        Some(Token::Insert)
    } else if text_is(s, i, n, "into") {
        Some(Token::Into)
    } else if text_is(s, i, n, "not") {
        Some(Token::Not)
    } else if text_is(s, i, n, "or") {
        Some(Token::Or)
    } else if text_is(s, i, n, "order") {
        Some(Token::Order)
    } else if text_is(s, i, n, "pivot") {
        Some(Token::Pivot)
    } else if text_is(s, i, n, "rollback") {
        Some(Token::Rollback)
    } else if text_is(s, i, n, "select") {
        Some(Token::Select)
    } else if text_is(s, i, n, "table") {
        Some(Token::Table)
    } else if text_is(s, i, n, "to") {
        Some(Token::To)
    } else if text_is(s, i, n, "unknown") {
        Some(Token::Unknown)
    } else if text_is(s, i, n, "unpivot") {
        Some(Token::Unpivot)
    } else if text_is(s, i, n, "where") {
        Some(Token::Where)
    } else if text_is(s, i, n, "bool") {
        Some(Token::TypeBool)
    } else if text_is(s, i, n, "int") {
        Some(Token::TypeInt)
    } else if text_is(s, i, n, "float") {
        Some(Token::TypeFloat)
    } else if text_is(s, i, n, "number") {
        Some(Token::TypeNumber)
    } else if text_is(s, i, n, "string") {
        Some(Token::TypeString)
    } else if text_is(s, i, n, "object") {
        Some(Token::TypeObject)
    } else if text_is(s, i, n, "array") {
        Some(Token::TypeArray)
    } else if text_is(s, i, n, "any") {
        Some(Token::TypeAny)
    } else if text_is(s, i, n, "null") {
        Some(Token::Null)
    } else if text_is(s, i, n, "true") {
        Some(Token::True)
    } else if text_is(s, i, n, "false") {
        Some(Token::False)
    } else {
        None
    }
}


/// A run of digits ends at or after where it starts.
pub proof fn lemma_digits_end(s: Seq<char>, i: int)
    ensures
        digits_end(s, i) >= i,
        0 <= i <= s.len() ==> digits_end(s, i) <= s.len(),
    decreases s.len() - i,
{
    if 0 <= i < s.len() && is_digit(s[i]) {
        lemma_digits_end(s, i + 1);
    }
}

/// A run of word characters ends at or after where it starts.
pub proof fn lemma_word_end(s: Seq<char>, i: int)
    ensures
        word_end(s, i) >= i,
        0 <= i <= s.len() ==> word_end(s, i) <= s.len(),
    decreases s.len() - i,
{
    if 0 <= i < s.len() && is_word_char(s[i]) {
        lemma_word_end(s, i + 1);
    }
}

/// A number that starts at `i` ends after `i`, within the text.
pub proof fn lemma_number_end(s: Seq<char>, i: int)
    requires
        0 <= i < s.len(),
        is_digit(s[i]) || (s[i] == '-' && digit_at(s, i + 1)),
    ensures
        i < number_end(s, i) <= s.len(),
{
    let j0 = if char_at(s, i) == Some('-') {
        i + 1
    } else {
        i
    };
    lemma_digits_end(s, j0);
    lemma_digits_end(s, j0 + 1);
    let j1 = if char_at(s, j0) == Some('0') {
        j0 + 1
    } else {
        digits_end(s, j0)
    };
    lemma_digits_end(s, j1 + 1);
    let j2 = if char_at(s, j1) == Some('.') && digit_at(s, j1 + 1) {
        digits_end(s, j1 + 1)
    } else {
        j1
    };
    lemma_digits_end(s, j2 + 1);
    lemma_digits_end(s, j2 + 2);
}

/// A string body that closes ends past where it starts, within the text.
pub proof fn lemma_string_end(s: Seq<char>, j: int, q: char)
    ensures
        string_end_from(s, j, q) matches Some(e) ==> j < e <= s.len(),
    decreases s.len() - j,
{
    if 0 <= j < s.len() && s[j] != q {
        if s[j] == '\\' {
            if j + 1 < s.len() && s[j + 1] != '\n' {
                lemma_string_end(s, j + 2, q);
            }
        } else {
            lemma_string_end(s, j + 1, q);
        }
    }
}

/// Skipping blanks stays within the text and never goes back.
pub proof fn lemma_skip_blanks(s: Seq<char>, i: int)
    requires
        0 <= i <= s.len(),
    ensures
        i <= skip_blanks(s, i) <= s.len(),
    decreases s.len() - i,
{
    if i < s.len() && is_blank(s[i]) {
        lemma_skip_blanks(s, i + 1);
    }
}

/// A lexeme ends past where it starts, within the text.
pub proof fn lemma_lexeme_end(s: Seq<char>, i: int)
    requires
        0 <= i < s.len(),
    ensures
        i < lexeme_at(s, i).1 <= s.len(),
{
    let c = s[i];
    lemma_word_end(s, i + 1);
    lemma_word_end(s, i + 2);
    lemma_digits_end(s, i + 2);
    lemma_string_end(s, i + 1, c);
    if is_digit(c) || (c == '-' && digit_at(s, i + 1)) {
        lemma_number_end(s, i);
    }
}

/// Whether `c` is a blank.
fn blank(c: char) -> (r: bool)
    ensures
        r == is_blank(c),
{
    c == ' ' || c == '\t' || c == '\n' || c == '\x0c'
}

/// Whether `c` is a digit.
fn digit(c: char) -> (r: bool)
    ensures
        r == is_digit(c),
{
    '0' <= c && c <= '9'
}

/// Whether `c` can start a word.
fn word_start(c: char) -> (r: bool)
    ensures
        r == is_word_start(c),
{
    ('a' <= c && c <= 'z') || ('A' <= c && c <= 'Z') || c == '_'
}

/// Whether the character at `i` is `c`.
fn char_is(s: &Vec<char>, i: usize, c: char) -> (r: bool)
    ensures
        r == (char_at(s@, i as int) == Some(c)),
{
    i < s.len() && s[i] == c
}

/// Whether the character at `i` is a digit.
fn digit_at_exec(s: &Vec<char>, i: usize) -> (r: bool)
    ensures
        r == digit_at(s@, i as int),
{
    i < s.len() && digit(s[i])
}

/// The first non-blank position at or after `i`.
fn skip_blanks_exec(s: &Vec<char>, i: usize) -> (r: usize)
    requires
        i <= s@.len(),
    ensures
        r == skip_blanks(s@, i as int),
        i <= r <= s@.len(),
{
    let mut j = i;
    while j < s.len() && blank(s[j])
        invariant
            i <= j <= s@.len(),
            skip_blanks(s@, i as int) == skip_blanks(s@, j as int),
        decreases s@.len() - j,
    {
        j = j + 1;
    }
    j
}

/// The end of the digit run from `i`.
fn digits_end_exec(s: &Vec<char>, i: usize) -> (r: usize)
    requires
        i <= s@.len(),
    ensures
        r == digits_end(s@, i as int),
        i <= r <= s@.len(),
{
    let mut j = i;
    while j < s.len() && digit(s[j])
        invariant
            i <= j <= s@.len(),
            digits_end(s@, i as int) == digits_end(s@, j as int),
        decreases s@.len() - j,
    {
        j = j + 1;
    }
    j
}

/// The end of the word-character run from `i`.
fn word_end_exec(s: &Vec<char>, i: usize) -> (r: usize)
    requires
        i <= s@.len(),
    ensures
        r == word_end(s@, i as int),
        i <= r <= s@.len(),
{
    let mut j = i;
    while j < s.len() && (word_start(s[j]) || digit(s[j]))
        invariant
            i <= j <= s@.len(),
            word_end(s@, i as int) == word_end(s@, j as int),
        decreases s@.len() - j,
    {
        j = j + 1;
    }
    j
}

/// The end of the number starting at `i`.
fn number_end_exec(s: &Vec<char>, i: usize) -> (r: usize)
    requires
        s@.len() + 4 <= usize::MAX,
        i < s@.len(),
    ensures
        r == number_end(s@, i as int),
        r <= s@.len(),
{
    let j0 = if char_is(s, i, '-') {
        i + 1
    } else {
        i
    };
    let j1 = if char_is(s, j0, '0') {
        j0 + 1
    } else {
        digits_end_exec(s, j0)
    };
    let j2 = if char_is(s, j1, '.') && digit_at_exec(s, j1 + 1) {
        digits_end_exec(s, j1 + 1)
    } else {
        j1
    };
    if j2 < s.len() && (s[j2] == 'e' || s[j2] == 'E') {
        let k = if char_is(s, j2 + 1, '+') || char_is(s, j2 + 1, '-') {
            j2 + 2
        } else {
            j2 + 1
        };
        if digit_at_exec(s, k) {
            digits_end_exec(s, k)
        } else {
            j2
        }
    } else {
        j2
    }
}

/// The end of the quoted string whose body starts at `j`, closed by `q`.
fn string_end_exec(s: &Vec<char>, j: usize, q: char) -> (r: Option<usize>)
    requires
        j <= s@.len(),
    ensures
        r matches Some(e) ==> string_end_from(s@, j as int, q) == Some(e as int),
        r is None ==> string_end_from(s@, j as int, q) is None,
        r matches Some(e) ==> j < e <= s@.len(),
{
    let mut k = j;
    while k < s.len()
        invariant
            j <= k <= s@.len() + 1,
            string_end_from(s@, j as int, q) == string_end_from(s@, k as int, q),
        decreases s@.len() + 1 - k,
    {
        if s[k] == q {
            return Some(k + 1);
        } else if s[k] == '\\' {
            if k + 1 < s.len() && s[k + 1] != '\n' {
                k = k + 2;
            } else {
                return None;
            }
        } else {
            k = k + 1;
        }
    }
    None
}

/// The length of the symbol at `i` (0 when none starts there).
fn symbol_len_exec(s: &Vec<char>, i: usize) -> (r: usize)
    requires
        s@.len() + 4 <= usize::MAX,
        i <= s@.len(),
    ensures
        r == symbol_len(s@, i as int),
{
    let n = s.len();
    if i + 3 <= n && symbol_of(s, i, 3).is_some() {
        3
    } else if i + 2 <= n && symbol_of(s, i, 2).is_some() {
        2
    } else if i + 1 <= n && symbol_of(s, i, 1).is_some() {
        1
    } else {
        0
    }
}

/// What starts at the non-blank position `i`, and where it ends.
fn lexeme_at_exec(s: &Vec<char>, i: usize) -> (r: (Lexeme, usize))
    requires
        s@.len() + 4 <= usize::MAX,
        i < s@.len(),
    ensures
        r.0 == lexeme_at(s@, i as int).0,
        r.1 == lexeme_at(s@, i as int).1,
        i < r.1 <= s@.len(),
{
    let c = s[i];
    if word_start(c) {
        proof {
            lemma_word_end(s@, i + 1);
        }
        (Lexeme::Word, word_end_exec(s, i))
    } else if digit(c) || (c == '-' && digit_at_exec(s, i + 1)) {
        proof {
            lemma_number_end(s@, i as int);
        }
        (Lexeme::Number, number_end_exec(s, i))
    } else if c == '\'' || c == '"' {
        match string_end_exec(s, i + 1, c) {
            Some(e) => {
                assert(lexeme_at(s@, i as int).1 == e);
                (Lexeme::Quoted, e)
            },
            None => {
                assert(lexeme_at(s@, i as int).1 == i + 1);
                (Lexeme::Stray, i + 1)
            },
        }
    } else if c == '$' && digit_at_exec(s, i + 1) {
        proof {
            lemma_digits_end(s@, i + 2);
        }
        (Lexeme::Numbered, digits_end_exec(s, i + 1))
    } else if c == '$' && i + 1 < s.len() && word_start(s[i + 1]) {
        proof {
            lemma_word_end(s@, i + 2);
        }
        (Lexeme::Named, word_end_exec(s, i + 1))
    } else {
        let n = symbol_len_exec(s, i);
        if n > 0 {
            assert(lexeme_at(s@, i as int).1 == i + n);
            (Lexeme::Symbol, i + n)
        } else {
            assert(lexeme_at(s@, i as int).1 == i + 1);
            (Lexeme::Stray, i + 1)
        }
    }
}


/// The text `s[a..b]`.
pub(crate) fn text_of(s: &Vec<char>, a: usize, b: usize) -> (r: String)
    requires
        a <= b <= s@.len(),
    ensures
        r@ == s@.subrange(a as int, b as int),
{
    let mut out = String::new();
    let mut k = a;
    while k < b
        invariant
            a <= k <= b,
            b <= s@.len(),
            out@ == s@.subrange(a as int, k as int),
        decreases b - k,
    {
        out.append(char_text(s[k]).as_str());
        assert(out@ =~= s@.subrange(a as int, k + 1));
        k = k + 1;
    }
    out
}

/// The value of a hex digit.
fn hex_value_exec(c: char) -> (r: Option<u32>)
    ensures
        r == hex_value(c),
{
    if '0' <= c && c <= '9' {
        Some((c as u32) - ('0' as u32))
    } else if 'a' <= c && c <= 'f' {
        Some((c as u32) - ('a' as u32) + 10)
    } else if 'A' <= c && c <= 'F' {
        Some((c as u32) - ('A' as u32) + 10)
    } else {
        None
    }
}

/// The character a one-character escape stands for.
fn escape_char_exec(c: char) -> (r: Option<char>)
    ensures
        r == escape_char(c),
{
    if c == '"' {
        Some('"')
    } else if c == '\'' {
        Some('\'')
    } else if c == '\\' {
        Some('\\')
    } else if c == '/' {
        Some('/')
    } else if c == 'n' {
        Some('\n')
    } else if c == 't' {
        Some('\t')
    } else if c == 'r' {
        Some('\r')
    } else if c == 'b' {
        Some('\x08')
    } else if c == 'f' {
        Some('\x0c')
    } else {
        None
    }
}

/// The code of the four hex digits at `j` of `t`, read off `s` where `t`
/// starts at `a`.
fn hex4_exec(s: &Vec<char>, a: usize, b: usize, j: usize) -> (r: Option<u32>)
    requires
        a <= j <= b <= s@.len(),
        s@.len() + 8 <= usize::MAX,
    ensures
        r == hex4(s@.subrange(a as int, b as int), j - a),
{
    let ghost t = s@.subrange(a as int, b as int);
    if j + 4 > b {
        return None;
    }
    assert(t[j - a] == s@[j as int]);
    assert(t[j - a + 1] == s@[j + 1]);
    assert(t[j - a + 2] == s@[j + 2]);
    assert(t[j - a + 3] == s@[j + 3]);
    match (
        hex_value_exec(s[j]),
        hex_value_exec(s[j + 1]),
        hex_value_exec(s[j + 2]),
        hex_value_exec(s[j + 3]),
    ) {
        (Some(p), Some(q), Some(u), Some(v)) => Some(p * 4096 + q * 256 + u * 16 + v),
        _ => None,
    }
}

/// The decoded content of the string body `s[a..b]`, or `None` for a bad
/// escape.
fn decode_body(s: &Vec<char>, a: usize, b: usize) -> (r: Option<String>)
    requires
        a <= b <= s@.len(),
        s@.len() + 8 <= usize::MAX,
    ensures
        r matches Some(x) ==> decode_from(s@.subrange(a as int, b as int), 0) == Some(x@),
        r is None ==> decode_from(s@.subrange(a as int, b as int), 0) is None,
{
    let ghost t = s@.subrange(a as int, b as int);
    let mut out = String::new();
    let mut j = a;
    while j < b
        invariant
            a <= j,
            b <= s@.len(),
            s@.len() + 8 <= usize::MAX,
            t == s@.subrange(a as int, b as int),
            decode_from(t, 0) == match decode_from(t, j - a) {
                Some(rest) => Some(out@ + rest),
                None => None,
            },
        decreases b - j,
    {
        let c = s[j];
        assert(t[j - a] == c);
        if c != '\\' {
            out.append(char_text(c).as_str());
            proof {
                match decode_from(t, j - a + 1) {
                    Some(rest) => {
                        assert(out@ + rest =~= (out@.drop_last() + (seq![c] + rest)));
                    },
                    None => {},
                }
            }
            j = j + 1;
        } else if j + 1 >= b {
            return None;
        } else if s[j + 1] == 'u' {
            assert(t[j - a + 1] == 'u');
            match hex4_exec(s, a, b, j + 2) {
                Some(code) => {
                    match char_from_u32(code) {
                        Some(ch) => {
                            out.append(char_text(ch).as_str());
                            proof {
                                match decode_from(t, j - a + 6) {
                                    Some(rest) => {
                                        assert(out@ + rest =~= (out@.drop_last() + (seq![ch]
                                            + rest)));
                                    },
                                    None => {},
                                }
                            }
                            j = j + 6;
                        },
                        None => {
                            return None;
                        },
                    }
                },
                None => {
                    return None;
                },
            }
        } else {
            assert(t[j - a + 1] == s@[j + 1]);
            match escape_char_exec(s[j + 1]) {
                Some(e) => {
                    out.append(char_text(e).as_str());
                    proof {
                        match decode_from(t, j - a + 2) {
                            Some(rest) => {
                                assert(out@ + rest =~= (out@.drop_last() + (seq![e] + rest)));
                            },
                            None => {},
                        }
                    }
                    j = j + 2;
                },
                None => {
                    return None;
                },
            }
        }
    }
    assert(decode_from(t, j - a) == Some(Seq::<char>::empty()));
    assert(out@ + Seq::<char>::empty() =~= out@);
    Some(out)
}


/// One lexing step from position `i`: `None` at the end of the text, else
/// the start of the next lexeme, its kind and its end.
pub open spec fn step_spec(s: Seq<char>, i: int) -> Option<(int, Lexeme, int)> {
    let j = skip_blanks(s, i);
    if j >= s.len() {
        None
    } else {
        Some((j, lexeme_at(s, j).0, lexeme_at(s, j).1))
    }
}

/// The SQL lexer: a spanned token stream over a line, positions counted in
/// characters.
pub struct SqlLexer {
    chars: Vec<char>,
    pos: usize,
}

impl SqlLexer {
    /// The text being lexed.
    pub closed spec fn text(&self) -> Seq<char> {
        self.chars@
    }

    /// Where the next lexeme is looked for.
    pub closed spec fn position(&self) -> int {
        self.pos as int
    }

    /// The lexer is within its text, which fits the machine's counters.
    pub closed spec fn wf(&self) -> bool {
        self.pos <= self.chars@.len() && self.chars@.len() + 8 <= usize::MAX
    }

    /// Creates a lexer over `input`.
    pub fn new(input: &str) -> (r: Self)
        requires
            input@.len() + 8 <= usize::MAX,
        ensures
            r.wf(),
            r.text() == input@,
            r.position() == 0,
    {
        SqlLexer { chars: chars_of(input), pos: 0 }
    }

    /// The next token with its start and end positions, an error for a
    /// lexeme that does not lex (a stray character, or a string with a bad
    /// escape), or `None` at the end.
    pub fn next(&mut self) -> (r: Option<Result<(usize, Token, usize), Error>>)
        requires
            old(self).wf(),
        ensures
            final(self).wf(),
            final(self).text() == old(self).text(),
            match step_spec(old(self).text(), old(self).position()) {
                None => r is None && final(self).position() == old(self).position(),
                Some((a, k, b)) => final(self).position() == b && match r {
                    Some(Ok((x, t, y))) => x == a && y == b && lexeme_ok(
                        k,
                        old(self).text().subrange(a, b),
                    ) && token_of(k, old(self).text().subrange(a, b), t),
                    Some(Err(e)) => !lexeme_ok(k, old(self).text().subrange(a, b)) && (
                    e is SyntaxError),
                    None => false,
                },
            },
    {
        let s = &self.chars;
        let start = skip_blanks_exec(s, self.pos);
        if start >= s.len() {
            return None;
        }
        let (kind, end) = lexeme_at_exec(s, start);
        let ghost text = s@.subrange(start as int, end as int);
        let r = match kind {
            Lexeme::Word => {
                match keyword_of(s, start, end - start) {
                    Some(kw) => Ok((start, kw, end)),
                    None => Ok((start, Token::Identifier(text_of(s, start, end)), end)),
                }
            },
            Lexeme::Number => Ok((start, Token::Number(text_of(s, start, end)), end)),
            Lexeme::Quoted => {
                proof {
                    lemma_string_end(s@, start + 1, s@[start as int]);
                    assert(text.subrange(1, text.len() - 1) =~= s@.subrange(
                        start + 1,
                        end - 1,
                    ));
                }
                match decode_body(s, start + 1, end - 1) {
                    Some(x) => Ok((start, Token::String(x), end)),
                    None => Err(Error::SyntaxError(String::from_str("invalid string escape"))),
                }
            },
            Lexeme::Numbered => {
                assert(text.drop_first() =~= s@.subrange(start + 1, end as int));
                Ok((start, Token::NumberedParam(text_of(s, start + 1, end)), end))
            },
            Lexeme::Named => {
                assert(text.drop_first() =~= s@.subrange(start + 1, end as int));
                Ok((start, Token::NamedParam(text_of(s, start + 1, end)), end))
            },
            Lexeme::Symbol => {
                match symbol_of(s, start, end - start) {
                    Some(t) => Ok((start, t, end)),
                    None => Err(Error::SyntaxError(String::from_str("unexpected character"))),
                }
            },
            Lexeme::Stray => Err(Error::SyntaxError(String::from_str("unexpected character"))),
        };
        self.pos = end;
        Some(r)
    }
}

} // verus!

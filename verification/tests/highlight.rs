use monadb::error::Error;
use monadb::highlight::{highlight_line, KEYWORD, LITERAL, RESET, SYMBOL};
use monadb::lexer::{SqlLexer, Token};

fn tokens(input: &str) -> Vec<Result<(usize, Token, usize), Error>> {
    let mut lx = SqlLexer::new(input);
    let mut out = Vec::new();
    while let Some(item) = lx.next() {
        out.push(item);
    }
    out
}

#[test]
fn highlights_keywords() {
    let out = highlight_line("select * from t;");
    assert!(out.contains(KEYWORD));
    assert!(out.contains("select"));
}

#[test]
fn highlights_string_literals() {
    let out = highlight_line("where name = 'alice';");
    assert!(out.contains(LITERAL));
    assert!(out.contains("'alice'"));
}

#[test]
fn highlight_exact_output() {
    let out = highlight_line("select x;");
    let want = format!("{KEYWORD}select{RESET} {RESET}x{RESET}{SYMBOL};{RESET}");
    assert_eq!(out, want);
}

#[test]
fn highlight_keeps_stray_characters_plain() {
    let out = highlight_line("a ! b");
    assert_eq!(out, format!("{RESET}a{RESET} ! {RESET}b{RESET}"));
}

#[test]
fn lexes_symbols_by_longest_match() {
    let toks = tokens("... .. . >= > != <=");
    let kinds: Vec<String> = toks.iter().map(|t| format!("{:?}", t.as_ref().unwrap().1)).collect();
    assert_eq!(kinds, vec!["Ellipsis", "DotDot", "Period", "Ge", "Gt", "Ne", "Le"]);
}

#[test]
fn lexes_keywords_and_identifiers() {
    let toks = tokens("select selected _x1");
    assert!(matches!(toks[0], Ok((0, Token::Select, 6))));
    assert!(matches!(&toks[1], Ok((7, Token::Identifier(s), 15)) if s == "selected"));
    assert!(matches!(&toks[2], Ok((16, Token::Identifier(s), 19)) if s == "_x1"));
}

#[test]
fn lexes_numbers() {
    let toks = tokens("-12.5e+3 0 07 -x");
    assert!(matches!(&toks[0], Ok((0, Token::Number(s), 8)) if s == "-12.5e+3"));
    assert!(matches!(&toks[1], Ok((9, Token::Number(s), 10)) if s == "0"));
    assert!(matches!(&toks[2], Ok((11, Token::Number(s), 12)) if s == "0"));
    assert!(matches!(&toks[3], Ok((12, Token::Number(s), 13)) if s == "7"));
    assert!(matches!(toks[4], Ok((14, Token::Minus, 15))));
}

#[test]
fn decodes_string_escapes() {
    let toks = tokens(r#"'it\'s' "a\nb" '\u00e9'"#);
    assert!(matches!(&toks[0], Ok((_, Token::String(s), _)) if s == "it's"));
    assert!(matches!(&toks[1], Ok((_, Token::String(s), _)) if s == "a\nb"));
    assert!(matches!(&toks[2], Ok((_, Token::String(s), _)) if s == "é"));
}

#[test]
fn bad_escape_is_syntax_error() {
    let toks = tokens(r"'\q' x");
    assert!(matches!(&toks[0], Err(Error::SyntaxError(m)) if m == "invalid string escape"));
    assert!(matches!(&toks[1], Ok((5, Token::Identifier(_), 6))));
}

#[test]
fn lexes_parameters() {
    let toks = tokens("$1 $name $");
    assert!(matches!(&toks[0], Ok((0, Token::NumberedParam(s), 2)) if s == "1"));
    assert!(matches!(&toks[1], Ok((3, Token::NamedParam(s), 8)) if s == "name"));
    assert!(matches!(toks[2], Ok((9, Token::Dollar, 10))));
}

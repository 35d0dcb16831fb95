use monadb::display::{join, text, Block, ToSql};
use monadb::ir::{Create, Key, TMember, TObject, TableDefinition, Type};

fn td(name: &str, members: Vec<(&str, Type)>) -> TableDefinition {
    TableDefinition {
        oid: None,
        name: name.into(),
        keys: members.into_iter().map(|(n, ty)| Key { name: n.into(), ty }).collect(),
    }
}

#[test]
fn create_table_empty() {
    let t = td("T", vec![]);
    assert_eq!(t.sql(), "create table T");
}

#[test]
fn create_table_standard() {
    let t = td("users", vec![("id", Type::Int), ("name", Type::String)]);
    assert_eq!(t.sql(), "create table users (\n  id int,\n  name string\n)");
}

#[test]
fn nested_object_type() {
    let inner = TObject { members: vec![TMember { name: "k".into(), ty: Box::new(Type::String) }] };
    let t = td("T", vec![("meta", Type::Object(inner))]);
    assert_eq!(t.sql(), "create table T (\n  meta {\n    k: string\n  }\n)");
}

#[test]
fn dsl_concat() {
    let b = text("a") + " b" + text("c");
    assert_eq!(b.sql(), "a bc");
}

#[test]
fn dsl_str_lhs() {
    let b = "kw " + text("ident");
    assert_eq!(b.sql(), "kw ident");
}

#[test]
fn dsl_nest_outer_indent() {
    let b = text("body").nest("(", ")");
    assert_eq!(b.sql(), "(\n  body\n)");
}

#[test]
fn join_empty_is_empty() {
    let b: Block = join(text(","), Vec::<Block>::new());
    assert_eq!(b.sql(), "");
}

#[test]
fn join_interleaves_separator() {
    let b = join(text(", "), vec![text("a"), text("b"), text("c")]);
    assert_eq!(b.sql(), "a, b, c");
}

#[test]
fn create_statement_ends_with_semicolon() {
    let c = Create::Table(td("t", vec![("id", Type::Int)]));
    assert_eq!(c.sql(), "create table t (\n  id int\n);");
}

#[test]
fn types_render_their_keywords() {
    assert_eq!(Type::Any.sql(), "any");
    assert_eq!(Type::Bool.sql(), "bool");
    assert_eq!(Type::Float.sql(), "float");
    assert_eq!(Type::Number.sql(), "number");
    assert_eq!(Type::Array.sql(), "array");
    assert_eq!(Type::Object(TObject { members: vec![] }).sql(), "object");
}

#[test]
fn owned_string_and_from_blocks() {
    let b = String::from("x") + Block::from("y") + Block::from(String::from("z"));
    assert_eq!(b.sql(), "xyz");
    let c = b.clone();
    assert_eq!(c.sql(), "xyz");
}

use monadb::read::{default_alias, format_of_ext, infer_format, looks_like_file, read_builtin, write_builtin, FileFormat};
use monadb::read_options::{ReadOptions, WriteOptions};
use monadb::error::Error;
use monadb::value::{Field, Value};

#[test]
fn infer_format_extensions() {
    assert_eq!(infer_format("a.csv"), Some(FileFormat::Csv));
    assert_eq!(infer_format("a.tsv"), Some(FileFormat::Tsv));
    assert_eq!(infer_format("a.jsonl"), Some(FileFormat::Jsonl));
    assert_eq!(infer_format("a.ndjson"), Some(FileFormat::Jsonl));
    assert_eq!(infer_format("hello"), None);
}

#[test]
fn infer_format_ignores_ascii_case() {
    assert_eq!(infer_format("dir/A.CSV"), Some(FileFormat::Csv));
    assert_eq!(infer_format("x.Json"), Some(FileFormat::Json));
    assert_eq!(infer_format("x.txt"), None);
    assert!(looks_like_file("data.tsv"));
    assert!(!looks_like_file("data"));
}

#[test]
fn alias_is_the_file_stem() {
    assert_eq!(default_alias("dir/test.csv"), "test");
    assert_eq!(default_alias("/"), "file");
}

#[test]
fn builtin_names_per_format() {
    assert_eq!(read_builtin(FileFormat::Tsv), "read_csv");
    assert_eq!(read_builtin(FileFormat::Json), "read_json");
    assert_eq!(write_builtin(FileFormat::Jsonl), "write_jsonl");
}

fn obj(members: Vec<(&str, Value)>) -> Value {
    Value::Object(members.into_iter().map(|(k, v)| Field { key: k.to_string(), value: v }).collect())
}

#[test]
fn read_options_parse() {
    let o = ReadOptions::from_value(&Value::Null).unwrap();
    assert!(o.header && o.delimiter == ',' && o.quote == '"' && o.skip == 0);
    let o = ReadOptions::from_value(&obj(vec![
        ("header", Value::Bool(false)),
        ("delimiter", Value::String(";".into())),
        ("columns", Value::Array(vec![Value::String("a".into()), Value::String("b".into())])),
        ("skip", Value::Float(2.0f64.to_bits())),
    ]))
    .unwrap();
    assert!(!o.header);
    assert_eq!(o.delimiter, ';');
    assert_eq!(o.columns, vec!["a".to_string(), "b".to_string()]);
    assert_eq!(o.skip, 2);
    assert_eq!(o.for_tsv().delimiter, '\t');
}

#[test]
fn read_options_errors() {
    match ReadOptions::from_value(&obj(vec![("bogus", Value::Null)])) {
        Err(Error::Unsupported(m)) => assert_eq!(m, "unknown read option 'bogus'"),
        other => panic!("unexpected {other:?}"),
    }
    match ReadOptions::from_value(&obj(vec![("quote", Value::String("ab".into()))])) {
        Err(Error::InternalError(m)) => assert_eq!(m, "option 'quote' requires a single character"),
        other => panic!("unexpected {other:?}"),
    }
    match ReadOptions::from_value(&obj(vec![("skip", Value::Int(-1))])) {
        Err(Error::InternalError(m)) => assert_eq!(m, "option 'skip' requires a non-negative integer"),
        other => panic!("unexpected {other:?}"),
    }
    assert!(matches!(ReadOptions::from_value(&Value::Int(1)), Err(Error::InternalError(_))));
}

#[test]
fn write_options_parse() {
    let o = WriteOptions::from_value(&obj(vec![("header", Value::Bool(false))])).unwrap();
    assert!(!o.header && o.delimiter == ',');
    match WriteOptions::from_value(&obj(vec![("skip", Value::Int(1))])) {
        Err(Error::Unsupported(m)) => assert_eq!(m, "unknown write option 'skip'"),
        other => panic!("unexpected {other:?}"),
    }
}

#[test]
fn format_of_ext_ignores_ascii_case() {
    assert_eq!(format_of_ext("CSV"), Some(FileFormat::Csv));
    assert_eq!(format_of_ext("NdJson"), Some(FileFormat::Jsonl));
    assert_eq!(format_of_ext("json"), Some(FileFormat::Json));
    assert_eq!(format_of_ext("txt"), None);
    assert_eq!(format_of_ext(""), None);
}

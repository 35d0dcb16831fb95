use monadb::error::Error;
use monadb::read::FileFormat;
use monadb::read_options::{ReadOptions, WriteOptions};
use monadb::tabular::{
    csv_bytes, csv_rows_from_bytes, json_rows_from_bytes, json_text, jsonl_rows_from_bytes, jsonl_text,
    rows_from_bytes,
};
use monadb::value::{Field, Value};

fn bits(cell: &String) -> Option<u64> {
    cell.parse::<f64>().ok().map(f64::to_bits)
}

fn member<'a>(row: &'a Value, key: &str) -> Option<&'a Value> {
    match row {
        Value::Object(ms) => ms.iter().find(|f| f.key == key).map(|f| &f.value),
        _ => None,
    }
}

#[test]
fn json_bytes_top_level_array_object_and_error() {
    let cases: [(&str, Option<usize>); 5] = [
        ("[{\"x\":1},{\"x\":2}]", Some(2)),
        ("{\"x\":1}", Some(1)),
        ("[]", Some(0)),
        ("[1,2,3]", Some(3)),
        ("42", None),
    ];
    for (text, expected) in cases {
        let rows = rows_from_bytes(text.as_bytes(), FileFormat::Json, &ReadOptions::default(), "f.json", bits);
        match expected {
            Some(n) => assert_eq!(rows.unwrap().len(), n, "{text}"),
            None => assert!(rows.is_err(), "{text}"),
        }
    }
}

#[test]
fn json_skip_starts_later_and_bad_kind_names_the_path() {
    let rows = json_rows_from_bytes(b"[1,2,3]", "f.json", 2).unwrap();
    assert_eq!(rows.len(), 1);
    assert!(matches!(rows[0], Value::Int(3)));
    assert!(json_rows_from_bytes(b"[1]", "f.json", 5).unwrap().is_empty());
    let r = json_rows_from_bytes(b"\"s\"", "f.json", 0);
    assert!(matches!(r, Err(Error::IoError(m)) if m == "f.json: json source must be an array or an object"));
    assert!(matches!(json_rows_from_bytes(b"[", "f.json", 0), Err(Error::IoError(m)) if m.starts_with("f.json:")));
}

#[test]
fn jsonl_lines_become_object_rows() {
    let text = b"{\"x\":1}\r\n\n   \n{\"x\":2}";
    let rows = jsonl_rows_from_bytes(text, "f.jsonl", 0).unwrap();
    assert_eq!(rows.len(), 2);
    assert!(matches!(member(&rows[0], "x"), Some(Value::Int(1))));
    assert!(matches!(member(&rows[1], "x"), Some(Value::Int(2))));
}

#[test]
fn jsonl_skip_drops_lines_unread_and_failures_name_the_line() {
    let rows = jsonl_rows_from_bytes(b"oops\n{\"x\":2}\n", "f.jsonl", 1).unwrap();
    assert_eq!(rows.len(), 1);
    let r = jsonl_rows_from_bytes(b"{\"x\":1}\n[1]\n", "f.jsonl", 0);
    assert!(matches!(r, Err(Error::InternalError(m)) if m == "jsonl row at f.jsonl:2 must be a JSON object"));
    let r = jsonl_rows_from_bytes(b"{\"x\":1}\n{\"x\":3\n", "f.jsonl", 0);
    assert!(matches!(r, Err(Error::IoError(m)) if m.starts_with("f.jsonl:")));
    let r = jsonl_rows_from_bytes(b"\xff\xfe\n", "f.jsonl", 0);
    assert!(matches!(r, Err(Error::IoError(m)) if m == "f.jsonl: stream did not contain valid UTF-8"));
}

#[test]
fn csv_header_names_columns_and_cells_take_types() {
    let text = b"a,b,c\n1,x,2.5\n,y,7\n";
    let rows = csv_rows_from_bytes(text, &ReadOptions::default(), ',', "f.csv", bits).unwrap();
    assert_eq!(rows.len(), 2);
    assert!(matches!(member(&rows[0], "a"), Some(Value::Int(1))));
    assert!(matches!(member(&rows[0], "b"), Some(Value::String(s)) if s == "x"));
    assert!(matches!(member(&rows[0], "c"), Some(Value::Float(f)) if *f == 2.5f64.to_bits()));
    assert!(matches!(member(&rows[1], "a"), Some(Value::String(s)) if s.is_empty()));
}

#[test]
fn csv_without_header_makes_up_names_and_skips() {
    let mut opts = ReadOptions::default();
    opts.header = false;
    opts.skip = 1;
    let rows = rows_from_bytes(b"1\t2\n3\t4\t5\n", FileFormat::Tsv, &opts, "f.tsv", bits).unwrap();
    assert_eq!(rows.len(), 1);
    assert!(matches!(member(&rows[0], "column0"), Some(Value::Int(3))));
    assert!(matches!(member(&rows[0], "column2"), Some(Value::Int(5))));
}

#[test]
fn csv_reader_failure_names_the_path() {
    let r = csv_rows_from_bytes(b"a\n\xff\xfe\n", &ReadOptions::default(), ',', "f.csv", bits);
    assert!(matches!(r, Err(Error::IoError(m)) if m.starts_with("f.csv: ")));
}

fn obj(members: Vec<(&str, Value)>) -> Value {
    Value::Object(members.into_iter().map(|(k, v)| Field { key: k.to_string(), value: v }).collect())
}

/// A small JSON rendering for the tests (integers, strings, objects, arrays).
fn json_of(v: &Value) -> Result<String, String> {
    Ok(match v {
        Value::Null => "null".to_string(),
        Value::Bool(b) => b.to_string(),
        Value::Int(i) => i.to_string(),
        Value::String(s) => format!("\"{s}\""),
        Value::Array(xs) => {
            let parts = xs.iter().map(json_of).collect::<Result<Vec<String>, String>>()?;
            format!("[{}]", parts.join(","))
        }
        Value::Object(ms) => {
            let parts = ms
                .iter()
                .map(|f| json_of(&f.value).map(|t| format!("\"{}\":{}", f.key, t)))
                .collect::<Result<Vec<String>, String>>()?;
            format!("{{{}}}", parts.join(","))
        }
        _ => return Err("unsupported".to_string()),
    })
}

fn cell_of(v: &Value) -> String {
    json_of(v).unwrap()
}

#[test]
fn csv_writer_takes_columns_from_the_first_row() {
    let rows = vec![
        obj(vec![("a", Value::Int(1)), ("b", Value::String("x,y".to_string()))]),
        obj(vec![("b", Value::Null), ("c", Value::Int(3))]),
    ];
    let out = csv_bytes(&rows, &WriteOptions::default(), ',', "out.csv", cell_of).unwrap();
    assert_eq!(String::from_utf8(out).unwrap(), "a,b\n1,\"x,y\"\n,\n");
    let no_header = WriteOptions { header: false, delimiter: ',', quote: '"' };
    let out = csv_bytes(&rows, &no_header, '\t', "out.tsv", cell_of).unwrap();
    assert_eq!(String::from_utf8(out).unwrap(), "1\tx,y\n\t\n");
}

#[test]
fn writers_refuse_rows_that_are_not_objects() {
    let rows = vec![obj(vec![("a", Value::Int(1))]), Value::Int(2)];
    match csv_bytes(&rows, &WriteOptions::default(), ',', "o.csv", cell_of) {
        Err(Error::InternalError(m)) => assert_eq!(m, "write_csv() requires object rows"),
        other => panic!("unexpected {other:?}"),
    }
    match jsonl_text(&rows, "o.jsonl", json_of) {
        Err(Error::InternalError(m)) => assert_eq!(m, "write_jsonl() requires object rows"),
        other => panic!("unexpected {other:?}"),
    }
    let odd = vec![obj(vec![("f", Value::Float(0))])];
    match jsonl_text(&odd, "o.jsonl", json_of) {
        Err(Error::IoError(m)) => assert_eq!(m, "o.jsonl: unsupported"),
        other => panic!("unexpected {other:?}"),
    }
}

#[test]
fn jsonl_and_json_writers_round_trip_through_the_readers() {
    let rows = vec![obj(vec![("x", Value::Int(1))]), obj(vec![("x", Value::Int(2))])];
    let lines = jsonl_text(&rows, "o.jsonl", json_of).unwrap();
    assert_eq!(lines, "{\"x\":1}\n{\"x\":2}\n");
    let again = jsonl_rows_from_bytes(lines.as_bytes(), "o.jsonl", 0).unwrap();
    assert_eq!(again.len(), 2);
    assert!(matches!(member(&again[1], "x"), Some(Value::Int(2))));
    let text = json_text(&rows, "o.json", json_of).unwrap();
    assert_eq!(text, "[{\"x\":1},{\"x\":2}]\n");
    let again = json_rows_from_bytes(text.as_bytes(), "o.json", 0).unwrap();
    assert_eq!(again.len(), 2);
    assert!(matches!(member(&again[0], "x"), Some(Value::Int(1))));
}

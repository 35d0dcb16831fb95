use monadb::error::Error;
use monadb::read_options::ReadOptions;
use monadb::rows::{
    cell_value, is_blank, parse_int, record_cells, record_object, require_object, write_columns, CsvRows,
    JsonRows, JsonlRows,
};
use monadb::value::{Field, Value};

/// Each cell's text read as a float, as the caller hands it over.
fn float_bits(cells: &[String]) -> Vec<Option<u64>> {
    cells.iter().map(|c| c.parse::<f64>().ok().map(f64::to_bits)).collect()
}

/// The rows of CSV/TSV `text`, read record by record as a file reader does.
fn csv_rows(text: &str, opts: ReadOptions, delimiter: u8) -> Vec<Value> {
    let mut reader = csv::ReaderBuilder::new()
        .has_headers(opts.header)
        .delimiter(delimiter)
        .flexible(true)
        .from_reader(text.as_bytes());
    let header: Vec<String> = if opts.header {
        reader.headers().unwrap().iter().map(String::from).collect()
    } else {
        Vec::new()
    };
    let mut state = CsvRows::open(&opts, header);
    let mut rows = Vec::new();
    let mut record = csv::StringRecord::new();
    while reader.read_record(&mut record).unwrap() {
        let cells: Vec<String> = record.iter().map(String::from).collect();
        let floats = float_bits(&cells);
        if let Some(row) = state.next_record(&cells, &floats) {
            rows.push(row);
        }
    }
    rows
}

fn from_json(v: serde_json::Value) -> Value {
    match v {
        serde_json::Value::Null => Value::Null,
        serde_json::Value::Bool(b) => Value::Bool(b),
        serde_json::Value::Number(n) => match n.as_i64() {
            Some(i) => Value::Int(i),
            None => Value::Float(n.as_f64().unwrap_or(0.0).to_bits()),
        },
        serde_json::Value::String(s) => Value::String(s),
        serde_json::Value::Array(items) => Value::Array(items.into_iter().map(from_json).collect()),
        serde_json::Value::Object(map) => Value::Object(
            map.into_iter().map(|(key, v)| Field { key, value: from_json(v) }).collect(),
        ),
    }
}

fn to_json(v: &Value) -> serde_json::Value {
    match v {
        Value::Null => serde_json::Value::Null,
        Value::Bool(b) => serde_json::Value::Bool(*b),
        Value::Int(i) => serde_json::Value::from(*i),
        Value::Float(b) => serde_json::Value::from(f64::from_bits(*b)),
        Value::String(s) => serde_json::Value::String(s.clone()),
        Value::Bytes(b) => serde_json::Value::from(b.clone()),
        Value::Oid(o) => serde_json::Value::from(*o),
        Value::Array(items) => serde_json::Value::Array(items.iter().map(to_json).collect()),
        Value::Object(ms) => serde_json::Value::Object(
            ms.iter().map(|f| (f.key.clone(), to_json(&f.value))).collect(),
        ),
    }
}

fn decode(text: &str) -> Result<Value, String> {
    serde_json::from_str::<serde_json::Value>(text).map(from_json).map_err(|e| format!("{e:?}"))
}

/// The rows of JSONL `text`, line by line, up to the first error.
fn jsonl_rows(text: &str, opts: &ReadOptions) -> Result<Vec<Value>, Error> {
    let mut state = JsonlRows::open("t.jsonl", opts);
    let mut rows = Vec::new();
    for line in text.lines() {
        if !state.begin_line() || is_blank(line) {
            continue;
        }
        rows.push(state.row_from_line(decode(line))?);
    }
    Ok(rows)
}

fn json_rows(text: &str, opts: &ReadOptions) -> Result<Vec<Value>, Error> {
    let mut doc = JsonRows::from_document("t.json", decode(text), opts.skip)?;
    let mut rows = Vec::new();
    while let Some(row) = doc.next_row() {
        rows.push(row);
    }
    Ok(rows)
}

fn int_at(row: &Value, name: &str) -> Option<i64> {
    match row.get_field(name) {
        Some(Value::Int(i)) => Some(*i),
        _ => None,
    }
}

fn width(row: &Value) -> usize {
    match row {
        Value::Object(ms) => ms.len(),
        _ => usize::MAX,
    }
}

#[test]
fn read_csv_with_header() {
    let rows = csv_rows("a,b\n1,2\n3,4", ReadOptions::default(), b',');
    assert_eq!(rows.len(), 2);
    assert_eq!(int_at(&rows[0], "a"), Some(1));
    assert_eq!(int_at(&rows[0], "b"), Some(2));
}

#[test]
fn read_csv_no_header() {
    let mut opts = ReadOptions::default();
    opts.header = false;
    let rows = csv_rows("1,2\n3,4", opts, b',');
    assert_eq!(int_at(&rows[0], "column0"), Some(1));
}

#[test]
fn csv_skip_counts_data_records_after_header() {
    let mut opts = ReadOptions::default();
    opts.skip = 1;
    let rows = csv_rows("a,b\n1,2\n3,4\n", opts, b',');
    assert_eq!(rows.len(), 1);
    assert_eq!(int_at(&rows[0], "a"), Some(3));
}

#[test]
fn jsonl_skip_counts_blank_lines() {
    let mut opts = ReadOptions::default();
    opts.skip = 1;
    let rows = jsonl_rows("\n{\"x\":1}\n{\"x\":2}\n", &opts).unwrap();
    assert_eq!(rows.len(), 2);
    assert_eq!(int_at(&rows[0], "x"), Some(1));
}

#[test]
fn csv_duplicate_headers_last_wins() {
    let rows = csv_rows("a,b,a\n1,2,3\n", ReadOptions::default(), b',');
    assert_eq!(rows.len(), 1);
    assert_eq!(width(&rows[0]), 2);
    assert_eq!(int_at(&rows[0], "a"), Some(3));
    assert_eq!(int_at(&rows[0], "b"), Some(2));
}

#[test]
fn csv_flexible_wider_row_truncates_to_header() {
    let rows = csv_rows("a,b\n1,2,3\n", ReadOptions::default(), b',');
    assert_eq!(rows.len(), 1);
    assert_eq!(width(&rows[0]), 2);
    assert_eq!(int_at(&rows[0], "b"), Some(2));
}

#[test]
fn csv_flexible_narrow_row_drops_missing_fields() {
    let rows = csv_rows("a,b\n1\n", ReadOptions::default(), b',');
    assert_eq!(rows.len(), 1);
    assert_eq!(width(&rows[0]), 1);
    assert_eq!(int_at(&rows[0], "a"), Some(1));
}

#[test]
fn reader_stops_before_malformed_row() {
    let opts = ReadOptions::default();
    let mut state = JsonlRows::open("t.jsonl", &opts);
    let mut lines = "{\"x\":1}\n{\"x\":2}\n{\"x\":3\n".lines();
    for expected in [1, 2] {
        assert!(state.begin_line());
        let row = state.row_from_line(decode(lines.next().unwrap())).unwrap();
        assert_eq!(int_at(&row, "x"), Some(expected));
    }
    // Only now is the malformed line touched.
    assert!(state.begin_line());
    assert!(state.row_from_line(decode(lines.next().unwrap())).is_err());
    // Reading the same text through fails outright.
    assert!(jsonl_rows("{\"x\":1}\n{\"x\":2}\n{\"x\":3\n", &opts).is_err());
}

#[test]
fn json_top_level_array_object_and_error() {
    let cases: [(&str, Option<usize>); 5] = [
        ("[{\"x\":1},{\"x\":2}]", Some(2)),
        ("{\"x\":1}", Some(1)),
        ("[]", Some(0)),
        // Rows need not be objects.
        ("[1,2,3]", Some(3)),
        ("42", None),
    ];
    for (text, expected) in cases {
        let rows = json_rows(text, &ReadOptions::default());
        match expected {
            Some(n) => assert_eq!(rows.unwrap().len(), n, "{text}"),
            None => assert!(rows.is_err(), "{text}"),
        }
    }
}

#[test]
fn tsv_rows_read_like_csv() {
    let opts = ReadOptions::default().for_tsv();
    let rows = csv_rows("a\tb\n1\t2\n3\t4\n", opts, b'\t');
    assert_eq!(rows.len(), 2);
    assert_eq!(int_at(&rows[1], "b"), Some(4));
}

#[test]
fn parse_int_reads_like_std() {
    for text in ["0", "-0", "+7", "-42", "9223372036854775807", "-9223372036854775808"] {
        assert_eq!(parse_int(text), text.parse::<i64>().ok(), "{text}");
    }
    for text in ["", "+", "-", " 1", "1 ", "1.5", "9223372036854775808", "-9223372036854775809", "0x10", "٣"] {
        assert_eq!(parse_int(text), None, "{text}");
        assert!(text.parse::<i64>().is_err(), "{text}");
    }
    assert_eq!(parse_int("-9223372036854775808"), Some(i64::MIN));
}

#[test]
fn cell_value_types_cells() {
    assert!(matches!(cell_value("12", Some(12.0f64.to_bits())), Value::Int(12)));
    let bits = 1.5f64.to_bits();
    assert!(matches!(cell_value("1.5", Some(bits)), Value::Float(b) if b == bits));
    // A float that is not finite stays text.
    let inf = f64::INFINITY.to_bits();
    assert!(matches!(cell_value("inf", Some(inf)), Value::String(s) if s == "inf"));
    assert!(matches!(cell_value("abc", None), Value::String(s) if s == "abc"));
}

#[test]
fn record_object_pairs_names_and_cells() {
    let names: Vec<String> = vec!["a".into(), "b".into(), "a".into()];
    let cells: Vec<String> = vec!["1".into(), "x".into(), "3".into(), "9".into()];
    let floats = float_bits(&cells);
    let row = record_object(&names, &cells, &floats);
    match &row {
        Value::Object(ms) => {
            assert_eq!(ms.len(), 2);
            assert_eq!(ms[0].key, "a");
            assert!(matches!(ms[0].value, Value::Int(3)));
            assert_eq!(ms[1].key, "b");
            assert!(matches!(&ms[1].value, Value::String(s) if s == "x"));
        }
        _ => panic!("row is not an object"),
    }
}

#[test]
fn synthesized_names_grow_with_wider_records() {
    let mut opts = ReadOptions::default();
    opts.header = false;
    let rows = csv_rows("1\n2,3,4\n", opts, b',');
    assert_eq!(width(&rows[0]), 1);
    assert_eq!(int_at(&rows[1], "column2"), Some(4));
}

#[test]
fn named_columns_without_header() {
    let mut opts = ReadOptions::default();
    opts.header = false;
    opts.columns = vec!["p".into(), "q".into()];
    let rows = csv_rows("1,2\n", opts, b',');
    assert_eq!(int_at(&rows[0], "q"), Some(2));
    assert_eq!(width(&rows[0]), 2);
}

#[test]
fn blank_lines_are_white_space_only() {
    assert!(is_blank(""));
    assert!(is_blank(" \t\u{3000}\u{a0}"));
    assert!(!is_blank(" x "));
}

#[test]
fn jsonl_errors_name_the_line() {
    let opts = ReadOptions::default();
    let err = jsonl_rows("{\"x\":1}\n\n[1]\n", &opts).unwrap_err();
    assert!(matches!(err, Error::InternalError(m) if m == "jsonl row at t.jsonl:3 must be a JSON object"));
    let err = jsonl_rows("{", &opts).unwrap_err();
    assert!(matches!(err, Error::IoError(m) if m.starts_with("t.jsonl:")));
}

#[test]
fn json_document_errors_name_the_path() {
    let err = json_rows("42", &ReadOptions::default()).unwrap_err();
    assert!(matches!(err, Error::IoError(m) if m == "t.json: json source must be an array or an object"));
    let mut opts = ReadOptions::default();
    opts.skip = 1;
    let rows = json_rows("[{\"x\":1},{\"x\":2}]", &opts).unwrap();
    assert_eq!(rows.len(), 1);
    assert_eq!(int_at(&rows[0], "x"), Some(2));
}

fn obj(members: Vec<(&str, Value)>) -> Value {
    Value::Object(members.into_iter().map(|(k, v)| Field { key: k.to_string(), value: v }).collect())
}

#[test]
fn round_trip_json() {
    let rows = json_rows("[{\"x\":1},{\"x\":2}]", &ReadOptions::default()).unwrap();
    let text = serde_json::to_string(&rows.iter().map(to_json).collect::<Vec<_>>()).unwrap();
    let again = json_rows(&text, &ReadOptions::default()).unwrap();
    assert_eq!(rows.len(), again.len());
    assert_eq!(int_at(&rows[1], "x"), int_at(&again[1], "x"));
}

#[test]
fn round_trip_jsonl() {
    let rows = jsonl_rows("{\"x\":1}\n{\"x\":2}", &ReadOptions::default()).unwrap();
    let mut text = String::new();
    for row in &rows {
        require_object(row, "write_jsonl").unwrap();
        text.push_str(&serde_json::to_string(&to_json(row)).unwrap());
        text.push('\n');
    }
    let again = jsonl_rows(&text, &ReadOptions::default()).unwrap();
    assert_eq!(rows.len(), again.len());
    assert_eq!(int_at(&rows[0], "x"), int_at(&again[0], "x"));
}

#[test]
fn writer_columns_come_from_first_object_row() {
    let rows = vec![
        Value::Int(1),
        obj(vec![("a", Value::Int(1)), ("b", Value::Int(2))]),
        obj(vec![("c", Value::Int(3))]),
    ];
    assert_eq!(write_columns(&rows), vec!["a".to_string(), "b".to_string()]);
    assert!(write_columns(&vec![Value::Null]).is_empty());
}

#[test]
fn writer_cells_take_last_member_and_leave_gaps() {
    let cols: Vec<String> = vec!["a".into(), "b".into(), "z".into()];
    let row = obj(vec![("a", Value::Int(1)), ("b", Value::Int(2)), ("a", Value::Int(3))]);
    assert_eq!(record_cells(&cols, &row).unwrap(), vec![Some(2), Some(1), None]);
    let err = record_cells(&cols, &Value::Int(5)).unwrap_err();
    assert!(matches!(err, Error::InternalError(m) if m == "write_csv() requires object rows"));
    let err = require_object(&Value::Null, "write_jsonl").unwrap_err();
    assert!(matches!(err, Error::InternalError(m) if m == "write_jsonl() requires object rows"));
}

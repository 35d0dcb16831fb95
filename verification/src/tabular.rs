//! Tabular file contents to rows: the bytes of a CSV/TSV, JSONL or JSON
//! file are parsed (with the `csv` and `serde_json` crates) and handed to
//! the reader states of [`crate::rows`], which decide what each row is.
use csv::{ReaderBuilder, WriterBuilder};
use serde_json::Value as JsonDoc;
use vstd::prelude::*;
use vstd::utf8::{decode_utf8, valid_utf8};

use crate::error::Error;
use crate::read::FileFormat;
use crate::read_options::{texts, ReadOptions, WriteOptions};
use crate::rows::{
    is_white_space, joined, last_index, names_after, not_object_text, object_rows_text,
    record_cells, row_is, write_columns, CsvRows, JsonRows, JsonlRows,
};
use crate::same::{copy_values, value_same};
use crate::value::{Field, Value};

verus! {

#[verifier::external_type_specification]
#[verifier::external_body]
pub struct ExJsonValue(JsonDoc);

/// A decoded `serde_json::Value` as a [`Value`], variant for variant: a number as
/// an `i64` where it is one, else by its double's bits.
#[verifier::external_body]
fn json_value(v: JsonDoc) -> Value {
    match v {
        JsonDoc::Null => Value::Null,
        JsonDoc::Bool(b) => Value::Bool(b),
        JsonDoc::Number(n) => match n.as_i64() {
            Some(i) => Value::Int(i),
            None => Value::Float(n.as_f64().map_or(0x7ff8_0000_0000_0000, |x| x.to_bits())),
        },
        JsonDoc::String(s) => Value::String(s),
        JsonDoc::Array(xs) => Value::Array(xs.into_iter().map(json_value).collect()),
        JsonDoc::Object(m) => Value::Object(
            m.into_iter().map(|(key, v)| Field { key, value: json_value(v) }).collect(),
        ),
    }
}

/// What JSON text decodes to, or the decoder's error (its debug text).
pub uninterp spec fn json_parse(bytes: Seq<u8>) -> Result<Value, Seq<char>>;

/// `serde_json::from_slice` into a `JsonDoc`, as a [`Value`].
#[verifier::external_body]
fn json_decode(bytes: &[u8]) -> (r: Result<Value, String>)
    ensures
        match r {
            Ok(v) => json_parse(bytes@) == Ok::<Value, Seq<char>>(v),
            Err(e) => json_parse(bytes@) == Err::<Value, Seq<char>>(e@),
        },
{
    match serde_json::from_slice::<JsonDoc>(bytes) {
        Ok(v) => Ok(json_value(v)),
        Err(e) => Err(format!("{e:?}")),
    }
}

/// The header record the CSV reader (flexible, with this delimiter and
/// quote) finds at the start of file bytes, or the text of its error.
pub uninterp spec fn csv_header_parse(bytes: Seq<u8>, delimiter: u8, quote: u8) -> Result<
    Seq<Seq<char>>,
    Seq<char>,
>;

/// The data records the CSV reader (flexible, with this delimiter and
/// quote, after a header record when `header`) reads from file bytes, in
/// order, and the text of the error that stops it, if any.
pub uninterp spec fn csv_records_parse(bytes: Seq<u8>, header: bool, delimiter: u8, quote: u8) -> (
    Seq<Seq<Seq<char>>>,
    Option<Seq<char>>,
);

/// `csv::Reader::headers` on a flexible reader over the bytes.
#[verifier::external_body]
fn csv_header(bytes: &[u8], delimiter: u8, quote: u8) -> (r: Result<Vec<String>, String>)
    ensures
        match r {
            Ok(h) => csv_header_parse(bytes@, delimiter, quote) == Ok::<Seq<Seq<char>>, Seq<char>>(
                texts(h@),
            ),
            Err(e) => csv_header_parse(bytes@, delimiter, quote) == Err::<Seq<Seq<char>>, Seq<char>>(
                e@,
            ),
        },
{
    let mut rd = ReaderBuilder::new().delimiter(delimiter).quote(quote).flexible(true).from_reader(bytes);
    match rd.headers() {
        Ok(h) => Ok(h.iter().map(String::from).collect()),
        Err(e) => Err(e.to_string()),
    }
}

/// The records' texts.
pub open spec fn records_text(recs: Seq<Vec<String>>) -> Seq<Seq<Seq<char>>> {
    Seq::new(recs.len(), |i: int| texts(recs[i]@))
}

/// `csv::Reader::records` on a flexible reader over the bytes: the records
/// read, and the text of the error that stopped the reading, if any.
#[verifier::external_body]
fn csv_records(bytes: &[u8], header: bool, delimiter: u8, quote: u8) -> (r: (
    Vec<Vec<String>>,
    Option<String>,
))
    ensures
        (records_text(r.0@), match r.1 {
            Some(e) => Some(e@),
            None => None,
        }) == csv_records_parse(bytes@, header, delimiter, quote),
{
    let mut rd = ReaderBuilder::new().has_headers(header).delimiter(delimiter).quote(quote)
        .flexible(true).from_reader(bytes);
    let mut err = None;
    let recs = rd.records().map_while(|x| match x {
        Ok(rec) => Some(rec.iter().map(String::from).collect()),
        Err(e) => {
            err = Some(e.to_string());
            None
        },
    }).collect();
    (recs, err)
}

/// `rows` are `items` from the `skip`-th on, each a copy.
pub open spec fn rows_from(rows: Seq<Value>, items: Seq<Value>, skip: nat) -> bool {
    &&& rows.len() == if skip < items.len() {
        items.len() - skip
    } else {
        0
    }
    &&& forall|i: int| 0 <= i < rows.len() ==> value_same(#[trigger] rows[i], items[skip + i])
}

/// What reading a JSON document's bytes gives: the items of a top-level
/// array, or a top-level object as the one row, from the `skip`-th on; a
/// decoding failure, or a document of any other kind, is an I/O error
/// naming `path`.
pub open spec fn json_read_is(bytes: Seq<u8>, path: Seq<char>, skip: nat, r: Result<Vec<Value>, Error>) -> bool {
    match json_parse(bytes) {
        Err(e) => r matches Err(Error::IoError(m)) && m@ == path + ":"@ + e,
        Ok(Value::Array(items)) => r matches Ok(rows) && rows_from(rows@, items@, skip),
        Ok(Value::Object(ms)) => r matches Ok(rows) && rows_from(rows@, seq![Value::Object(ms)], skip),
        Ok(_) => r matches Err(Error::IoError(m)) && m@ == path
            + ": json source must be an array or an object"@,
    }
}

/// The rows of a JSON document's bytes: the items of a top-level array, or
/// a top-level object as the one row, from the `skip`-th on. A decoding
/// failure, or a document of any other kind, is an I/O error naming
/// `path`.
pub fn json_rows_from_bytes(bytes: &[u8], path: &str, skip: usize) -> (r: Result<Vec<Value>, Error>)
    ensures
        json_read_is(bytes@, path@, skip as nat, r),
{
    let decoded = json_decode(bytes);
    let mut doc = match JsonRows::from_document(path, decoded, skip) {
        Ok(d) => d,
        Err(e) => {
            return Err(e);
        },
    };
    let ghost items = doc.rows@;
    let mut rows: Vec<Value> = Vec::new();
    while doc.pos < doc.rows.len()
        invariant
            doc.rows@ == items,
            skip <= doc.pos <= items.len() || (doc.pos == skip && skip > items.len()),
            rows@.len() == doc.pos - skip,
            forall|i: int| 0 <= i < rows@.len() ==> value_same(#[trigger] rows@[i], items[skip + i]),
        decreases items.len() - doc.pos,
    {
        let ghost p = doc.pos;
        match doc.next_row() {
            Some(v) => {
                rows.push(v);
            },
            None => {},
        }
    }
    Ok(rows)
}

} // verus!

verus! {

/// `rows` are the rows a CSV reader with the column names `names` (made up
/// when `synth`), `seen` records taken and `skip` leading data records to
/// drop, gives for the records `recs`, each cell read as a float as `fl`
/// says.
pub open spec fn csv_rows_from(
    rows: Seq<Value>,
    names: Seq<Seq<char>>,
    synth: bool,
    seen: nat,
    skip: nat,
    recs: Seq<Vec<String>>,
    fl: Seq<Seq<Option<u64>>>,
) -> bool
    decreases recs.len(),
{
    if recs.len() == 0 {
        rows.len() == 0
    } else if seen < skip {
        csv_rows_from(rows, names, synth, seen + 1, skip, recs.drop_first(), fl.drop_first())
    } else {
        let n2 = names_after(names, synth, recs[0]@.len());
        &&& rows.len() >= 1
        &&& row_is(rows[0], n2, recs[0]@, fl[0])
        &&& csv_rows_from(
            rows.drop_first(),
            n2,
            synth,
            seen + 1,
            skip,
            recs.drop_first(),
            fl.drop_first(),
        )
    }
}

/// Each `fl[i][j]` is what `float_bits` gave for cell `j` of record `i`.
pub open spec fn floats_of<F: Fn(&String) -> Option<u64>>(
    float_bits: F,
    recs: Seq<Vec<String>>,
    fl: Seq<Seq<Option<u64>>>,
) -> bool {
    &&& fl.len() == recs.len()
    &&& forall|i: int|
        0 <= i < recs.len() ==> (#[trigger] fl[i]).len() == recs[i]@.len() && forall|j: int|
            0 <= j < recs[i]@.len() ==> float_bits.ensures((&recs[i]@[j],), fl[i][j])
}

/// The column names a CSV reader starts with: the header record's, or
/// else the given columns.
pub open spec fn csv_names(opts: ReadOptions, header: Seq<Seq<char>>) -> Seq<Seq<char>> {
    if opts.header {
        header
    } else {
        texts(opts.columns@)
    }
}

/// What reading a CSV/TSV file's bytes with `opts` and `delimiter` gives: an I/O error
/// naming `path` with the CSV reader's error, when reading the header
/// record or a data record fails; else the rows of the records, with the
/// cells read as floats by `float_bits`.
pub open spec fn csv_read_is<F: Fn(&String) -> Option<u64>>(
    bytes: Seq<u8>,
    opts: ReadOptions,
    delimiter: char,
    path: Seq<char>,
    float_bits: F,
    r: Result<Vec<Value>, Error>,
) -> bool {
        ({
            let (d, q) = (delimiter as u8, opts.quote as u8);
            let (recs, err) = csv_records_parse(bytes, opts.header, d, q);
            match (opts.header, csv_header_parse(bytes, d, q)) {
                (true, Err(e)) => r matches Err(Error::IoError(m)) && m@ == path + ": "@ + e,
                (_, h) => {
                    let hv = match h {
                        Ok(x) => x,
                        Err(_) => Seq::empty(),
                    };
                    match err {
                    Some(e) => r matches Err(Error::IoError(m)) && m@ == path + ": "@ + e,
                    None => r matches Ok(rows) && exists|rs: Seq<Vec<String>>, fl: Seq<Seq<Option<u64>>>|
                        records_text(rs) == recs && #[trigger] floats_of(float_bits, rs, fl)
                            && csv_rows_from(
                            rows@,
                            csv_names(opts, hv),
                            csv_names(opts, hv).len() == 0,
                            0,
                            opts.skip as nat,
                            rs,
                            fl,
                        ),
                    }
                },
            }
        })
}

/// The rows of a CSV/TSV file's bytes, read with `delimiter` and `opts`
/// (its quote, a header record when `opts.header`, column names, and `skip`
/// leading data records dropped); `float_bits` reads a cell's text as a
/// float, by its bits. A failure of the CSV reader is an I/O error naming
/// `path`.
pub fn csv_rows_from_bytes<F: Fn(&String) -> Option<u64>>(
    bytes: &[u8],
    opts: &ReadOptions,
    delimiter: char,
    path: &str,
    float_bits: F,
) -> (r: Result<Vec<Value>, Error>)
    requires
        forall|s: &String| float_bits.requires((s,)),
    ensures
        csv_read_is(bytes@, *opts, delimiter, path@, float_bits, r),
{
    proof {
        reveal_strlit(": ");
    }
    let d = delimiter as u8;
    let q = opts.quote as u8;
    let header = if opts.header {
        match csv_header(bytes, d, q) {
            Ok(h) => h,
            Err(e) => {
                let head = joined(path, ": ");
                return Err(Error::IoError(joined(head.as_str(), e.as_str())));
            },
        }
    } else {
        Vec::new()
    };
    let ghost hv = texts(header@);
    let (recs, err) = csv_records(bytes, opts.header, d, q);
    if let Some(e) = err {
        let head = joined(path, ": ");
        return Err(Error::IoError(joined(head.as_str(), e.as_str())));
    }
    let mut state = CsvRows::open(opts, header);
    let ghost names0 = texts(state.names@);
    let ghost synth0 = state.synthesized;
    let ghost skip = opts.skip as nat;
    let ghost rs = recs@;
    let mut rows: Vec<Value> = Vec::new();
    let ghost mut fl: Seq<Seq<Option<u64>>> = Seq::empty();
    let mut i: usize = 0;
    assert forall|rest: Seq<Value>, rfl: Seq<Seq<Option<u64>>>|
        csv_rows_from(rest, texts(state.names@), synth0, 0, skip, rs.skip(0), rfl)
            implies #[trigger] csv_rows_from(rows@ + rest, names0, synth0, 0, skip, rs, fl + rfl) by {
        assert(rs.skip(0) =~= rs);
        assert(rows@ + rest =~= rest);
        assert(fl + rfl =~= rfl);
    }
    while i < recs.len()
        invariant
            i <= rs.len(),
            rs == recs@,
            fl.len() == i,
            forall|k: int| 0 <= k < i ==> (#[trigger] fl[k]).len() == rs[k]@.len() && forall|j: int|
                0 <= j < rs[k]@.len() ==> float_bits.ensures((&rs[k]@[j],), fl[k][j]),
            forall|s: &String| float_bits.requires((s,)),
            state.seen == i,
            state.skip == skip,
            state.synthesized == synth0,
            forall|rest: Seq<Value>, rfl: Seq<Seq<Option<u64>>>|
                csv_rows_from(rest, texts(state.names@), synth0, i as nat, skip, rs.skip(i as int), rfl)
                    ==> #[trigger] csv_rows_from(rows@ + rest, names0, synth0, 0, skip, rs, fl + rfl),
        decreases rs.len() - i,
    {
        let ghost names_i = texts(state.names@);
        let ghost rows_i = rows@;
        let ghost fl_i = fl;
        let rec = &recs[i];
        let mut fb: Vec<Option<u64>> = Vec::new();
        let mut j: usize = 0;
        while j < rec.len()
            invariant
                j <= rec@.len(),
                fb@.len() == j,
                forall|s: &String| float_bits.requires((s,)),
                forall|t: int| 0 <= t < j ==> float_bits.ensures((&rec@[t],), #[trigger] fb@[t]),
            decreases rec.len() - j,
        {
            let x = float_bits(&rec[j]);
            fb.push(x);
            j = j + 1;
        }
        let ghost fbv = fb@;
        let got = state.next_record(rec, &fb);
        match got {
            Some(row) => {
                rows.push(row);
            },
            None => {},
        }
        proof {
            fl = fl.push(fbv);
            assert forall|rest: Seq<Value>, rfl: Seq<Seq<Option<u64>>>|
                csv_rows_from(
                    rest,
                    texts(state.names@),
                    synth0,
                    (i + 1) as nat,
                    skip,
                    rs.skip(i + 1),
                    rfl,
                ) implies #[trigger] csv_rows_from(rows@ + rest, names0, synth0, 0, skip, rs, fl + rfl) by {
                let rfl2 = seq![fbv] + rfl;
                let rest2 = if (i as nat) < skip {
                    rest
                } else {
                    seq![rows@.last()] + rest
                };
                assert(rs.skip(i as int).drop_first() =~= rs.skip(i + 1));
                assert(rs.skip(i as int)[0] == rs[i as int]);
                assert(rfl2.drop_first() =~= rfl);
                assert(rfl2[0] == fbv);
                if (i as nat) >= skip {
                    assert(rest2.drop_first() =~= rest);
                    assert(rows_i + rest2 =~= rows@ + rest);
                } else {
                    assert(rows_i + rest2 =~= rows@ + rest);
                }
                assert(fl_i + rfl2 =~= fl + rfl);
                assert(csv_rows_from(rest2, names_i, synth0, i as nat, skip, rs.skip(i as int), rfl2));
            }
            assert forall|k: int| 0 <= k < i + 1 implies (#[trigger] fl[k]).len() == rs[k]@.len()
                && forall|j: int| 0 <= j < rs[k]@.len() ==> float_bits.ensures((&rs[k]@[j],), fl[k][j]) by {
                if k < i {
                    assert(fl[k] == fl_i[k]);
                }
            }
        }
        i = i + 1;
    }
    proof {
        assert(rs.skip(i as int) =~= Seq::<Vec<String>>::empty());
        assert(csv_rows_from(Seq::empty(), texts(state.names@), synth0, i as nat, skip, rs.skip(i as int), Seq::empty()));
        assert(rows@ + Seq::<Value>::empty() =~= rows@);
        assert(fl + Seq::<Seq<Option<u64>>>::empty() =~= fl);
        assert(floats_of(float_bits, rs, fl));
        assert(records_text(rs) == csv_records_parse(bytes@, opts.header, d, q).0);
    }
    Ok(rows)
}

} // verus!

verus! {

/// The place of the first line feed at or after `i` in `b`, or its end.
pub open spec fn line_end(b: Seq<u8>, i: int) -> int
    decreases b.len() - i,
{
    if i >= b.len() {
        b.len() as int
    } else if b[i] == 0x0Au8 {
        i
    } else {
        line_end(b, i + 1)
    }
}

/// The line starting at `i`: up to its line feed, and without a carriage
/// return just before one.
pub open spec fn line_at(b: Seq<u8>, i: int) -> Seq<u8> {
    let e = line_end(b, i);
    let raw = b.subrange(i, e);
    if e < b.len() && raw.len() > 0 && raw.last() == 0x0Du8 {
        raw.drop_last()
    } else {
        raw
    }
}

/// The line end is at or after the start.
proof fn lemma_line_end(b: Seq<u8>, i: int)
    requires
        0 <= i,
    ensures
        i <= line_end(b, i) <= b.len() || (i > b.len() && line_end(b, i) == b.len()),
        line_end(b, i) < b.len() ==> b[line_end(b, i)] == 0x0Au8,
        forall|k: int| i <= k < line_end(b, i) ==> b[k] != 0x0Au8,
    decreases b.len() - i,
{
    if i < b.len() && b[i] != 0x0Au8 {
        lemma_line_end(b, i + 1);
    }
}

/// The message of a line that is not UTF-8, as the line reader gives it.
pub open spec fn not_utf8_text(path: Seq<char>) -> Seq<char> {
    path + ": stream did not contain valid UTF-8"@
}

/// What reading a JSONL file's bytes gives from byte `i`, the `n`-th line
/// (0-based), on: the rows, or the first failure, an I/O error (`true`) or
/// an internal one (`false`) with its message. The first `skip` lines are
/// dropped unread; a line that is not UTF-8 or does not decode is an I/O
/// error, a blank one is passed over, and a value that is not an object is
/// an internal error.
pub open spec fn jsonl_result(b: Seq<u8>, i: int, n: nat, skip: nat, path: Seq<char>) -> Result<
    Seq<Value>,
    (bool, Seq<char>),
>
    decreases b.len() - i,
{
    if i >= b.len() || i < 0 || line_end(b, i) < i {
        Ok(Seq::empty())
    } else {
        let line = line_at(b, i);
        let next = if line_end(b, i) < b.len() {
            line_end(b, i) + 1
        } else {
            b.len() as int
        };
        let rest = jsonl_result(b, next, n + 1, skip, path);
        if n < skip {
            rest
        } else if !valid_utf8(line) {
            Err((true, not_utf8_text(path)))
        } else if forall|k: int|
            0 <= k < decode_utf8(line).len() ==> is_white_space(#[trigger] decode_utf8(line)[k]) {
            rest
        } else {
            match json_parse(line) {
                Err(e) => Err((true, path + ":"@ + e)),
                Ok(v) => if v is Object {
                    match rest {
                        Ok(rs) => Ok(seq![v] + rs),
                        Err(x) => Err(x),
                    }
                } else {
                    Err((false, not_object_text(path, n)))
                },
            }
        }
    }
}

/// `rows` put in front of a result's rows.
pub open spec fn after_rows(
    rows: Seq<Value>,
    r: Result<Seq<Value>, (bool, Seq<char>)>,
) -> Result<Seq<Value>, (bool, Seq<char>)> {
    match r {
        Ok(rs) => Ok(rows + rs),
        Err(x) => Err(x),
    }
}

/// An error as a result of [`jsonl_result`].
pub open spec fn failure_is(e: Error, x: (bool, Seq<char>)) -> bool {
    if x.0 {
        e matches Error::IoError(m) && m@ == x.1
    } else {
        e matches Error::InternalError(m) && m@ == x.1
    }
}

/// What reading a JSONL file's bytes gives, as [`jsonl_result`] says.
pub open spec fn jsonl_read_is(bytes: Seq<u8>, path: Seq<char>, skip: nat, r: Result<Vec<Value>, Error>) -> bool {
    match jsonl_result(bytes, 0, 0, skip, path) {
        Ok(rows) => r matches Ok(v) && v@ == rows,
        Err(x) => r matches Err(e) && failure_is(e, x),
    }
}

/// The rows of a JSONL file's bytes, one per line: the first `skip` lines
/// are dropped unread, blank lines are passed over, and every other line
/// must decode to a JSON object. A line that is not UTF-8 or does not
/// decode is an I/O error naming `path`; a value that is not an object an
/// internal error naming `path` and the line's number.
pub fn jsonl_rows_from_bytes(bytes: &[u8], path: &str, skip: usize) -> (r: Result<Vec<Value>, Error>)
    ensures
        jsonl_read_is(bytes@, path@, skip as nat, r),
{
    proof {
        reveal_strlit(": stream did not contain valid UTF-8");
    }
    let ghost b = bytes@;
    let ghost pv = path@;
    let ghost total = jsonl_result(b, 0, 0, skip as nat, pv);
    let opts_skip = skip;
    let mut state = JsonlRows { path: path.to_owned(), line_no: 0, skip: opts_skip };
    let mut rows: Vec<Value> = Vec::new();
    let mut i: usize = 0;
    while i < bytes.len()
        invariant
            b == bytes@,
            pv == path@,
            total == jsonl_result(b, 0, 0, skip as nat, pv),
            i <= bytes@.len(),
            state.line_no <= i,
            state.path@ == pv,
            state.skip == skip,
            total == after_rows(rows@, jsonl_result(b, i as int, state.line_no as nat, skip as nat, pv)),
        decreases bytes@.len() - i,
    {
        proof {
            lemma_line_end(b, i as int);
        }
        let mut e = i;
        while e < bytes.len() && bytes[e] != 0x0A
            invariant
                i <= e <= bytes@.len(),
                b == bytes@,
                line_end(b, i as int) == line_end(b, e as int),
            decreases bytes@.len() - e,
        {
            e = e + 1;
        }
        let ghost n = state.line_no as nat;
        let ghost rest = jsonl_result(
            b,
            if e < bytes.len() {
                e + 1
            } else {
                e as int
            },
            n + 1,
            skip as nat,
            pv,
        );
        let ghost here = jsonl_result(b, i as int, n, skip as nat, pv);
        assert(e as int == line_end(b, i as int));
        let mut stop = e;
        if e < bytes.len() && e > i && bytes[e - 1] == 0x0D {
            stop = e - 1;
        }
        let line = vstd::slice::slice_to_vec(vstd::slice::slice_subrange(bytes, i, stop));
        assert(line@ == line_at(b, i as int));
        let next = if e < bytes.len() {
            e + 1
        } else {
            e
        };
        assert(jsonl_result(b, next as int, n + 1, skip as nat, pv) == rest);
        let keep = state.begin_line();
        if !keep {
            assert(here == rest);
        }
        if keep {
            let copy = vstd::slice::slice_to_vec(line.as_slice());
            let text = match crate::keys::string_from_utf8(copy) {
                Ok(s) => s,
                Err(_) => {
                    let msg = joined(path, ": stream did not contain valid UTF-8");
                    return Err(Error::IoError(msg));
                },
            };
            proof {
                vstd::utf8::encode_utf8_decode_utf8(text@);
                assert(decode_utf8(line@) == text@);
            }
            let blank = crate::rows::is_blank(text.as_str());
            if blank {
                assert(here == rest);
            }
            if !blank {
                let decoded = json_decode(line.as_slice());
                match state.row_from_line(decoded) {
                    Ok(v) => {
                        let ghost before = rows@;
                        rows.push(v);
                        proof {
                            assert(here == match rest {
                                Ok(rs) => Ok::<Seq<Value>, (bool, Seq<char>)>(seq![v] + rs),
                                Err(x) => Err(x),
                            });
                            assert(rows@.drop_last() =~= before);
                            assert(after_rows(rows@, rest) == after_rows(
                                rows@.drop_last(),
                                jsonl_result(b, i as int, n, skip as nat, pv),
                            )) by {
                                match rest {
                                    Ok(rs) => {
                                        assert(rows@ + rs =~= rows@.drop_last() + (seq![v] + rs));
                                    },
                                    Err(_) => {},
                                }
                            }
                        }
                    },
                    Err(err) => {
                        return Err(err);
                    },
                }
            }
        }
        assert(total == after_rows(rows@, rest));
        i = next;
    }
    proof {
        assert(rows@ + Seq::<Value>::empty() =~= rows@);
    }
    Ok(rows)
}

} // verus!

verus! {

/// The rows of a tabular file's bytes in `format`, read with `opts` (a TSV
/// file as CSV with a tab delimiter); `float_bits` reads a CSV cell's text
/// as a float, by its bits. Failures name `path`.
pub fn rows_from_bytes<F: Fn(&String) -> Option<u64>>(
    bytes: &[u8],
    format: FileFormat,
    opts: &ReadOptions,
    path: &str,
    float_bits: F,
) -> (r: Result<Vec<Value>, Error>)
    requires
        forall|s: &String| float_bits.requires((s,)),
    ensures
        match format {
            FileFormat::Csv => csv_read_is(bytes@, *opts, opts.delimiter, path@, float_bits, r),
            FileFormat::Tsv => csv_read_is(bytes@, *opts, '\t', path@, float_bits, r),
            FileFormat::Jsonl => jsonl_read_is(bytes@, path@, opts.skip as nat, r),
            FileFormat::Json => json_read_is(bytes@, path@, opts.skip as nat, r),
        },
{
    match format {
        FileFormat::Csv => csv_rows_from_bytes(bytes, opts, opts.delimiter, path, float_bits),
        FileFormat::Tsv => csv_rows_from_bytes(bytes, opts, '\t', path, float_bits),
        FileFormat::Jsonl => jsonl_rows_from_bytes(bytes, path, opts.skip),
        FileFormat::Json => json_rows_from_bytes(bytes, path, opts.skip),
    }
}


/// The bytes the CSV writer (with this delimiter and quote) writes for the
/// records, in order, or the text of its error.
pub uninterp spec fn csv_write_text(records: Seq<Seq<Seq<char>>>, delimiter: u8, quote: u8) -> Result<
    Seq<u8>,
    Seq<char>,
>;

/// `csv::Writer::write_record` for each record, in order, into a buffer with
/// this delimiter and quote; then the buffer (or the writer's error text).
#[verifier::external_body]
fn csv_write(records: &Vec<Vec<String>>, delimiter: u8, quote: u8) -> (r: Result<Vec<u8>, String>)
    ensures
        match r {
            Ok(b) => csv_write_text(records_text(records@), delimiter, quote) == Ok::<Seq<u8>, Seq<char>>(b@),
            Err(e) => csv_write_text(records_text(records@), delimiter, quote) == Err::<Seq<u8>, Seq<char>>(e@),
        },
{
    let mut w = WriterBuilder::new().delimiter(delimiter).quote(quote).from_writer(Vec::new());
    for rec in records {
        if let Err(e) = w.write_record(rec) {
            return Err(e.to_string());
        }
    }
    w.into_inner().map_err(|e| e.to_string())
}

/// The member of an object that fills the column `name`: the last one of
/// that name.
pub open spec fn column_value(ms: Seq<Field>, name: Seq<char>) -> Option<Value> {
    match last_index(ms, name) {
        Some(j) => Some(ms[j].value),
        None => None,
    }
}

/// `t` is a CSV cell's text for the member `v`: empty for none or null, a
/// string's own text, else the text that `show` gives the value.
pub open spec fn cell_is<S: Fn(&Value) -> String>(v: Option<Value>, show: S, t: Seq<char>) -> bool {
    match v {
        None => t == Seq::<char>::empty(),
        Some(Value::Null) => t == Seq::<char>::empty(),
        Some(Value::String(s)) => t == s@,
        Some(x) => exists|u: String| #[trigger] show.ensures((&x,), u) && u@ == t,
    }
}

/// The column names of object rows: the member names of the first row.
pub open spec fn first_row_names(rows: Seq<Value>) -> Seq<Seq<char>> {
    if rows.len() > 0 && rows[0] is Object {
        match rows[0] {
            Value::Object(ms) => Seq::new(ms@.len(), |k: int| ms@[k].key@),
            _ => Seq::empty(),
        }
    } else {
        Seq::empty()
    }
}

/// `recs` are the CSV records written for object rows: the header of column
/// names (when wanted and there are columns), then one record per row with
/// a cell per column.
pub open spec fn csv_records_are<S: Fn(&Value) -> String>(
    rows: Seq<Value>,
    header: bool,
    show: S,
    recs: Seq<Seq<Seq<char>>>,
) -> bool {
    let cols = first_row_names(rows);
    let h: int = if header && cols.len() > 0 { 1 } else { 0 };
    &&& recs.len() == h + rows.len()
    &&& h == 1 ==> recs[0] == cols
    &&& forall|i: int| #![trigger recs[h + i]] 0 <= i < rows.len() ==> {
        &&& recs[h + i].len() == cols.len()
        &&& rows[i] matches Value::Object(ms) && forall|k: int|
            0 <= k < cols.len() ==> cell_is(column_value(ms@, cols[k]), show, #[trigger] recs[h + i][k])
    }
}

/// What writing rows as CSV gives: the error for a row that is not an
/// object; else the writer's bytes for the records, or its error as an I/O
/// error naming `path`.
pub open spec fn csv_write_is<S: Fn(&Value) -> String>(
    rows: Seq<Value>,
    opts: WriteOptions,
    delimiter: char,
    path: Seq<char>,
    show: S,
    r: Result<Vec<u8>, Error>,
) -> bool {
    if exists|i: int| 0 <= i < rows.len() && !(#[trigger] rows[i] is Object) {
        r matches Err(Error::InternalError(m)) && m@ == object_rows_text("write_csv"@)
    } else {
        exists|recs: Seq<Seq<Seq<char>>>| #[trigger] csv_records_are(rows, opts.header, show, recs) && match csv_write_text(
            recs,
            delimiter as u8,
            opts.quote as u8,
        ) {
            Ok(b) => r matches Ok(out) && out@ == b,
            Err(e) => r matches Err(Error::IoError(m)) && m@ == path + ": "@ + e,
        }
    }
}

proof fn lemma_last_index_in(ms: Seq<Field>, k: Seq<char>)
    ensures
        last_index(ms, k) matches Some(j) ==> 0 <= j < ms.len(),
    decreases ms.len(),
{
    if ms.len() > 0 && ms.last().key@ != k {
        lemma_last_index_in(ms.drop_last(), k);
    }
}

/// Rows as CSV bytes with the given delimiter (the file's delimiter, or a
/// tab for TSV): a header of the first row's member names when wanted, then
/// a record per row whose cells follow those names; `show` gives the text of
/// a cell's value that is neither null nor a string.
pub fn csv_bytes<S: Fn(&Value) -> String>(
    rows: &Vec<Value>,
    opts: &WriteOptions,
    delimiter: char,
    path: &str,
    show: S,
) -> (r: Result<Vec<u8>, Error>)
    requires
        forall|x: &Value| show.requires((x,)),
    ensures
        csv_write_is(rows@, *opts, delimiter, path@, show, r),
{
    let mut i: usize = 0;
    while i < rows.len()
        invariant
            i <= rows@.len(),
            forall|j: int| 0 <= j < i ==> (#[trigger] rows@[j]) is Object,
        decreases rows.len() - i,
    {
        if !matches!(rows[i], Value::Object(_)) {
            assert(!(rows@[i as int] is Object));
            return Err(Error::InternalError(joined("write_csv", "() requires object rows")));
        }
        i = i + 1;
    }
    let columns = write_columns(rows.as_slice());
    let ghost cols = first_row_names(rows@);
    proof {
        if rows@.len() > 0 {
            assert(rows@[0] is Object);
            let c = choose|c: int|
                0 <= c < rows@.len() && rows@[c] is Object && forall|j: int|
                    0 <= j < c ==> !(rows@[j] is Object);
            if c > 0 {
                assert(!(rows@[0] is Object));
            }
        }
        assert(texts(columns@) =~= cols);
    }
    let mut records: Vec<Vec<String>> = Vec::new();
    let with_header = opts.header && columns.len() > 0;
    if with_header {
        records.push(columns.clone());
    }
    let ghost h: int = if with_header { 1 } else { 0 };
    let mut i: usize = 0;
    while i < rows.len()
        invariant
            i <= rows@.len(),
            forall|j: int| 0 <= j < rows@.len() ==> (#[trigger] rows@[j]) is Object,
            texts(columns@) == cols,
            cols == first_row_names(rows@),
            h == (if opts.header && cols.len() > 0 { 1int } else { 0int }),
            records@.len() == h + i,
            h == 1 ==> texts(records@[0]@) == cols,
            forall|x: &Value| show.requires((x,)),
            forall|j: int| #![trigger records@[h + j]] 0 <= j < i ==> {
                &&& records@[h + j]@.len() == cols.len()
                &&& rows@[j] matches Value::Object(ms) && forall|k: int|
                    0 <= k < cols.len() ==> cell_is(column_value(ms@, cols[k]), show, #[trigger] records@[h + j]@[k]@)
            },
        decreases rows.len() - i,
    {
        let cells = record_cells(&columns, &rows[i]);
        if let (Ok(cells), Value::Object(ms)) = (cells, &rows[i]) {
            let mut rec: Vec<String> = Vec::new();
            let mut k: usize = 0;
            let mlen = ms.len();
            while k < cells.len()
                invariant
                    mlen == ms@.len(),
                    k <= cells@.len(),
                    cells@.len() == columns@.len(),
                    texts(columns@) == cols,
                    rec@.len() == k,
                    forall|x: &Value| show.requires((x,)),
                    forall|t: int| 0 <= t < cells@.len() ==> (#[trigger] cells@[t]) == match last_index(ms@, columns@[t]@) {
                        Some(j) => Some(j as usize),
                        None => None::<usize>,
                    },
                    forall|t: int| 0 <= t < k ==> cell_is(column_value(ms@, cols[t]), show, #[trigger] rec@[t]@),
                decreases cells.len() - k,
            {
                proof {
                    assert(cols[k as int] == columns@[k as int]@);
                    lemma_last_index_in(ms@, columns@[k as int]@);
                }
                let text = match cells[k] {
                    Some(j) => match &ms[j].value {
                        Value::Null => String::new(),
                        Value::String(s) => s.clone(),
                        v => {
                            let u = show(v);
                            proof {
                                assert(show.ensures((v,), u));
                                assert(column_value(ms@, cols[k as int]) == Some(*v));
                            }
                            u
                        },
                    },
                    None => String::new(),
                };
                assert(cell_is(column_value(ms@, cols[k as int]), show, text@));
                let ghost before = rec@;
                rec.push(text);
                assert(rec@[k as int] == text);
                k = k + 1;
            }
            records.push(rec);
        }
        i = i + 1;
    }
    proof {
        assert(csv_records_are(rows@, opts.header, show, records_text(records@)));
    }
    match csv_write(&records, delimiter as u8, opts.quote as u8) {
        Ok(b) => Ok(b),
        Err(e) => Err(Error::IoError(joined(&joined(path, ": "), &e))),
    }
}


/// The lines `ts`, each ended by a newline.
pub open spec fn lines_text(ts: Seq<String>) -> Seq<char>
    decreases ts.len(),
{
    if ts.len() == 0 {
        Seq::empty()
    } else {
        lines_text(ts.drop_last()) + ts.last()@ + "\n"@
    }
}

/// The first `n` rows are objects that `row_json` rendered as the texts `ts`.
pub open spec fn rendered<J: Fn(&Value) -> Result<String, String>>(
    rows: Seq<Value>,
    row_json: J,
    ts: Seq<String>,
    n: int,
) -> bool {
    &&& 0 <= n <= rows.len()
    &&& ts.len() == n
    &&& forall|i: int| 0 <= i < n ==> (#[trigger] rows[i]) is Object && row_json.ensures(
        (&rows[i],),
        Ok::<String, String>(ts[i]),
    )
}

/// What writing rows as JSON lines gives: a line of JSON text per row, each
/// an object; or the error at the first row that is not an object, or whose
/// rendering failed (as an I/O error naming `path`).
pub open spec fn jsonl_write_is<J: Fn(&Value) -> Result<String, String>>(
    rows: Seq<Value>,
    path: Seq<char>,
    row_json: J,
    r: Result<String, Error>,
) -> bool {
    match r {
        Ok(t) => exists|ts: Seq<String>|
            #[trigger] rendered(rows, row_json, ts, rows.len() as int) && t@ == lines_text(ts),
        Err(e) => exists|ts: Seq<String>, i: int|
            #[trigger] rendered(rows, row_json, ts, i) && i < rows.len() && if rows[i] is Object {
                exists|x: String|
                    #[trigger] row_json.ensures((&rows[i],), Err::<String, String>(x)) && io_error_is(e, path, x@)
            } else {
                e matches Error::InternalError(m) && m@ == object_rows_text("write_jsonl"@)
            },
    }
}

/// Rows as JSON lines: each row must be an object, and `row_json` gives its
/// JSON text (or the serializer's error text).
pub fn jsonl_text<J: Fn(&Value) -> Result<String, String>>(
    rows: &Vec<Value>,
    path: &str,
    row_json: J,
) -> (r: Result<String, Error>)
    requires
        forall|x: &Value| row_json.requires((x,)),
    ensures
        jsonl_write_is(rows@, path@, row_json, r),
{
    let mut out = String::new();
    let ghost mut ts: Seq<String> = Seq::empty();
    let mut i: usize = 0;
    while i < rows.len()
        invariant
            i <= rows@.len(),
            rendered(rows@, row_json, ts, i as int),
            out@ == lines_text(ts),
            forall|x: &Value| row_json.requires((x,)),
        decreases rows.len() - i,
    {
        if !matches!(rows[i], Value::Object(_)) {
            let e = Error::InternalError(joined("write_jsonl", "() requires object rows"));
            assert(rendered(rows@, row_json, ts, i as int));
            return Err(e);
        }
        match row_json(&rows[i]) {
            Ok(line) => {
                proof {
                    let nts = ts.push(line);
                    assert(nts.drop_last() =~= ts);
                    assert forall|j: int| 0 <= j < i + 1 implies (#[trigger] rows@[j]) is Object
                        && row_json.ensures((&rows@[j],), Ok::<String, String>(nts[j])) by {
                        if j < i {
                            assert(nts[j] == ts[j]);
                        }
                    }
                    ts = nts;
                }
                out.append(line.as_str());
                out.append("\n");
            },
            Err(x) => {
                assert(row_json.ensures((&rows@[i as int],), Err::<String, String>(x)));
                assert(rendered(rows@, row_json, ts, i as int));
                return Err(Error::IoError(joined(&joined(path, ": "), &x)));
            },
        }
        i = i + 1;
    }
    assert(rendered(rows@, row_json, ts, rows@.len() as int));
    Ok(out)
}

/// What writing rows as one JSON array gives: the JSON text that `row_json`
/// gives an array of the rows, and a newline; or its error text as an I/O
/// error naming `path`.
pub open spec fn json_write_is<J: Fn(&Value) -> Result<String, String>>(
    rows: Seq<Value>,
    path: Seq<char>,
    row_json: J,
    r: Result<String, Error>,
) -> bool {
    exists|a: Value, u: Result<String, String>|
        #[trigger] row_json.ensures((&a,), u) && array_of(a, rows) && json_result_is(u, path, r)
}

/// `e` is an I/O error naming `path` with the text `x`.
pub open spec fn io_error_is(e: Error, path: Seq<char>, x: Seq<char>) -> bool {
    e matches Error::IoError(m) && m@ == path + ": "@ + x
}

/// `a` is an array of the rows.
pub open spec fn array_of(a: Value, rows: Seq<Value>) -> bool {
    a matches Value::Array(items) && same_rows(items@, rows)
}

/// `r` is the JSON text `u` and a newline, or its error as an I/O error.
pub open spec fn json_result_is(u: Result<String, String>, path: Seq<char>, r: Result<String, Error>) -> bool {
    match u {
        Ok(t) => r matches Ok(out) && out@ == t@ + "\n"@,
        Err(x) => r matches Err(e) && io_error_is(e, path, x@),
    }
}

/// `a` and `b` hold the same values, position by position.
pub open spec fn same_rows(a: Seq<Value>, b: Seq<Value>) -> bool {
    a.len() == b.len() && forall|i: int| 0 <= i < a.len() ==> value_same(#[trigger] a[i], b[i])
}

/// Rows as a single JSON array: `row_json` gives the JSON text of an array
/// of the rows (or the serializer's error text), and a newline ends it.
pub fn json_text<J: Fn(&Value) -> Result<String, String>>(
    rows: &Vec<Value>,
    path: &str,
    row_json: J,
) -> (r: Result<String, Error>)
    requires
        forall|x: &Value| row_json.requires((x,)),
    ensures
        json_write_is(rows@, path@, row_json, r),
{
    let a = Value::Array(copy_values(rows));
    let u = row_json(&a);
    assert(row_json.ensures((&a,), u));
    match u {
        Ok(t) => {
            let mut out = t;
            out.append("\n");
            Ok(out)
        },
        Err(x) => Err(Error::IoError(joined(&joined(path, ": "), &x))),
    }
}

} // verus!

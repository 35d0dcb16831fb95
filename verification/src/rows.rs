//! Turning the records of tabular files into row values.
//!
//! Reading a file is the caller's part: it hands each CSV record, JSONL line
//! or decoded JSON document to the reader state kept here, which decides
//! what the row is — which records a `skip` drops, what the columns are
//! named, and how a cell's text becomes a value.
use vstd::prelude::*;

use crate::decimal::{dec_text, decimal};
use crate::error::Error;
use crate::same::{copy_value, value_same};
use crate::f64bits::is_finite;
use crate::lexer::chars_of;
use crate::read_options::{texts, ReadOptions};
use crate::value::{str_eq, Field, Value};

verus! {

/// An ASCII decimal digit.
pub open spec fn is_ascii_digit(c: char) -> bool {
    '0' <= c && c <= '9'
}

/// Every character is an ASCII digit.
pub open spec fn all_digits(s: Seq<char>) -> bool {
    forall|i: int| 0 <= i < s.len() ==> is_ascii_digit(#[trigger] s[i])
}

/// The number the digits `s` spell in base ten.
pub open spec fn digits_value(s: Seq<char>) -> int
    decreases s.len(),
{
    if s.len() == 0 {
        0
    } else {
        digits_value(s.drop_last()) * 10 + (s.last() as int - '0' as int)
    }
}

/// The integer `s` spells as the `i64` parser reads text: an optional `+`
/// or `-`, then one or more ASCII digits, and nothing else. `None` for any
/// other text; the range is not checked here.
pub open spec fn int_text(s: Seq<char>) -> Option<int> {
    if s.len() > 0 && (s[0] == '+' || s[0] == '-') {
        let body = s.drop_first();
        if body.len() > 0 && all_digits(body) {
            Some(
                if s[0] == '-' {
                    -digits_value(body)
                } else {
                    digits_value(body)
                },
            )
        } else {
            None
        }
    } else if s.len() > 0 && all_digits(s) {
        Some(digits_value(s))
    } else {
        None
    }
}

/// The `i64` a cell's text spells: `int_text` within the `i64` range.
pub open spec fn int_cell(s: Seq<char>) -> Option<i64> {
    match int_text(s) {
        Some(v) => if i64::MIN <= v <= i64::MAX {
            Some(v as i64)
        } else {
            None
        },
        None => None,
    }
}

/// Digits spell a nonnegative number, and no fewer of their leading digits
/// spell a larger one.
proof fn lemma_digits_prefix(s: Seq<char>, k: int)
    requires
        all_digits(s),
        0 <= k <= s.len(),
    ensures
        0 <= digits_value(s.take(k)) <= digits_value(s),
    decreases s.len(),
{
    if s.len() > 0 {
        let t = s.drop_last();
        assert(all_digits(t)) by {
            assert forall|i: int| 0 <= i < t.len() implies is_ascii_digit(#[trigger] t[i]) by {
                assert(t[i] == s[i]);
            }
        }
        assert(is_ascii_digit(s[s.len() - 1]));
        if k == s.len() {
            assert(s.take(k) =~= s);
            lemma_digits_prefix(t, t.len() as int);
            assert(t.take(t.len() as int) =~= t);
        } else {
            lemma_digits_prefix(t, k);
            assert(t.take(k) =~= s.take(k));
            lemma_digits_prefix(t, t.len() as int);
            assert(t.take(t.len() as int) =~= t);
        }
    } else {
        assert(s.take(k) =~= s);
    }
}

/// Reads a cell's text as an `i64` the way `str::parse::<i64>` does: an
/// optional sign, then ASCII digits only, within range.
pub fn parse_int(raw: &str) -> (r: Option<i64>)
    ensures
        r == int_cell(raw@),
{
    let cs = chars_of(raw);
    let n = cs.len();
    if n == 0 {
        return None;
    }
    let signed = cs[0] == '+' || cs[0] == '-';
    let neg = cs[0] == '-';
    let start: usize = if signed {
        1
    } else {
        0
    };
    if start == n {
        assert(cs@.drop_first().len() == 0);
        return None;
    }
    let ghost body = cs@.subrange(start as int, n as int);
    proof {
        if signed {
            assert(body =~= cs@.drop_first());
        } else {
            assert(body =~= cs@);
        }
    }
    // The largest magnitude the sign allows.
    let limit: u64 = if neg {
        0x8000_0000_0000_0000
    } else {
        0x7fff_ffff_ffff_ffff
    };
    assert(int_text(raw@) == (if all_digits(body) {
        Some(
            if neg {
                -digits_value(body)
            } else {
                digits_value(body)
            },
        )
    } else {
        None::<int>
    }));
    let mut acc: u64 = 0;
    let mut i: usize = start;
    while i < n
        invariant
            start <= i <= n,
            start < n,
            n == cs@.len(),
            cs@ == raw@,
            int_text(raw@) == (if all_digits(body) {
                Some(
                    if neg {
                        -digits_value(body)
                    } else {
                        digits_value(body)
                    },
                )
            } else {
                None::<int>
            }),
            body == cs@.subrange(start as int, n as int),
            acc as int == digits_value(body.take(i - start)),
            acc <= limit,
            limit == (if neg {
                0x8000_0000_0000_0000u64
            } else {
                0x7fff_ffff_ffff_ffffu64
            }),
            all_digits(body.take(i - start)),
        decreases n - i,
    {
        let c = cs[i];
        let ghost k: int = i - start;
        assert(body[k] == c);
        if !('0' <= c && c <= '9') {
            assert(!all_digits(body));
            return None;
        }
        let d: u64 = ((c as u32) - ('0' as u32)) as u64;
        assert(body.take(k + 1).drop_last() =~= body.take(k));
        assert(body.take(k + 1).last() == c);
        assert(all_digits(body.take(k + 1))) by {
            assert forall|j: int| 0 <= j < k + 1 implies is_ascii_digit(
                #[trigger] body.take(k + 1)[j],
            ) by {
                if j < k {
                    assert(body.take(k + 1)[j] == body.take(k)[j]);
                }
            }
        }
        if acc > limit / 10 || acc * 10 + d > limit {
            // Already too large; more digits only make it larger.
            proof {
                if all_digits(body) {
                    lemma_digits_prefix(body, k + 1);
                }
            }
            return None;
        }
        acc = acc * 10 + d;
        i = i + 1;
    }
    proof {
        assert(body.take(n - start) =~= body);
    }
    if neg {
        if acc == 0x8000_0000_0000_0000 {
            Some(i64::MIN)
        } else {
            Some(-(acc as i64))
        }
    } else {
        Some(acc as i64)
    }
}

/// What a cell's text reads as: an `i64` where it spells one, else the
/// float whose bit pattern `float_bits` holds where that is finite, else
/// the text itself.
pub open spec fn is_cell(v: Value, raw: Seq<char>, float_bits: Option<u64>) -> bool {
    match int_cell(raw) {
        Some(i) => v == Value::Int(i),
        None => match float_bits {
            Some(b) if is_finite(b) => v == Value::Float(b),
            _ => v matches Value::String(s) && s@ == raw,
        },
    }
}

/// Types a CSV cell: an integer where the text is one, else a finite float,
/// else the string. `float_bits` is the bit pattern of the text read as a
/// float, where it reads as one.
pub fn cell_value(raw: &str, float_bits: Option<u64>) -> (v: Value)
    ensures
        is_cell(v, raw@, float_bits),
{
    if let Some(i) = parse_int(raw) {
        return Value::Int(i);
    }
    if let Some(b) = float_bits {
        let e: u64 = (b / 0x10_0000_0000_0000) % 2048;
        if e != 2047 {
            return Value::Float(b);
        }
    }
    Value::String(raw.to_owned())
}

/// The first place in `l` whose name is `k`.
pub open spec fn key_pos(l: Seq<(Seq<char>, int)>, k: Seq<char>) -> Option<int>
    decreases l.len(),
{
    if l.len() == 0 {
        None
    } else if l[0].0 == k {
        Some(0)
    } else {
        match key_pos(l.drop_first(), k) {
            Some(j) => Some(j + 1),
            None => None,
        }
    }
}

/// `l` with name `k` drawn from column `i`: in place where `k` already has
/// a place, else at the end.
pub open spec fn layout_insert(l: Seq<(Seq<char>, int)>, k: Seq<char>, i: int) -> Seq<
    (Seq<char>, int),
> {
    match key_pos(l, k) {
        Some(j) => l.update(j, (k, i)),
        None => l.push((k, i)),
    }
}

/// Where the members of a row come from when its first `m` columns are
/// named `names`: each distinct name, in the order names first appear, with
/// the last column that carries it.
pub open spec fn layout(names: Seq<Seq<char>>, m: nat) -> Seq<(Seq<char>, int)>
    decreases m,
{
    if m == 0 {
        Seq::empty()
    } else {
        layout_insert(layout(names, (m - 1) as nat), names[m - 1], m - 1)
    }
}

/// `v` is the row of a CSV record whose cells are `record`, read under the
/// column names `names`: names and cells are paired up to the shorter of
/// the two, and a repeated name keeps its first place and takes the value
/// of its last column.
pub open spec fn row_is(
    v: Value,
    names: Seq<Seq<char>>,
    record: Seq<String>,
    float_bits: Seq<Option<u64>>,
) -> bool {
    let m = if names.len() < record.len() {
        names.len()
    } else {
        record.len()
    };
    let l = layout(names, m);
    &&& v matches Value::Object(ms)
    &&& ms@.len() == l.len()
    &&& forall|j: int|
        0 <= j < l.len() ==> (#[trigger] ms@[j]).key@ == l[j].0 && is_cell(
            ms@[j].value,
            record[l[j].1]@,
            float_bits[l[j].1],
        )
}

/// A name found at `j`, and nowhere before it, is at `key_pos` `j`.
proof fn lemma_key_pos_found(l: Seq<(Seq<char>, int)>, k: Seq<char>, j: int)
    requires
        0 <= j < l.len(),
        l[j].0 == k,
        forall|i: int| 0 <= i < j ==> (#[trigger] l[i]).0 != k,
    ensures
        key_pos(l, k) == Some(j),
    decreases l.len(),
{
    if j > 0 {
        assert(l[0].0 != k);
        assert forall|i: int| 0 <= i < j - 1 implies (#[trigger] l.drop_first()[i]).0 != k by {
            assert(l.drop_first()[i] == l[i + 1]);
        }
        lemma_key_pos_found(l.drop_first(), k, j - 1);
    }
}

/// A name found nowhere has no `key_pos`.
proof fn lemma_key_pos_absent(l: Seq<(Seq<char>, int)>, k: Seq<char>)
    requires
        forall|i: int| 0 <= i < l.len() ==> (#[trigger] l[i]).0 != k,
    ensures
        key_pos(l, k) is None,
    decreases l.len(),
{
    if l.len() > 0 {
        assert(l[0].0 != k);
        assert forall|i: int| 0 <= i < l.len() - 1 implies (#[trigger] l.drop_first()[i]).0
            != k by {
            assert(l.drop_first()[i] == l[i + 1]);
        }
        lemma_key_pos_absent(l.drop_first(), k);
    }
}

/// Builds the row of a CSV record (see `row_is`). `float_bits` holds, for
/// each cell, the bit pattern of its text read as a float, where it reads
/// as one.
pub fn record_object(names: &Vec<String>, record: &Vec<String>, float_bits: &Vec<Option<u64>>) -> (v:
    Value)
    requires
        float_bits@.len() == record@.len(),
    ensures
        row_is(v, texts(names@), record@, float_bits@),
{
    let m: usize = if names.len() < record.len() {
        names.len()
    } else {
        record.len()
    };
    let ghost ns = texts(names@);
    let mut ms: Vec<Field> = Vec::new();
    let mut i: usize = 0;
    while i < m
        invariant
            i <= m,
            m <= names@.len(),
            m <= record@.len(),
            float_bits@.len() == record@.len(),
            ns == texts(names@),
            ms@.len() == layout(ns, i as nat).len(),
            forall|j: int|
                0 <= j < ms@.len() ==> (#[trigger] ms@[j]).key@ == layout(ns, i as nat)[j].0
                    && is_cell(
                    ms@[j].value,
                    record@[layout(ns, i as nat)[j].1]@,
                    float_bits@[layout(ns, i as nat)[j].1],
                ),
        decreases m - i,
    {
        let ghost l = layout(ns, i as nat);
        let cell = cell_value(record[i].as_str(), float_bits[i]);
        let mut j: usize = 0;
        let mut found = false;
        while j < ms.len() && !found
            invariant
                i < m,
                m <= names@.len(),
                j <= ms@.len(),
                ms@.len() == l.len(),
                forall|t: int| 0 <= t < ms@.len() ==> (#[trigger] ms@[t]).key@ == l[t].0,
                forall|t: int| 0 <= t < j ==> (#[trigger] l[t]).0 != names@[i as int]@,
                found ==> j < ms@.len() && l[j as int].0 == names@[i as int]@,
            decreases ms.len() - j + (if found {
                0int
            } else {
                1int
            }),
        {
            if str_eq(ms[j].key.as_str(), names[i].as_str()) {
                found = true;
            } else {
                j = j + 1;
            }
        }
        let ghost li = layout(ns, (i + 1) as nat);
        assert(ns[i as int] == names@[i as int]@);
        if found {
            proof {
                lemma_key_pos_found(l, ns[i as int], j as int);
                assert(li == l.update(j as int, (ns[i as int], i as int)));
            }
            ms.set(j, Field { key: names[i].clone(), value: cell });
        } else {
            proof {
                lemma_key_pos_absent(l, ns[i as int]);
                assert(li == l.push((ns[i as int], i as int)));
            }
            ms.push(Field { key: names[i].clone(), value: cell });
        }
        i = i + 1;
    }
    Value::Object(ms)
}

/// The made-up name of column `i` when a file names none: `column{i}`.
pub open spec fn column_name(i: nat) -> Seq<char> {
    "column"@ + dec_text(i)
}

/// The column names after a record `width` cells wide: made-up names are
/// added for the extra cells when the names are made up, else they stay.
pub open spec fn names_after(names: Seq<Seq<char>>, synthesized: bool, width: nat) -> Seq<
    Seq<char>,
> {
    if synthesized && names.len() < width {
        names + Seq::new((width - names.len()) as nat, |k: int| column_name((names.len() + k) as nat))
    } else {
        names
    }
}

/// The state of a CSV/TSV reader between records: the column names, whether
/// they are made up, how many records were taken, and how many leading
/// data records to drop.
pub struct CsvRows {
    pub names: Vec<String>,
    pub synthesized: bool,
    pub seen: usize,
    pub skip: usize,
}

/// `column{i}`.
fn column_label(i: usize) -> (r: String)
    ensures
        r@ == column_name(i as nat),
{
    let mut out = "column".to_owned();
    let d = decimal(i);
    out.append(d.as_str());
    proof {
        reveal_strlit("column");
    }
    out
}

impl CsvRows {
    /// Starts reading a CSV/TSV file. With `opts.header` the columns are
    /// named by `header`, the file's header record; without it by
    /// `opts.columns`, and where those are empty too, by made-up names
    /// `column0`, `column1`, … as wide as the records turn out to be.
    pub fn open(opts: &ReadOptions, header: Vec<String>) -> (r: Self)
        ensures
            texts(r.names@) == (if opts.header {
                texts(header@)
            } else {
                texts(opts.columns@)
            }),
            r.synthesized == (r.names@.len() == 0),
            r.seen == 0,
            r.skip == opts.skip,
    {
        let names = if opts.header {
            header
        } else {
            let mut cols: Vec<String> = Vec::new();
            let mut i: usize = 0;
            while i < opts.columns.len()
                invariant
                    i <= opts.columns@.len(),
                    cols@.len() == i,
                    forall|k: int| 0 <= k < i ==> (#[trigger] cols@[k])@ == opts.columns@[k]@,
                decreases opts.columns.len() - i,
            {
                cols.push(opts.columns[i].clone());
                i = i + 1;
            }
            assert(texts(cols@) =~= texts(opts.columns@));
            cols
        };
        let synthesized = names.len() == 0;
        CsvRows { names, synthesized, seen: 0, skip: opts.skip }
    }

    /// Takes the next record, whose cells are `record` (`float_bits` as in
    /// `record_object`). `None` while the record is among the first `skip`
    /// data records, which are dropped; else its row, after made-up names
    /// have been added for cells beyond the names.
    pub fn next_record(&mut self, record: &Vec<String>, float_bits: &Vec<Option<u64>>) -> (r:
        Option<Value>)
        requires
            old(self).seen < usize::MAX,
            float_bits@.len() == record@.len(),
        ensures
            final(self).seen == old(self).seen + 1,
            final(self).skip == old(self).skip,
            final(self).synthesized == old(self).synthesized,
            old(self).seen < old(self).skip ==> r is None && texts(final(self).names@) == texts(
                old(self).names@,
            ),
            old(self).seen >= old(self).skip ==> texts(final(self).names@) == names_after(
                texts(old(self).names@),
                old(self).synthesized,
                record@.len(),
            ),
            old(self).seen >= old(self).skip ==> (r matches Some(v) && row_is(
                v,
                texts(final(self).names@),
                record@,
                float_bits@,
            )),
    {
        let n = self.seen;
        self.seen = self.seen + 1;
        if n < self.skip {
            return None;
        }
        if self.synthesized && self.names.len() < record.len() {
            let ghost before = texts(self.names@);
            let ghost (seen1, skip1, synth1) = (self.seen, self.skip, self.synthesized);
            let mut i = self.names.len();
            while i < record.len()
                invariant
                    self.seen == seen1,
                    self.skip == skip1,
                    self.synthesized == synth1,
                    before.len() <= i <= record@.len(),
                    self.names@.len() == i,
                    texts(self.names@) == before + Seq::new(
                        (i - before.len()) as nat,
                        |k: int| column_name((before.len() + k) as nat),
                    ),
                decreases record.len() - i,
            {
                let label = column_label(i);
                let ghost prior = texts(self.names@);
                self.names.push(label);
                assert(texts(self.names@) =~= prior.push(column_name(i as nat)));
                assert(before + Seq::new(
                    (i + 1 - before.len()) as nat,
                    |k: int| column_name((before.len() + k) as nat),
                ) =~= (before + Seq::new(
                    (i - before.len()) as nat,
                    |k: int| column_name((before.len() + k) as nat),
                )).push(column_name(i as nat)));
                i = i + 1;
            }
        }
        Some(record_object(&self.names, record, float_bits))
    }
}

/// A character with Unicode's `White_Space` property, which is what
/// `char::is_whitespace` and `str::trim` go by.
pub open spec fn is_white_space(c: char) -> bool {
    ||| '\t' <= c && c <= '\r'
    ||| c == ' '
    ||| c == '\u{85}'
    ||| c == '\u{a0}'
    ||| c == '\u{1680}'
    ||| '\u{2000}' <= c && c <= '\u{200a}'
    ||| c == '\u{2028}'
    ||| c == '\u{2029}'
    ||| c == '\u{202f}'
    ||| c == '\u{205f}'
    ||| c == '\u{3000}'
}

/// Whether `line` is empty once trimmed: nothing but white space.
pub fn is_blank(line: &str) -> (r: bool)
    ensures
        r <==> forall|i: int| 0 <= i < line@.len() ==> is_white_space(#[trigger] line@[i]),
{
    let cs = chars_of(line);
    let mut i: usize = 0;
    while i < cs.len()
        invariant
            i <= cs@.len(),
            cs@ == line@,
            forall|k: int| 0 <= k < i ==> is_white_space(#[trigger] cs@[k]),
        decreases cs.len() - i,
    {
        let c = cs[i];
        let white = ('\t' <= c && c <= '\r') || c == ' ' || c == '\u{85}' || c == '\u{a0}' || c
            == '\u{1680}' || ('\u{2000}' <= c && c <= '\u{200a}') || c == '\u{2028}' || c
            == '\u{2029}' || c == '\u{202f}' || c == '\u{205f}' || c == '\u{3000}';
        if !white {
            return false;
        }
        i = i + 1;
    }
    true
}

/// `a` followed by `b`, as a new string.
pub fn joined(a: &str, b: &str) -> (r: String)
    ensures
        r@ == a@ + b@,
{
    let mut out = a.to_owned();
    out.append(b);
    out
}

/// The state of a JSONL reader between lines: the file's path, how many
/// raw lines were taken, and how many leading raw lines to drop (blank ones
/// count).
pub struct JsonlRows {
    pub path: String,
    pub line_no: usize,
    pub skip: usize,
}

/// The error text for a JSONL line at 0-based `n` that is not an object.
pub open spec fn not_object_text(path: Seq<char>, n: nat) -> Seq<char> {
    "jsonl row at "@ + path + ":"@ + dec_text(n + 1) + " must be a JSON object"@
}

impl JsonlRows {
    /// Starts reading the JSONL file at `path`.
    pub fn open(path: &str, opts: &ReadOptions) -> (r: Self)
        ensures
            r.path@ == path@,
            r.line_no == 0,
            r.skip == opts.skip,
    {
        JsonlRows { path: path.to_owned(), line_no: 0, skip: opts.skip }
    }

    /// Takes the next raw line, before it is read: `false` when it is among
    /// the first `skip` lines, which are dropped unread, whatever reading it
    /// would have given.
    pub fn begin_line(&mut self) -> (keep: bool)
        requires
            old(self).line_no < usize::MAX,
        ensures
            final(self).line_no == old(self).line_no + 1,
            final(self).path == old(self).path,
            final(self).skip == old(self).skip,
            keep == (old(self).line_no >= old(self).skip),
    {
        let n = self.line_no;
        self.line_no = self.line_no + 1;
        n >= self.skip
    }

    /// The row of the line just taken, from what decoding it as JSON gave
    /// (its error text on failure): a decoding failure is an I/O error
    /// naming the path, and a value that is not an object an internal error
    /// naming the path and the line's 1-based number.
    pub fn row_from_line(&self, decoded: Result<Value, String>) -> (r: Result<Value, Error>)
        requires
            self.line_no > 0,
        ensures
            match decoded {
                Err(e) => r matches Err(Error::IoError(m)) && m@ == self.path@ + ":"@ + e@,
                Ok(v) => if v is Object {
                    r == Ok::<Value, Error>(v)
                } else {
                    r matches Err(Error::InternalError(m)) && m@ == not_object_text(
                        self.path@,
                        (self.line_no - 1) as nat,
                    )
                },
            },
    {
        proof {
            reveal_strlit(":");
            reveal_strlit("jsonl row at ");
            reveal_strlit(" must be a JSON object");
        }
        match decoded {
            Err(e) => {
                let head = joined(self.path.as_str(), ":");
                Err(Error::IoError(joined(head.as_str(), e.as_str())))
            },
            Ok(v) => {
                if let Value::Object(_) = &v {
                    Ok(v)
                } else {
                    let a = joined("jsonl row at ", self.path.as_str());
                    let b = joined(a.as_str(), ":");
                    let num = decimal(self.line_no);
                    let c = joined(b.as_str(), num.as_str());
                    Err(Error::InternalError(joined(c.as_str(), " must be a JSON object")))
                }
            },
        }
    }
}

/// A whole JSON document, read in memory: its rows and the place of the
/// next one.
pub struct JsonRows {
    pub rows: Vec<Value>,
    pub pos: usize,
}

impl JsonRows {
    /// The rows of the JSON document at `path`, from what decoding it gave
    /// (its error text on failure): the items of a top-level array (rows
    /// need not be objects), or a top-level object as the one row; reading
    /// starts `skip` rows in. A decoding failure, or a document of any other
    /// kind, is an I/O error naming the path.
    pub fn from_document(path: &str, decoded: Result<Value, String>, skip: usize) -> (r: Result<
        JsonRows,
        Error,
    >)
        ensures
            match decoded {
                Err(e) => r matches Err(Error::IoError(m)) && m@ == path@ + ":"@ + e@,
                Ok(Value::Array(items)) => r matches Ok(j) && j.rows@ == items@ && j.pos == skip,
                Ok(Value::Object(ms)) => r matches Ok(j) && j.rows@ == seq![Value::Object(ms)]
                    && j.pos == skip,
                Ok(_) => r matches Err(Error::IoError(m)) && m@ == path@
                    + ": json source must be an array or an object"@,
            },
    {
        proof {
            reveal_strlit(":");
        }
        match decoded {
            Err(e) => {
                let head = joined(path, ":");
                Err(Error::IoError(joined(head.as_str(), e.as_str())))
            },
            Ok(Value::Array(items)) => Ok(JsonRows { rows: items, pos: skip }),
            Ok(Value::Object(ms)) => Ok(JsonRows { rows: vec![Value::Object(ms)], pos: skip }),
            Ok(_) => Err(
                Error::IoError(joined(path, ": json source must be an array or an object")),
            ),
        }
    }

    /// The next row, a copy of the one at `pos`; `None` past the end.
    pub fn next_row(&mut self) -> (r: Option<Value>)
        ensures
            final(self).rows == old(self).rows,
            old(self).pos < old(self).rows@.len() ==> final(self).pos == old(self).pos + 1 && (
            r matches Some(v) && value_same(v, old(self).rows@[old(self).pos as int])),
            old(self).pos >= old(self).rows@.len() ==> r is None && final(self).pos == old(
                self,
            ).pos,
    {
        if self.pos < self.rows.len() {
            let row = copy_value(&self.rows[self.pos]);
            self.pos = self.pos + 1;
            Some(row)
        } else {
            None
        }
    }
}

/// The place of the last member of `ms` named `k`.
pub open spec fn last_index(ms: Seq<Field>, k: Seq<char>) -> Option<int>
    decreases ms.len(),
{
    if ms.len() == 0 {
        None
    } else if ms.last().key@ == k {
        Some(ms.len() - 1)
    } else {
        last_index(ms.drop_last(), k)
    }
}

/// The error text for a row that a writer needs to be an object.
pub open spec fn object_rows_text(builtin: Seq<char>) -> Seq<char> {
    builtin + "() requires object rows"@
}

/// Checks that a row handed to the writer `builtin` is an object.
pub fn require_object(row: &Value, builtin: &str) -> (r: Result<(), Error>)
    ensures
        row is Object ==> r is Ok,
        !(row is Object) ==> (r matches Err(Error::InternalError(m)) && m@ == object_rows_text(
            builtin@,
        )),
{
    if let Value::Object(_) = row {
        Ok(())
    } else {
        Err(Error::InternalError(joined(builtin, "() requires object rows")))
    }
}

/// The columns a CSV writer gives `rows`: the member names of the first row
/// that is an object, in order; none when no row is.
pub fn write_columns(rows: &[Value]) -> (cols: Vec<String>)
    ensures
        (exists|i: int| 0 <= i < rows@.len() && rows@[i] is Object) ==> {
            let i = choose|i: int|
                0 <= i < rows@.len() && rows@[i] is Object && forall|j: int|
                    0 <= j < i ==> !(rows@[j] is Object);
            rows@[i] matches Value::Object(ms) && texts(cols@) == Seq::new(
                ms@.len(),
                |k: int| ms@[k].key@,
            )
        },
        (forall|i: int| 0 <= i < rows@.len() ==> !(#[trigger] rows@[i] is Object)) ==> cols@.len()
            == 0,
{
    let mut i: usize = 0;
    while i < rows.len()
        invariant
            i <= rows@.len(),
            forall|j: int| 0 <= j < i ==> !(#[trigger] rows@[j] is Object),
        decreases rows.len() - i,
    {
        if let Value::Object(ms) = &rows[i] {
            let mut cols: Vec<String> = Vec::new();
            let mut k: usize = 0;
            while k < ms.len()
                invariant
                    k <= ms@.len(),
                    cols@.len() == k,
                    forall|t: int| 0 <= t < k ==> (#[trigger] cols@[t])@ == ms@[t].key@,
                decreases ms.len() - k,
            {
                cols.push(ms[k].key.clone());
                k = k + 1;
            }
            proof {
                let c = choose|c: int|
                    0 <= c < rows@.len() && rows@[c] is Object && forall|j: int|
                        0 <= j < c ==> !(rows@[j] is Object);
                assert(rows@[i as int] is Object);
                if c != i {
                    if c < i {
                        assert(!(rows@[c] is Object));
                    } else {
                        assert(!(rows@[i as int] is Object));
                    }
                }
                assert(texts(cols@) =~= Seq::new(ms@.len(), |t: int| ms@[t].key@));
            }
            return cols;
        }
        i = i + 1;
    }
    Vec::new()
}

/// Which member of an object row fills each CSV column: the last member
/// with the column's name, or none (an empty cell). A row that is not an
/// object is an error.
pub fn record_cells(columns: &Vec<String>, row: &Value) -> (r: Result<Vec<Option<usize>>, Error>)
    ensures
        !(row is Object) ==> (r matches Err(Error::InternalError(m)) && m@ == object_rows_text(
            "write_csv"@,
        )),
        row matches Value::Object(ms) ==> (r matches Ok(cells) && cells@.len() == columns@.len()
            && forall|k: int|
            0 <= k < columns@.len() ==> (#[trigger] cells@[k]) == match last_index(
                ms@,
                columns@[k]@,
            ) {
                Some(j) => Some(j as usize),
                None => None::<usize>,
            }),
{
    match row {
        Value::Object(ms) => {
            let mut cells: Vec<Option<usize>> = Vec::new();
            let mut k: usize = 0;
            while k < columns.len()
                invariant
                    k <= columns@.len(),
                    cells@.len() == k,
                    forall|t: int|
                        0 <= t < k ==> (#[trigger] cells@[t]) == match last_index(
                            ms@,
                            columns@[t]@,
                        ) {
                            Some(j) => Some(j as usize),
                            None => None::<usize>,
                        },
                decreases columns.len() - k,
            {
                let mut j: usize = ms.len();
                let mut found: Option<usize> = None;
                assert(ms@.take(j as int) =~= ms@);
                while j > 0 && found.is_none()
                    invariant
                        j <= ms@.len(),
                        k < columns@.len(),
                        found is None ==> last_index(ms@, columns@[k as int]@) == last_index(
                            ms@.take(j as int),
                            columns@[k as int]@,
                        ),
                        found matches Some(f) ==> last_index(ms@, columns@[k as int]@) == Some(
                            f as int,
                        ),
                    decreases j + (if found is None {
                        1int
                    } else {
                        0int
                    }),
                {
                    let ghost t = ms@.take(j as int);
                    assert(t.drop_last() =~= ms@.take(j - 1));
                    assert(t.last() == ms@[j - 1]);
                    if str_eq(ms[j - 1].key.as_str(), columns[k].as_str()) {
                        found = Some(j - 1);
                    } else {
                        j = j - 1;
                    }
                }
                proof {
                    if found is None {
                        assert(ms@.take(j as int) =~= Seq::<Field>::empty());
                    }
                    assert(ms@.take(ms@.len() as int) =~= ms@);
                }
                cells.push(found);
                k = k + 1;
            }
            Ok(cells)
        },
        _ => {
            proof {
                reveal_strlit("write_csv");
            }
            require_object(row, "write_csv").map(|u: ()| Vec::new())
        },
    }
}

} // verus!

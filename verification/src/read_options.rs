//! File read/write option bags parsed from an options object.
use vstd::prelude::*;

use crate::error::Error;
use crate::f64bits::whole_value;
use crate::value::{str_eq, Field, Value};

verus! {

/// Options controlling CSV/TSV/JSONL reads.
#[derive(Debug, Clone)]
pub struct ReadOptions {
    /// Whether the first CSV/TSV row names columns. Default: `true`.
    pub header: bool,
    /// Field delimiter for CSV/TSV. Default: `,` (TSV sets `'\t'`).
    pub delimiter: char,
    /// Quote character for CSV/TSV. Default: `"`.
    pub quote: char,
    /// Column names when `header` is false. Empty → `column0`, `column1`, …
    pub columns: Vec<String>,
    /// Leading lines to skip before data (blank JSONL lines count).
    pub skip: usize,
}

/// Options controlling CSV/TSV/JSONL writes.
#[derive(Debug, Clone, Copy)]
pub struct WriteOptions {
    /// Whether to emit a header row for CSV/TSV. Default: `true`.
    pub header: bool,
    /// Field delimiter for CSV/TSV. Default: `,`.
    pub delimiter: char,
    /// Quote character for CSV/TSV. Default: `"`.
    pub quote: char,
}

impl Default for ReadOptions {
    fn default() -> (o: Self)
        ensures
            o.header,
            o.delimiter == ',',
            o.quote == '"',
            o.columns@.len() == 0,
            o.skip == 0,
    {
        ReadOptions { header: true, delimiter: ',', quote: '"', columns: Vec::new(), skip: 0 }
    }
}

impl Default for WriteOptions {
    fn default() -> (o: Self)
        ensures
            o.header,
            o.delimiter == ',',
            o.quote == '"',
    {
        WriteOptions { header: true, delimiter: ',', quote: '"' }
    }
}

/// What an option's value must be: the error text when it is not.
pub open spec fn option_text(name: Seq<char>, what: Seq<char>) -> Seq<char> {
    "option '"@ + name + "' requires "@ + what
}

/// `"option '<name>' requires <what>"`.
fn option_error(name: &str, what: &str) -> (e: Error)
    ensures
        e matches Error::InternalError(m) && m@ == option_text(name@, what@),
{
    let mut m = String::from_str("option '");
    m.append(name);
    m.append("' requires ");
    m.append(what);
    Error::InternalError(m)
}

/// A boolean option's value, or the error text.
pub open spec fn bool_option(v: Value) -> Option<bool> {
    match v {
        Value::Bool(b) => Some(b),
        _ => None,
    }
}

/// A single-character option's value: `Err(what)` names what was missing.
pub open spec fn char_option(v: Value) -> Result<char, Seq<char>> {
    match v {
        Value::String(s) => if s@.len() == 0 {
            Err("a non-empty string"@)
        } else if s@.len() > 1 {
            Err("a single character"@)
        } else {
            Ok(s@[0])
        },
        _ => Err("a string"@),
    }
}

/// A non-negative integer option's value: a non-negative int, or a
/// non-negative whole float (clamped to the `usize` range).
pub open spec fn usize_option(v: Value) -> Option<usize> {
    match v {
        Value::Int(i) => if i >= 0 {
            Some(i as usize)
        } else {
            None
        },
        Value::Float(b) => match whole_value(b) {
            Some(w) => if w >= 0 {
                Some(
                    if w > usize::MAX {
                        usize::MAX
                    } else {
                        w as usize
                    },
                )
            } else {
                None
            },
            None => None,
        },
        _ => None,
    }
}

/// Whether a value is an array of strings.
pub open spec fn is_string_array(v: Value) -> bool {
    v matches Value::Array(items) && forall|i: int| 0 <= i < items@.len() ==> items@[i] is String
}

fn want_bool(name: &str, v: &Value) -> (r: Result<bool, Error>)
    ensures
        match bool_option(*v) {
            Some(b) => r == Ok::<bool, Error>(b),
            None => r matches Err(e) && e matches Error::InternalError(m) && m@ == option_text(
                name@,
                "a boolean"@,
            ),
        },
{
    match v {
        Value::Bool(b) => Ok(*b),
        _ => Err(option_error(name, "a boolean")),
    }
}

fn want_char(name: &str, v: &Value) -> (r: Result<char, Error>)
    ensures
        match char_option(*v) {
            Ok(c) => r == Ok::<char, Error>(c),
            Err(what) => r matches Err(e) && e matches Error::InternalError(m) && m@ == option_text(
                name@,
                what,
            ),
        },
{
    match v {
        Value::String(s) => {
            let t = s.as_str();
            let n = t.unicode_len();
            if n == 0 {
                Err(option_error(name, "a non-empty string"))
            } else if n > 1 {
                Err(option_error(name, "a single character"))
            } else {
                Ok(t.get_char(0))
            }
        },
        _ => Err(option_error(name, "a string")),
    }
}

fn want_usize(name: &str, v: &Value) -> (r: Result<usize, Error>)
    ensures
        match usize_option(*v) {
            Some(n) => r == Ok::<usize, Error>(n),
            None => r matches Err(e) && e matches Error::InternalError(m) && m@ == option_text(
                name@,
                "a non-negative integer"@,
            ),
        },
{
    match v {
        Value::Int(i) => {
            if *i >= 0 {
                Ok(*i as usize)
            } else {
                Err(option_error(name, "a non-negative integer"))
            }
        },
        Value::Float(b) => {
            match crate::f64bits::whole_to_usize(*b) {
                Some(n) => Ok(n),
                None => Err(option_error(name, "a non-negative integer")),
            }
        },
        _ => Err(option_error(name, "a non-negative integer")),
    }
}

} // verus!

verus! {

/// The text of each string in a list.
pub open spec fn texts(items: Seq<String>) -> Seq<Seq<char>> {
    Seq::new(items.len(), |i: int| items[i]@)
}

/// The strings of an array of strings.
pub open spec fn string_items(v: Value) -> Seq<Seq<char>> {
    match v {
        Value::Array(items) => Seq::new(items@.len(), |i: int| items@[i]->String_0@),
        _ => Seq::empty(),
    }
}

fn want_string_array(name: &str, v: &Value) -> (r: Result<Vec<String>, Error>)
    ensures
        is_string_array(*v) ==> (r matches Ok(names) && texts(names@) == string_items(*v)),
        !is_string_array(*v) ==> (r matches Err(e) && e matches Error::InternalError(m) && m@
            == option_text(name@, "an array of strings"@)),
{
    match v {
        Value::Array(items) => {
            let mut out: Vec<String> = Vec::new();
            let mut i: usize = 0;
            while i < items.len()
                invariant
                    i <= items@.len(),
                    *v == Value::Array(*items),
                    out@.len() == i,
                    forall|j: int| 0 <= j < i ==> items@[j] is String,
                    forall|j: int| 0 <= j < i ==> out@[j]@ == items@[j]->String_0@,
                decreases items.len() - i,
            {
                match &items[i] {
                    Value::String(s) => {
                        out.push(s.clone());
                    },
                    _ => {
                        return Err(option_error(name, "an array of strings"));
                    },
                }
                i = i + 1;
            }
            assert(texts(out@) =~= string_items(*v));
            Ok(out)
        },
        _ => Err(option_error(name, "an array of strings")),
    }
}

/// What is wrong with one read-option member, if anything: `(true, text)` for
/// an unknown option (an unsupported-feature error), `(false, text)` for a
/// value of the wrong kind.
pub open spec fn read_member_error(m: Field) -> Option<(bool, Seq<char>)> {
    let k = m.key@;
    let v = m.value;
    if k == "header"@ {
        if bool_option(v) is Some {
            None
        } else {
            Some((false, option_text(k, "a boolean"@)))
        }
    } else if k == "delimiter"@ || k == "quote"@ {
        match char_option(v) {
            Ok(_) => None,
            Err(what) => Some((false, option_text(k, what))),
        }
    } else if k == "columns"@ {
        if is_string_array(v) {
            None
        } else {
            Some((false, option_text(k, "an array of strings"@)))
        }
    } else if k == "skip"@ {
        if usize_option(v) is Some {
            None
        } else {
            Some((false, option_text(k, "a non-negative integer"@)))
        }
    } else {
        Some((true, "unknown read option '"@ + k + "'"@))
    }
}

/// What is wrong with one write-option member, if anything (as for reads).
pub open spec fn write_member_error(m: Field) -> Option<(bool, Seq<char>)> {
    let k = m.key@;
    let v = m.value;
    if k == "header"@ {
        if bool_option(v) is Some {
            None
        } else {
            Some((false, option_text(k, "a boolean"@)))
        }
    } else if k == "delimiter"@ || k == "quote"@ {
        match char_option(v) {
            Ok(_) => None,
            Err(what) => Some((false, option_text(k, what))),
        }
    } else {
        Some((true, "unknown write option '"@ + k + "'"@))
    }
}

/// The first member error of a read-options object, in member order.
pub open spec fn first_read_error(ms: Seq<Field>) -> Option<(bool, Seq<char>)>
    decreases ms.len(),
{
    if ms.len() == 0 {
        None
    } else {
        match read_member_error(ms[0]) {
            Some(e) => Some(e),
            None => first_read_error(ms.drop_first()),
        }
    }
}

/// The first member error of a write-options object, in member order.
pub open spec fn first_write_error(ms: Seq<Field>) -> Option<(bool, Seq<char>)>
    decreases ms.len(),
{
    if ms.len() == 0 {
        None
    } else {
        match write_member_error(ms[0]) {
            Some(e) => Some(e),
            None => first_write_error(ms.drop_first()),
        }
    }
}

/// The value of the last member named `key`, if any (a later member
/// overrides an earlier one).
pub open spec fn last_member(ms: Seq<Field>, key: Seq<char>) -> Option<Value>
    decreases ms.len(),
{
    if ms.len() == 0 {
        None
    } else if ms.last().key@ == key {
        Some(ms.last().value)
    } else {
        last_member(ms.drop_last(), key)
    }
}

/// An error of the given kind with the given text.
pub open spec fn is_error(e: Error, unsupported: bool, text: Seq<char>) -> bool {
    if unsupported {
        e matches Error::Unsupported(m) && m@ == text
    } else {
        e matches Error::InternalError(m) && m@ == text
    }
}

/// `"<prefix><key>'"`: an unknown option.
fn unknown_option(prefix: &str, key: &str) -> (e: Error)
    ensures
        e matches Error::Unsupported(m) && m@ == prefix@ + key@ + "'"@,
{
    let mut m = String::from_str(prefix);
    m.append(key);
    m.append("'");
    Error::Unsupported(m)
}

} // verus!

verus! {

/// The header flag an options object sets (default `true`).
pub open spec fn header_of(ms: Seq<Field>) -> bool {
    match last_member(ms, "header"@) {
        Some(x) => bool_option(x)->0,
        None => true,
    }
}

/// The character option `key` an options object sets, or `dflt`.
pub open spec fn char_of(ms: Seq<Field>, key: Seq<char>, dflt: char) -> char {
    match last_member(ms, key) {
        Some(x) => char_option(x)->Ok_0,
        None => dflt,
    }
}

/// The column names an options object sets (default none).
pub open spec fn columns_of(ms: Seq<Field>) -> Seq<Seq<char>> {
    match last_member(ms, "columns"@) {
        Some(x) => string_items(x),
        None => Seq::empty(),
    }
}

/// The skip count an options object sets (default zero).
pub open spec fn skip_of(ms: Seq<Field>) -> usize {
    match last_member(ms, "skip"@) {
        Some(x) => usize_option(x)->0,
        None => 0,
    }
}

/// `take(i + 1)` extends `take(i)` by member `i`.
proof fn lemma_take_last(ms: Seq<Field>, i: int, key: Seq<char>)
    requires
        0 <= i < ms.len(),
    ensures
        last_member(ms.take(i + 1), key) == if ms[i].key@ == key {
            Some(ms[i].value)
        } else {
            last_member(ms.take(i), key)
        },
{
    assert(ms.take(i + 1).drop_last() =~= ms.take(i));
    assert(ms.take(i + 1).last() == ms[i]);
}

/// No error among the first `i` members.
proof fn lemma_first_read_error_skip(ms: Seq<Field>, i: int)
    requires
        0 <= i < ms.len(),
        read_member_error(ms[i]) is None,
    ensures
        first_read_error(ms.skip(i)) == first_read_error(ms.skip(i + 1)),
{
    assert(ms.skip(i).drop_first() =~= ms.skip(i + 1));
    assert(ms.skip(i)[0] == ms[i]);
}

/// No error among the first `i` members.
proof fn lemma_first_write_error_skip(ms: Seq<Field>, i: int)
    requires
        0 <= i < ms.len(),
        write_member_error(ms[i]) is None,
    ensures
        first_write_error(ms.skip(i)) == first_write_error(ms.skip(i + 1)),
{
    assert(ms.skip(i).drop_first() =~= ms.skip(i + 1));
    assert(ms.skip(i)[0] == ms[i]);
}

impl ReadOptions {
    /// Parses read options from an options object, or returns defaults for
    /// `null`. A later member overrides an earlier one; the first bad member
    /// is the error.
    pub fn from_value(v: &Value) -> (r: Result<Self, Error>)
        ensures
            match *v {
                Value::Null => r matches Ok(o) && o.header && o.delimiter == ',' && o.quote == '"'
                    && o.columns@.len() == 0 && o.skip == 0,
                Value::Object(ms) => match first_read_error(ms@) {
                    Some((unsupported, text)) => r matches Err(e) && is_error(e, unsupported, text),
                    None => r matches Ok(o) && o.header == header_of(ms@) && o.delimiter == char_of(
                        ms@,
                        "delimiter"@,
                        ',',
                    ) && o.quote == char_of(ms@, "quote"@, '"') && texts(o.columns@) == columns_of(
                        ms@,
                    ) && o.skip == skip_of(ms@),
                },
                _ => r matches Err(e) && is_error(e, false, "read options must be an object"@),
            },
    {
        let mut opts = ReadOptions::default();
        let ms = match v {
            Value::Object(ms) => ms,
            Value::Null => {
                return Ok(opts);
            },
            _ => {
                return Err(Error::InternalError(String::from_str("read options must be an object")));
            },
        };
        let mut i: usize = 0;
        proof {
            assert(ms@.skip(0) =~= ms@);
            assert(ms@.take(0) =~= Seq::<Field>::empty());
            assert(texts(opts.columns@) =~= Seq::<Seq<char>>::empty());
        }
        while i < ms.len()
            invariant
                i <= ms@.len(),
                *v == Value::Object(*ms),
                first_read_error(ms@) == first_read_error(ms@.skip(i as int)),
                opts.header == header_of(ms@.take(i as int)),
                opts.delimiter == char_of(ms@.take(i as int), "delimiter"@, ','),
                opts.quote == char_of(ms@.take(i as int), "quote"@, '"'),
                texts(opts.columns@) == columns_of(ms@.take(i as int)),
                opts.skip == skip_of(ms@.take(i as int)),
            decreases ms.len() - i,
        {
            let key = ms[i].key.as_str();
            let val = &ms[i].value;
            proof {
                assert(ms@.skip(i as int)[0] == ms@[i as int]);
                assert(ms@.skip(i as int).drop_first() =~= ms@.skip(i + 1));
                lemma_take_last(ms@, i as int, "header"@);
                lemma_take_last(ms@, i as int, "delimiter"@);
                lemma_take_last(ms@, i as int, "quote"@);
                lemma_take_last(ms@, i as int, "columns"@);
                lemma_take_last(ms@, i as int, "skip"@);
                reveal_strlit("header");
                reveal_strlit("delimiter");
                reveal_strlit("quote");
                reveal_strlit("columns");
                reveal_strlit("skip");
            }
            if str_eq(key, "header") {
                match want_bool(key, val) {
                    Ok(b) => {
                        opts.header = b;
                    },
                    Err(e) => {
                        return Err(e);
                    },
                }
            } else if str_eq(key, "delimiter") {
                match want_char(key, val) {
                    Ok(c) => {
                        opts.delimiter = c;
                    },
                    Err(e) => {
                        return Err(e);
                    },
                }
            } else if str_eq(key, "quote") {
                match want_char(key, val) {
                    Ok(c) => {
                        opts.quote = c;
                    },
                    Err(e) => {
                        return Err(e);
                    },
                }
            } else if str_eq(key, "columns") {
                match want_string_array(key, val) {
                    Ok(cs) => {
                        opts.columns = cs;
                    },
                    Err(e) => {
                        return Err(e);
                    },
                }
            } else if str_eq(key, "skip") {
                match want_usize(key, val) {
                    Ok(n) => {
                        opts.skip = n;
                    },
                    Err(e) => {
                        return Err(e);
                    },
                }
            } else {
                return Err(unknown_option("unknown read option '", key));
            }
            i = i + 1;
        }
        proof {
            assert(ms@.take(i as int) =~= ms@);
        }
        Ok(opts)
    }

    /// Applies TSV defaults when the format is tab-separated.
    pub fn for_tsv(self) -> (r: Self)
        ensures
            r == (ReadOptions { delimiter: '\t', ..self }),
    {
        let mut s = self;
        s.delimiter = '\t';
        s
    }
}

impl WriteOptions {
    /// Parses write options from an options object, or returns defaults for
    /// `null`. A later member overrides an earlier one; the first bad member
    /// is the error.
    pub fn from_value(v: &Value) -> (r: Result<Self, Error>)
        ensures
            match *v {
                Value::Null => r matches Ok(o) && o.header && o.delimiter == ',' && o.quote == '"',
                Value::Object(ms) => match first_write_error(ms@) {
                    Some((unsupported, text)) => r matches Err(e) && is_error(e, unsupported, text),
                    None => r matches Ok(o) && o.header == header_of(ms@) && o.delimiter == char_of(
                        ms@,
                        "delimiter"@,
                        ',',
                    ) && o.quote == char_of(ms@, "quote"@, '"'),
                },
                _ => r matches Err(e) && is_error(e, false, "write options must be an object"@),
            },
    {
        let mut opts = WriteOptions::default();
        let ms = match v {
            Value::Object(ms) => ms,
            Value::Null => {
                return Ok(opts);
            },
            _ => {
                return Err(
                    Error::InternalError(String::from_str("write options must be an object")),
                );
            },
        };
        let mut i: usize = 0;
        proof {
            assert(ms@.skip(0) =~= ms@);
            assert(ms@.take(0) =~= Seq::<Field>::empty());
        }
        while i < ms.len()
            invariant
                i <= ms@.len(),
                *v == Value::Object(*ms),
                first_write_error(ms@) == first_write_error(ms@.skip(i as int)),
                opts.header == header_of(ms@.take(i as int)),
                opts.delimiter == char_of(ms@.take(i as int), "delimiter"@, ','),
                opts.quote == char_of(ms@.take(i as int), "quote"@, '"'),
            decreases ms.len() - i,
        {
            let key = ms[i].key.as_str();
            let val = &ms[i].value;
            proof {
                assert(ms@.skip(i as int)[0] == ms@[i as int]);
                assert(ms@.skip(i as int).drop_first() =~= ms@.skip(i + 1));
                lemma_take_last(ms@, i as int, "header"@);
                lemma_take_last(ms@, i as int, "delimiter"@);
                lemma_take_last(ms@, i as int, "quote"@);
                reveal_strlit("header");
                reveal_strlit("delimiter");
                reveal_strlit("quote");
            }
            if str_eq(key, "header") {
                match want_bool(key, val) {
                    Ok(b) => {
                        opts.header = b;
                    },
                    Err(e) => {
                        return Err(e);
                    },
                }
            } else if str_eq(key, "delimiter") {
                match want_char(key, val) {
                    Ok(c) => {
                        opts.delimiter = c;
                    },
                    Err(e) => {
                        return Err(e);
                    },
                }
            } else if str_eq(key, "quote") {
                match want_char(key, val) {
                    Ok(c) => {
                        opts.quote = c;
                    },
                    Err(e) => {
                        return Err(e);
                    },
                }
            } else {
                return Err(unknown_option("unknown write option '", key));
            }
            i = i + 1;
        }
        proof {
            assert(ms@.take(i as int) =~= ms@);
        }
        Ok(opts)
    }

    /// Applies TSV defaults when the format is tab-separated.
    pub fn for_tsv(self) -> (r: Self)
        ensures
            r == (WriteOptions { delimiter: '\t', ..self }),
    {
        let mut s = self;
        s.delimiter = '\t';
        s
    }
}

} // verus!

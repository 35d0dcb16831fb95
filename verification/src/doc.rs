//! Conversion of Python documents to BSON documents, and of stored BSON
//! bytes back to documents.
//!
//! A Python value is described here by what the conversion reads of it
//! (`PyValue`); the conversion builds the BSON document (`DocValue`) that
//! gets stored, or the Python exception to raise, with the path of the
//! offending value (`$.a.b[1]`).
use vstd::prelude::*;

use bson::{RawBsonRef, RawDocument};

use crate::decimal::{dec_text, decimal};

verus! {

/// A Python value as the conversion reads it.
#[derive(Debug)]
pub enum PyValue {
    /// `None`.
    NoneValue,
    /// A `bool`.
    Bool(bool),
    /// An `int` that fits in 64 bits.
    Int(i64),
    /// An `int` that does not fit in 64 bits.
    BigInt,
    /// A `float`, by its IEEE-754 bits.
    Float(u64),
    /// A `str`.
    Str(String),
    /// A `bytes`.
    Bytes(Vec<u8>),
    /// A `datetime`, as epoch milliseconds in UTC.
    DateTime(i64),
    /// A `dict`, its entries in order.
    Dict(Vec<PyEntry>),
    /// A `list`.
    List(Vec<PyValue>),
    /// A value of any other type, by its type's name.
    Other(String),
}

/// One dict entry: its key when the key is a `str`, and its value.
#[derive(Debug)]
pub struct PyEntry {
    pub key: Option<String>,
    pub value: PyValue,
}

/// A BSON value.
#[derive(Debug)]
pub enum DocValue {
    Null,
    Boolean(bool),
    Int32(i32),
    Int64(i64),
    /// A double, by its IEEE-754 bits.
    Double(u64),
    String(String),
    /// Binary data of the generic subtype.
    Binary(Vec<u8>),
    /// Epoch milliseconds.
    DateTime(i64),
    Document(Vec<DocField>),
    Array(Vec<DocValue>),
}

/// One field of a BSON document.
#[derive(Debug)]
pub struct DocField {
    pub key: String,
    pub value: DocValue,
}

/// The Python exception a conversion raises.
#[derive(Debug)]
pub enum DocError {
    /// A `TypeError` with its message.
    Type(String),
    /// A `ValueError` with its message.
    Value(String),
}

/// A BSON value as mathematics.
pub enum DocModel {
    Null,
    Boolean(bool),
    Int32(i32),
    Int64(i64),
    Double(u64),
    Str(Seq<char>),
    Binary(Seq<u8>),
    DateTime(i64),
    Document(Seq<(Seq<char>, DocModel)>),
    Array(Seq<DocModel>),
}

/// The outcome of a conversion: a value, or a `TypeError` or `ValueError`
/// with its message.
pub enum DocOutcome {
    Done(DocModel),
    TypeErr(Seq<char>),
    ValueErr(Seq<char>),
}

/// A BSON value as mathematics.
pub open spec fn doc_view(d: DocValue) -> DocModel
    decreases d,
{
    match d {
        DocValue::Null => DocModel::Null,
        DocValue::Boolean(b) => DocModel::Boolean(b),
        DocValue::Int32(i) => DocModel::Int32(i),
        DocValue::Int64(i) => DocModel::Int64(i),
        DocValue::Double(f) => DocModel::Double(f),
        DocValue::String(s) => DocModel::Str(s@),
        DocValue::Binary(b) => DocModel::Binary(b@),
        DocValue::DateTime(t) => DocModel::DateTime(t),
        DocValue::Document(fs) => DocModel::Document(
            Seq::new(
                fs@.len(),
                |i: int|
                    if 0 <= i < fs@.len() {
                        proof {
                            assert(decreases_to!(fs => fs@));
                            assert(decreases_to!(fs@ => fs@[i]));
                        }
                        (fs@[i].key@, doc_view(fs@[i].value))
                    } else {
                        (Seq::empty(), DocModel::Null)
                    },
            ),
        ),
        DocValue::Array(xs) => DocModel::Array(
            Seq::new(
                xs@.len(),
                |i: int|
                    if 0 <= i < xs@.len() {
                        proof {
                            assert(decreases_to!(xs => xs@));
                        }
                        doc_view(xs@[i])
                    } else {
                        DocModel::Null
                    },
            ),
        ),
    }
}

/// The fields of a document as mathematics.
pub open spec fn fields_view(fs: Seq<DocField>) -> Seq<(Seq<char>, DocModel)> {
    Seq::new(fs.len(), |i: int| (fs[i].key@, doc_view(fs[i].value)))
}

/// `fields` with `key` set to `val`: replaced where the key already is,
/// else appended.
pub open spec fn doc_insert(
    fields: Seq<(Seq<char>, DocModel)>,
    key: Seq<char>,
    val: DocModel,
) -> Seq<(Seq<char>, DocModel)> {
    if exists|i: int| 0 <= i < fields.len() && #[trigger] fields[i].0 == key {
        let i = choose|i: int| 0 <= i < fields.len() && #[trigger] fields[i].0 == key;
        fields.update(i, (key, val))
    } else {
        fields.push((key, val))
    }
}

/// The conversion of a Python value at `path`: `None`, `bool`, `int` (32
/// bits when it fits, else 64; beyond 64 bits a `ValueError`), `float`,
/// `str`, `bytes`, `datetime`, `dict` (a document), `list` (an array); any
/// other type is a `TypeError`.
pub open spec fn value_spec(v: PyValue, path: Seq<char>) -> DocOutcome
    decreases v, 0nat,
{
    match v {
        PyValue::NoneValue => DocOutcome::Done(DocModel::Null),
        PyValue::Bool(b) => DocOutcome::Done(DocModel::Boolean(b)),
        PyValue::Int(i) => if i32::MIN <= i <= i32::MAX {
            DocOutcome::Done(DocModel::Int32(i as i32))
        } else {
            DocOutcome::Done(DocModel::Int64(i))
        },
        PyValue::BigInt => DocOutcome::ValueErr("int out of 64-bit range at "@ + path),
        PyValue::Float(f) => DocOutcome::Done(DocModel::Double(f)),
        PyValue::Str(s) => DocOutcome::Done(DocModel::Str(s@)),
        PyValue::Bytes(b) => DocOutcome::Done(DocModel::Binary(b@)),
        PyValue::DateTime(t) => DocOutcome::Done(DocModel::DateTime(t)),
        PyValue::Dict(items) => dict_spec(items@, 0, Seq::empty(), path),
        PyValue::List(items) => list_spec(items@, 0, Seq::empty(), path),
        PyValue::Other(name) => DocOutcome::TypeErr(
            "unsupported type "@ + name@ + " at "@ + path,
        ),
    }
}

/// The conversion of the dict entries from `k` on into the fields `acc`
/// built so far.
pub open spec fn dict_spec(
    items: Seq<PyEntry>,
    k: int,
    acc: Seq<(Seq<char>, DocModel)>,
    path: Seq<char>,
) -> DocOutcome
    decreases items, items.len() - k,
{
    if k < 0 || k >= items.len() {
        DocOutcome::Done(DocModel::Document(acc))
    } else {
        match items[k].key {
            None => DocOutcome::TypeErr("non-string field name at "@ + path),
            Some(key) => match value_spec(items[k].value, path + "."@ + key@) {
                DocOutcome::Done(d) => dict_spec(items, k + 1, doc_insert(acc, key@, d), path),
                other => other,
            },
        }
    }
}

/// The conversion of the list items from `k` on, appended to `acc`.
pub open spec fn list_spec(
    items: Seq<PyValue>,
    k: int,
    acc: Seq<DocModel>,
    path: Seq<char>,
) -> DocOutcome
    decreases items, items.len() - k,
{
    if k < 0 || k >= items.len() {
        DocOutcome::Done(DocModel::Array(acc))
    } else {
        match value_spec(items[k], path + "["@ + dec_text(k as nat) + "]"@) {
            DocOutcome::Done(d) => list_spec(items, k + 1, acc.push(d), path),
            other => other,
        }
    }
}

/// A conversion result as an outcome.
pub open spec fn outcome_of(r: Result<DocValue, DocError>) -> DocOutcome {
    match r {
        Ok(d) => DocOutcome::Done(doc_view(d)),
        Err(DocError::Type(m)) => DocOutcome::TypeErr(m@),
        Err(DocError::Value(m)) => DocOutcome::ValueErr(m@),
    }
}

/// The name of a value's Python type.
pub open spec fn py_type_name(v: PyValue) -> Seq<char> {
    match v {
        PyValue::NoneValue => "NoneType"@,
        PyValue::Bool(_) => "bool"@,
        PyValue::Int(_) => "int"@,
        PyValue::BigInt => "int"@,
        PyValue::Float(_) => "float"@,
        PyValue::Str(_) => "str"@,
        PyValue::Bytes(_) => "bytes"@,
        PyValue::DateTime(_) => "datetime"@,
        PyValue::Dict(_) => "dict"@,
        PyValue::List(_) => "list"@,
        PyValue::Other(n) => n@,
    }
}


/// The keys of `fields` are pairwise distinct.
pub open spec fn keys_distinct(fields: Seq<(Seq<char>, DocModel)>) -> bool {
    forall|i: int, j: int|
        0 <= i < j < fields.len() ==> #[trigger] fields[i].0 != #[trigger] fields[j].0
}

/// Converts a Python value at `path` to BSON, or to the exception to raise.
#[verifier::loop_isolation(false)]
pub fn value_to_bson(v: &PyValue, path: &str) -> (r: Result<DocValue, DocError>)
    ensures
        outcome_of(r) == value_spec(*v, path@),
    decreases *v, 0nat,
{
    match v {
        PyValue::NoneValue => Ok(DocValue::Null),
        PyValue::Bool(b) => Ok(DocValue::Boolean(*b)),
        PyValue::Int(i) => {
            if i32::MIN as i64 <= *i && *i <= i32::MAX as i64 {
                Ok(DocValue::Int32(*i as i32))
            } else {
                Ok(DocValue::Int64(*i))
            }
        },
        PyValue::BigInt => Err(
            DocError::Value(String::from_str("int out of 64-bit range at ").concat(path)),
        ),
        PyValue::Float(f) => Ok(DocValue::Double(*f)),
        PyValue::Str(s) => Ok(DocValue::String(s.clone())),
        PyValue::Bytes(b) => Ok(DocValue::Binary(b.clone())),
        PyValue::DateTime(t) => Ok(DocValue::DateTime(*t)),
        PyValue::Dict(items) => {
            proof {
                assert(decreases_to!(*v => *items));
            }
            match dict_to_bson(items, path) {
                Ok(fields) => {
                    let ghost fs = fields@;
                    let d = DocValue::Document(fields);
                    assert(doc_view(d)->Document_0 =~= fields_view(fs));
                    Ok(d)
                },
                Err(e) => Err(e),
            }
        },
        PyValue::List(items) => {
            let mut out: Vec<DocValue> = Vec::new();
            let mut k: usize = 0;
            assert(value_spec(*v, path@) == list_spec(items@, 0, Seq::empty(), path@));
            assert(Seq::new(out@.len(), |i: int| doc_view(out@[i])) =~= Seq::<DocModel>::empty());
            while k < items.len()
                invariant
                    k <= items@.len(),
                    out@.len() == k,
                    value_spec(*v, path@) == list_spec(
                        items@,
                        k as int,
                        Seq::new(out@.len(), |i: int| doc_view(out@[i])),
                        path@,
                    ),
                decreases items@.len() - k,
            {
                proof {
                    assert(decreases_to!(*v => *items));
                    assert(decreases_to!(*items => items@));
                    assert(decreases_to!(items@ => items@[k as int]));
                }
                let child = String::from_str(path).concat("[").concat(decimal(k).as_str()).concat(
                    "]",
                );
                assert(child@ == path@ + "["@ + dec_text(k as nat) + "]"@);
                let ghost acc = Seq::new(out@.len(), |i: int| doc_view(out@[i]));
                match value_to_bson(&items[k], child.as_str()) {
                    Ok(d) => {
                        out.push(d);
                        assert(Seq::new(out@.len(), |i: int| doc_view(out@[i])) =~= acc.push(
                            doc_view(out@[k as int]),
                        ));
                    },
                    Err(e) => {
                        return Err(e);
                    },
                }
                k = k + 1;
            }
            let ghost xs = out@;
            let d = DocValue::Array(out);
            assert(doc_view(d)->Array_0 =~= Seq::new(xs.len(), |i: int| doc_view(xs[i])));
            Ok(d)
        },
        PyValue::Other(name) => Err(
            DocError::Type(
                String::from_str("unsupported type ").concat(name.as_str()).concat(" at ").concat(
                    path,
                ),
            ),
        ),
    }
}

/// Converts the entries of a dict at `path` to BSON document fields: a
/// non-`str` key is a `TypeError`; an entry's value converts at
/// `path.key`.
#[verifier::loop_isolation(false)]
pub fn dict_to_bson(items: &Vec<PyEntry>, path: &str) -> (r: Result<Vec<DocField>, DocError>)
    ensures
        match r {
            Ok(fs) => dict_spec(items@, 0, Seq::empty(), path@) == DocOutcome::Done(
                DocModel::Document(fields_view(fs@)),
            ),
            Err(DocError::Type(m)) => dict_spec(items@, 0, Seq::empty(), path@)
                == DocOutcome::TypeErr(m@),
            Err(DocError::Value(m)) => dict_spec(items@, 0, Seq::empty(), path@)
                == DocOutcome::ValueErr(m@),
        },
    decreases items, 1nat,
{
    let mut out: Vec<DocField> = Vec::new();
    let mut k: usize = 0;
    assert(fields_view(out@) =~= Seq::<(Seq<char>, DocModel)>::empty());
    while k < items.len()
        invariant
            k <= items@.len(),
            keys_distinct(fields_view(out@)),
            dict_spec(items@, 0, Seq::empty(), path@) == dict_spec(
                items@,
                k as int,
                fields_view(out@),
                path@,
            ),
        decreases items@.len() - k,
    {
        let key = match &items[k].key {
            Some(key) => key,
            None => {
                return Err(
                    DocError::Type(String::from_str("non-string field name at ").concat(path)),
                );
            },
        };
        proof {
            assert(decreases_to!(*items => items@));
            assert(decreases_to!(items@ => items@[k as int]));
            assert(decreases_to!(items@[k as int] => items@[k as int].value));
        }
        let child = String::from_str(path).concat(".").concat(key.as_str());
        let d = match value_to_bson(&items[k].value, child.as_str()) {
            Ok(d) => d,
            Err(e) => {
                return Err(e);
            },
        };
        let ghost before = fields_view(out@);
        let ghost dv = doc_view(d);
        let mut j: usize = 0;
        let mut found: Option<usize> = None;
        while j < out.len()
            invariant
                j <= out@.len(),
                found is None,
                forall|i: int| 0 <= i < j ==> out@[i].key@ != key@,
            decreases out@.len() - j,
        {
            if crate::value::str_eq(out[j].key.as_str(), key.as_str()) {
                found = Some(j);
                break;
            }
            j = j + 1;
        }
        match found {
            Some(j) => {
                assert(before[j as int].0 == key@);
                out.set(j, DocField { key: key.clone(), value: d });
                proof {
                    let i = choose|i: int| 0 <= i < before.len() && #[trigger] before[i].0 == key@;
                    assert(i == j);
                    assert(fields_view(out@) =~= before.update(j as int, (key@, dv)));
                }
            },
            None => {
                out.push(DocField { key: key.clone(), value: d });
                proof {
                    assert forall|i: int| 0 <= i < before.len() implies before[i].0 != key@ by {
                        assert(out@[i].key@ != key@);
                    }
                    assert(fields_view(out@) =~= before.push((key@, dv)));
                }
            },
        }
        k = k + 1;
    }
    Ok(out)
}

/// Converts a Python document to BSON document fields: the top level must
/// be a `dict` (anything else is a `TypeError` naming its type), converted
/// at path `$`.
pub fn doc_to_fields(obj: &PyValue) -> (r: Result<Vec<DocField>, DocError>)
    ensures
        match *obj {
            PyValue::Dict(items) => match r {
                Ok(fs) => dict_spec(items@, 0, Seq::empty(), "$"@) == DocOutcome::Done(
                    DocModel::Document(fields_view(fs@)),
                ),
                Err(DocError::Type(m)) => dict_spec(items@, 0, Seq::empty(), "$"@)
                    == DocOutcome::TypeErr(m@),
                Err(DocError::Value(m)) => dict_spec(items@, 0, Seq::empty(), "$"@)
                    == DocOutcome::ValueErr(m@),
            },
            _ => r matches Err(DocError::Type(m)) && m@ == "document must be a mapping, got "@
                + py_type_name(*obj),
        },
{
    match obj {
        PyValue::Dict(items) => dict_to_bson(items, "$"),
        _ => Err(
            DocError::Type(
                String::from_str("document must be a mapping, got ").concat(python_type_name(obj)),
            ),
        ),
    }
}

/// The name of a value's Python type.
pub fn python_type_name(v: &PyValue) -> (r: &str)
    ensures
        r@ == py_type_name(*v),
{
    match v {
        PyValue::NoneValue => "NoneType",
        PyValue::Bool(_) => "bool",
        PyValue::Int(_) => "int",
        PyValue::BigInt => "int",
        PyValue::Float(_) => "float",
        PyValue::Str(_) => "str",
        PyValue::Bytes(_) => "bytes",
        PyValue::DateTime(_) => "datetime",
        PyValue::Dict(_) => "dict",
        PyValue::List(_) => "list",
        PyValue::Other(n) => n.as_str(),
    }
}


/// A Python value as mathematics.
pub enum PyModel {
    NoneValue,
    Bool(bool),
    Int(i64),
    BigInt,
    Float(u64),
    Str(Seq<char>),
    Bytes(Seq<u8>),
    DateTime(i64),
    Dict(Seq<(Option<Seq<char>>, PyModel)>),
    List(Seq<PyModel>),
    Other(Seq<char>),
}

/// A Python value as mathematics.
pub open spec fn py_view(v: PyValue) -> PyModel
    decreases v,
{
    match v {
        PyValue::NoneValue => PyModel::NoneValue,
        PyValue::Bool(b) => PyModel::Bool(b),
        PyValue::Int(i) => PyModel::Int(i),
        PyValue::BigInt => PyModel::BigInt,
        PyValue::Float(f) => PyModel::Float(f),
        PyValue::Str(s) => PyModel::Str(s@),
        PyValue::Bytes(b) => PyModel::Bytes(b@),
        PyValue::DateTime(t) => PyModel::DateTime(t),
        PyValue::Dict(items) => PyModel::Dict(
            Seq::new(
                items@.len(),
                |i: int|
                    if 0 <= i < items@.len() {
                        proof {
                            assert(decreases_to!(items => items@));
                            assert(decreases_to!(items@ => items@[i]));
                        }
                        (
                            match items@[i].key {
                                Some(k) => Some(k@),
                                None => None,
                            },
                            py_view(items@[i].value),
                        )
                    } else {
                        (None, PyModel::NoneValue)
                    },
            ),
        ),
        PyValue::List(items) => PyModel::List(
            Seq::new(
                items@.len(),
                |i: int|
                    if 0 <= i < items@.len() {
                        proof {
                            assert(decreases_to!(items => items@));
                        }
                        py_view(items@[i])
                    } else {
                        PyModel::NoneValue
                    },
            ),
        ),
        PyValue::Other(n) => PyModel::Other(n@),
    }
}

/// The Python value a BSON value reads back as: integers of either width
/// as `int`, a document as a `dict` keyed by `str`, an array as a `list`.
pub open spec fn back(m: DocModel) -> PyModel
    decreases m,
{
    match m {
        DocModel::Null => PyModel::NoneValue,
        DocModel::Boolean(b) => PyModel::Bool(b),
        DocModel::Int32(i) => PyModel::Int(i as i64),
        DocModel::Int64(i) => PyModel::Int(i),
        DocModel::Double(f) => PyModel::Float(f),
        DocModel::Str(s) => PyModel::Str(s),
        DocModel::Binary(b) => PyModel::Bytes(b),
        DocModel::DateTime(t) => PyModel::DateTime(t),
        DocModel::Document(fs) => PyModel::Dict(
            Seq::new(
                fs.len(),
                |i: int|
                    if 0 <= i < fs.len() {
                        (Some(fs[i].0), back(fs[i].1))
                    } else {
                        (None, PyModel::NoneValue)
                    },
            ),
        ),
        DocModel::Array(xs) => PyModel::List(
            Seq::new(
                xs.len(),
                |i: int|
                    if 0 <= i < xs.len() {
                        back(xs[i])
                    } else {
                        PyModel::NoneValue
                    },
            ),
        ),
    }
}

/// A Python value that converts to BSON and back unchanged: no `int`
/// beyond 64 bits, no value of another type, and every dict keyed by
/// distinct `str` keys.
pub open spec fn storable(v: PyValue) -> bool
    decreases v,
{
    match v {
        PyValue::BigInt => false,
        PyValue::Other(_) => false,
        PyValue::Dict(items) => (forall|i: int|
            0 <= i < items@.len() ==> (#[trigger] items@[i]).key is Some && storable(
                items@[i].value,
            )) && (forall|i: int, j: int|
            0 <= i < j < items@.len() ==> (#[trigger] items@[i]).key.unwrap()@ != (
            #[trigger] items@[j]).key.unwrap()@),
        PyValue::List(items) => forall|i: int|
            0 <= i < items@.len() ==> storable(#[trigger] items@[i]),
        _ => true,
    }
}

/// Reads a BSON value back as the Python value it stands for.
#[verifier::loop_isolation(false)]
pub fn doc_to_py(d: &DocValue) -> (r: PyValue)
    ensures
        py_view(r) == back(doc_view(*d)),
    decreases *d,
{
    match d {
        DocValue::Null => PyValue::NoneValue,
        DocValue::Boolean(b) => PyValue::Bool(*b),
        DocValue::Int32(i) => PyValue::Int(*i as i64),
        DocValue::Int64(i) => PyValue::Int(*i),
        DocValue::Double(f) => PyValue::Float(*f),
        DocValue::String(s) => PyValue::Str(s.clone()),
        DocValue::Binary(b) => PyValue::Bytes(b.clone()),
        DocValue::DateTime(t) => PyValue::DateTime(*t),
        DocValue::Document(fs) => {
            let mut out: Vec<PyEntry> = Vec::new();
            let mut i: usize = 0;
            while i < fs.len()
                invariant
                    i <= fs@.len(),
                    out@.len() == i,
                    forall|j: int|
                        0 <= j < i ==> ((#[trigger] out@[j]).key matches Some(k) && k@ == fs@[j].key@
                            && py_view(out@[j].value) == back(doc_view(fs@[j].value))),
                decreases fs@.len() - i,
            {
                proof {
                    assert(decreases_to!(*d => *fs));
                    assert(decreases_to!(*fs => fs@));
                    assert(decreases_to!(fs@ => fs@[i as int]));
                    assert(decreases_to!(fs@[i as int] => fs@[i as int].value));
                }
                let v = doc_to_py(&fs[i].value);
                out.push(PyEntry { key: Some(fs[i].key.clone()), value: v });
                i = i + 1;
            }
            let ghost o = out@;
            let r = PyValue::Dict(out);
            proof {
                let m = doc_view(*d);
                assert(m->Document_0 =~= Seq::new(
                    fs@.len(),
                    |i: int|
                        if 0 <= i < fs@.len() {
                            (fs@[i].key@, doc_view(fs@[i].value))
                        } else {
                            (Seq::empty(), DocModel::Null)
                        },
                ));
                assert(py_view(r)->Dict_0 =~= back(m)->Dict_0);
            }
            r
        },
        DocValue::Array(xs) => {
            let mut out: Vec<PyValue> = Vec::new();
            let mut i: usize = 0;
            while i < xs.len()
                invariant
                    i <= xs@.len(),
                    out@.len() == i,
                    forall|j: int|
                        0 <= j < i ==> py_view(#[trigger] out@[j]) == back(doc_view(xs@[j])),
                decreases xs@.len() - i,
            {
                proof {
                    assert(decreases_to!(*d => *xs));
                    assert(decreases_to!(*xs => xs@));
                    assert(decreases_to!(xs@ => xs@[i as int]));
                }
                let v = doc_to_py(&xs[i]);
                out.push(v);
                i = i + 1;
            }
            let r = PyValue::List(out);
            proof {
                let m = doc_view(*d);
                assert(py_view(r)->List_0 =~= back(m)->List_0);
            }
            r
        },
    }
}


/// A Python document survives storage: a storable value converts to BSON
/// without error, and the BSON reads back as the same Python value.
pub proof fn law_python_roundtrip(v: PyValue, path: Seq<char>)
    requires
        storable(v),
    ensures
        value_spec(v, path) is Done,
        back(value_spec(v, path)->Done_0) == py_view(v),
    decreases v, 0nat,
{
    match v {
        PyValue::Int(i) => {
            if i32::MIN <= i <= i32::MAX {
                assert((i as i32) as i64 == i);
            }
        },
        PyValue::Dict(items) => {
            assert(decreases_to!(items => items@));
            lemma_dict_roundtrip(items@, 0, Seq::empty(), path);
            let fs = dict_spec(items@, 0, Seq::empty(), path)->Done_0->Document_0;
            assert(back(DocModel::Document(fs))->Dict_0 =~= py_view(v)->Dict_0);
        },
        PyValue::List(items) => {
            assert(decreases_to!(items => items@));
            lemma_list_roundtrip(items@, 0, Seq::empty(), path);
            let xs = list_spec(items@, 0, Seq::empty(), path)->Done_0->Array_0;
            assert(back(DocModel::Array(xs))->List_0 =~= py_view(v)->List_0);
        },
        _ => {},
    }
}

/// The fold of a storable dict's entries from `k` on keeps every entry,
/// in order, each reading back as its Python value.
pub proof fn lemma_dict_roundtrip(
    items: Seq<PyEntry>,
    k: int,
    acc: Seq<(Seq<char>, DocModel)>,
    path: Seq<char>,
)
    requires
        0 <= k <= items.len(),
        forall|i: int| 0 <= i < items.len() ==> (#[trigger] items[i]).key is Some && storable(
            items[i].value,
        ),
        forall|i: int, j: int|
            0 <= i < j < items.len() ==> (#[trigger] items[i]).key.unwrap()@ != (
            #[trigger] items[j]).key.unwrap()@,
        acc.len() == k,
        forall|i: int|
            0 <= i < k ==> (#[trigger] acc[i]).0 == items[i].key.unwrap()@ && back(acc[i].1)
                == py_view(items[i].value),
    ensures
        dict_spec(items, k, acc, path) matches DocOutcome::Done(DocModel::Document(fs)) && fs.len()
            == items.len() && forall|i: int|
            0 <= i < items.len() ==> (#[trigger] fs[i]).0 == items[i].key.unwrap()@ && back(
                fs[i].1,
            ) == py_view(items[i].value),
    decreases items, items.len() - k,
{
    if k < items.len() {
        let key = items[k].key.unwrap();
        assert(decreases_to!(items => items[k]));
        law_python_roundtrip(items[k].value, path + "."@ + key@);
        let d = value_spec(items[k].value, path + "."@ + key@)->Done_0;
        assert(!exists|i: int| 0 <= i < acc.len() && #[trigger] acc[i].0 == key@) by {
            assert forall|i: int| 0 <= i < acc.len() implies #[trigger] acc[i].0 != key@ by {
                assert(items[i].key.unwrap()@ != items[k].key.unwrap()@);
            }
        }
        assert(doc_insert(acc, key@, d) == acc.push((key@, d)));
        lemma_dict_roundtrip(items, k + 1, acc.push((key@, d)), path);
    }
}

/// The fold of a storable list's items from `k` on keeps every item, in
/// order, each reading back as its Python value.
pub proof fn lemma_list_roundtrip(items: Seq<PyValue>, k: int, acc: Seq<DocModel>, path: Seq<char>)
    requires
        0 <= k <= items.len(),
        forall|i: int| 0 <= i < items.len() ==> storable(#[trigger] items[i]),
        acc.len() == k,
        forall|i: int| 0 <= i < k ==> back(#[trigger] acc[i]) == py_view(items[i]),
    ensures
        list_spec(items, k, acc, path) matches DocOutcome::Done(DocModel::Array(xs)) && xs.len()
            == items.len() && forall|i: int|
            0 <= i < items.len() ==> back(#[trigger] xs[i]) == py_view(items[i]),
    decreases items, items.len() - k,
{
    if k < items.len() {
        assert(decreases_to!(items => items[k]));
        let child = path + "["@ + dec_text(k as nat) + "]"@;
        law_python_roundtrip(items[k], child);
        let d = value_spec(items[k], child)->Done_0;
        lemma_list_roundtrip(items, k + 1, acc.push(d), path);
    }
}

} // verus!

verus! {

/// A stored BSON element as the reader hands it over: its value, a nested
/// document or array by its own bytes, or an element of another kind by
/// its debug text.
pub enum BsonElem {
    Null,
    Boolean(bool),
    Int32(i32),
    Int64(i64),
    /// A double, by its IEEE-754 bits.
    Double(u64),
    String(String),
    /// The bytes of a binary element (any subtype).
    Binary(Vec<u8>),
    /// Epoch milliseconds.
    DateTime(i64),
    Document(Vec<u8>),
    Array(Vec<u8>),
    Other(String),
}

/// A stored BSON element as mathematics.
pub enum BsonShape {
    Null,
    Boolean(bool),
    Int32(i32),
    Int64(i64),
    Double(u64),
    Str(Seq<char>),
    Binary(Seq<u8>),
    DateTime(i64),
    Document(Seq<u8>),
    Array(Seq<u8>),
    Other(Seq<char>),
}

/// An element as mathematics.
pub open spec fn elem_view(e: BsonElem) -> BsonShape {
    match e {
        BsonElem::Null => BsonShape::Null,
        BsonElem::Boolean(b) => BsonShape::Boolean(b),
        BsonElem::Int32(i) => BsonShape::Int32(i),
        BsonElem::Int64(i) => BsonShape::Int64(i),
        BsonElem::Double(f) => BsonShape::Double(f),
        BsonElem::String(s) => BsonShape::Str(s@),
        BsonElem::Binary(b) => BsonShape::Binary(b@),
        BsonElem::DateTime(t) => BsonShape::DateTime(t),
        BsonElem::Document(b) => BsonShape::Document(b@),
        BsonElem::Array(b) => BsonShape::Array(b@),
        BsonElem::Other(t) => BsonShape::Other(t@),
    }
}

/// Named elements as mathematics.
pub open spec fn elems_view(es: Seq<(String, BsonElem)>) -> Seq<(Seq<char>, BsonShape)> {
    Seq::new(es.len(), |i: int| (es[i].0@, elem_view(es[i].1)))
}

/// What the BSON reader finds in stored bytes: the named elements it reads
/// in order, and the text of the error that stops it, if any.
pub uninterp spec fn bson_parse(bytes: Seq<u8>) -> (Seq<(Seq<char>, BsonShape)>, Option<Seq<char>>);

/// A nested document or array is a part of its parent's bytes, so shorter
/// than the `n` of them.
pub open spec fn nested_within(s: BsonShape, n: nat) -> bool {
    match s {
        BsonShape::Document(b) => b.len() < n,
        BsonShape::Array(b) => b.len() < n,
        _ => true,
    }
}

#[verifier::external_type_specification]
#[verifier::external_body]
pub struct ExRawBsonRef<'a>(RawBsonRef<'a>);

/// One element of a `RawDocument` (a `RawBsonRef`) as a [`BsonElem`], variant
/// for variant; a double by its bits, a nested document or array by its
/// bytes, another kind by its `Debug` text.
#[verifier::external_body]
fn bson_elem(v: RawBsonRef<'_>) -> BsonElem {
    match v {
        RawBsonRef::Null => BsonElem::Null,
        RawBsonRef::Boolean(b) => BsonElem::Boolean(b),
        RawBsonRef::Int32(i) => BsonElem::Int32(i),
        RawBsonRef::Int64(i) => BsonElem::Int64(i),
        RawBsonRef::Double(x) => BsonElem::Double(x.to_bits()),
        RawBsonRef::String(t) => BsonElem::String(t.to_string()),
        RawBsonRef::Binary(b) => BsonElem::Binary(b.bytes.to_vec()),
        RawBsonRef::DateTime(t) => BsonElem::DateTime(t.timestamp_millis()),
        RawBsonRef::Document(d) => BsonElem::Document(d.as_bytes().to_vec()),
        RawBsonRef::Array(a) => BsonElem::Array(a.as_bytes().to_vec()),
        other => BsonElem::Other(format!("{other:?}")),
    }
}

/// `RawDocument::from_bytes` and its element iterator: the elements read in
/// order, and the text of the error that stopped the reading (a bad
/// document, or a bad element), if any. A nested document's or array's
/// bytes are part of the given ones.
#[verifier::external_body]
fn bson_elements(bytes: &[u8]) -> (r: (Vec<(String, BsonElem)>, Option<String>))
    ensures
        (elems_view(r.0@), match r.1 {
            Some(m) => Some(m@),
            None => None,
        }) == bson_parse(bytes@),
        forall|i: int| 0 <= i < r.0@.len() ==> nested_within(elem_view(#[trigger] r.0@[i].1), bytes@.len()),
{
    let raw = match RawDocument::from_bytes(bytes) {
        Ok(d) => d,
        Err(e) => return (Vec::new(), Some(e.to_string())),
    };
    let mut err = None;
    let out = raw.into_iter().map_while(|item| match item {
        Ok((k, v)) => Some((k.as_str().to_string(), bson_elem(v))),
        Err(e) => {
            err = Some(e.to_string());
            None
        },
    }).collect();
    (out, err)
}

/// The message for an element of a kind a document does not hold.
pub open spec fn unexpected_text(t: Seq<char>) -> Seq<char> {
    "unexpected BSON element "@ + t + " in stored document"@
}

/// What one element reads back as, inside bytes `n` long.
pub open spec fn shape_read(s: BsonShape, n: nat) -> Result<DocModel, Seq<char>>
    decreases n, 0nat, 0nat,
{
    match s {
        BsonShape::Null => Ok(DocModel::Null),
        BsonShape::Boolean(b) => Ok(DocModel::Boolean(b)),
        BsonShape::Int32(i) => Ok(DocModel::Int32(i)),
        BsonShape::Int64(i) => Ok(DocModel::Int64(i)),
        BsonShape::Double(f) => Ok(DocModel::Double(f)),
        BsonShape::Str(t) => Ok(DocModel::Str(t)),
        BsonShape::Binary(b) => Ok(DocModel::Binary(b)),
        BsonShape::DateTime(t) => Ok(DocModel::DateTime(t)),
        BsonShape::Document(b) => if b.len() < n {
            match doc_read(b) {
                Ok(fs) => Ok(DocModel::Document(fs)),
                Err(m) => Err(m),
            }
        } else {
            Err(Seq::empty())
        },
        BsonShape::Array(b) => if b.len() < n {
            match doc_read(b) {
                Ok(fs) => Ok(DocModel::Array(fs.map_values(|p: (Seq<char>, DocModel)| p.1))),
                Err(m) => Err(m),
            }
        } else {
            Err(Seq::empty())
        },
        BsonShape::Other(t) => Err(unexpected_text(t)),
    }
}

/// The first `k` elements read back, in order, inside bytes `n` long; the
/// first failure's message.
pub open spec fn elems_read(es: Seq<(Seq<char>, BsonShape)>, n: nat, k: nat) -> Result<
    Seq<(Seq<char>, DocModel)>,
    Seq<char>,
>
    decreases n, 1nat, k,
{
    if k == 0 || k > es.len() {
        Ok(Seq::empty())
    } else {
        match elems_read(es, n, (k - 1) as nat) {
            Err(m) => Err(m),
            Ok(fs) => match shape_read(es[k - 1].1, n) {
                Ok(v) => Ok(fs.push((es[k - 1].0, v))),
                Err(m) => Err(m),
            },
        }
    }
}

/// What stored bytes read back as: each element in order, then the
/// reader's own error, if it stopped on one.
pub open spec fn doc_read(b: Seq<u8>) -> Result<Seq<(Seq<char>, DocModel)>, Seq<char>>
    decreases b.len(), 2nat, 0nat,
{
    let (es, err) = bson_parse(b);
    match elems_read(es, b.len(), es.len()) {
        Err(m) => Err(m),
        Ok(fs) => match err {
            Some(m) => Err(m),
            None => Ok(fs),
        },
    }
}

/// The fields of a stored document read back from its bytes, or the
/// message of the first failure: an element of a kind a document does not
/// hold, or the BSON reader's error.
pub fn doc_fields_from_bytes(bytes: &[u8]) -> (r: Result<Vec<DocField>, String>)
    ensures
        match doc_read(bytes@) {
            Ok(fs) => r matches Ok(v) && doc_view(DocValue::Document(v)) == DocModel::Document(fs),
            Err(m) => r matches Err(e) && e@ == m,
        },
    decreases bytes@.len(), 1nat,
{
    let (elems, err) = bson_elements(bytes);
    let ghost es = elems_view(elems@);
    let ghost n = bytes@.len();
    let mut out: Vec<DocField> = Vec::new();
    let mut rest = elems;
    let ghost all = rest@;
    let ghost mut k: nat = 0;
    assert(doc_view(DocValue::Document(out))->Document_0 =~= Seq::<(Seq<char>, DocModel)>::empty());
    while rest.len() > 0
        invariant
            k <= all.len(),
            n == bytes@.len(),
            bson_parse(bytes@).0 == es,
            rest@ == all.skip(k as int),
            es == elems_view(all),
            forall|i: int| 0 <= i < all.len() ==> nested_within(elem_view(#[trigger] all[i].1), n),
            elems_read(es, n, k) matches Ok(fs) && doc_view(DocValue::Document(out))
                == DocModel::Document(fs),
        decreases rest.len(),
    {
        assert(k < all.len());
        assert(es.len() == all.len());
        let (key, e) = rest.remove(0);
        assert((key, e) == all[k as int]);
        assert(nested_within(elem_view(all[k as int].1), n));
        assert(elem_view(e) == es[k as int].1);
        let ghost prev = out@;
        let v = match elem_value(e, bytes) {
            Ok(v) => v,
            Err(m) => {
                proof {
                    assert(elems_read(es, n, k + 1) == Err::<Seq<(Seq<char>, DocModel)>, Seq<char>>(m@));
                    lemma_elems_read_stops(es, n, k + 1, all.len());
                }
                return Err(m);
            },
        };
        let ghost kv = key@;
        out.push(DocField { key, value: v });
        proof {
            let fs = elems_read(es, n, k)->Ok_0;
            assert(elems_read(es, n, k + 1) == Ok::<Seq<(Seq<char>, DocModel)>, Seq<char>>(
                fs.push((kv, doc_view(v))),
            ));
            assert(doc_view(DocValue::Document(out)) =~= DocModel::Document(fs.push((kv, doc_view(v)))))
                by {
                let a = doc_view(DocValue::Document(out))->Document_0;
                assert forall|i: int| 0 <= i < a.len() implies a[i] == fs.push((kv, doc_view(v)))[i] by {
                    if i < prev.len() {
                        assert(out@[i] == prev[i]);
                    }
                }
                assert(a =~= fs.push((kv, doc_view(v))));
            }
            k = k + 1;
        }
    }
    assert(k == all.len());
    match err {
        Some(m) => Err(m),
        None => Ok(out),
    }
}

} // verus!

verus! {

/// Once the first `k` elements fail, the longer runs fail with the same
/// message.
proof fn lemma_elems_read_stops(es: Seq<(Seq<char>, BsonShape)>, n: nat, k: nat, j: nat)
    requires
        k <= j <= es.len(),
        elems_read(es, n, k) is Err,
    ensures
        elems_read(es, n, j) == elems_read(es, n, k),
    decreases j - k,
{
    if j > k {
        lemma_elems_read_stops(es, n, k, (j - 1) as nat);
    }
}

/// What one element of the stored bytes `parent` reads back as: its value,
/// a nested document or array read from its own bytes, or the message of
/// the first failure.
fn elem_value(e: BsonElem, parent: &[u8]) -> (r: Result<DocValue, String>)
    requires
        nested_within(elem_view(e), parent@.len()),
    ensures
        match shape_read(elem_view(e), parent@.len()) {
            Ok(d) => r matches Ok(v) && doc_view(v) == d,
            Err(m) => r matches Err(t) && t@ == m,
        },
    decreases parent@.len(), 0nat,
{
    match e {
        BsonElem::Null => Ok(DocValue::Null),
        BsonElem::Boolean(b) => Ok(DocValue::Boolean(b)),
        BsonElem::Int32(i) => Ok(DocValue::Int32(i)),
        BsonElem::Int64(i) => Ok(DocValue::Int64(i)),
        BsonElem::Double(f) => Ok(DocValue::Double(f)),
        BsonElem::String(t) => Ok(DocValue::String(t)),
        BsonElem::Binary(b) => Ok(DocValue::Binary(b)),
        BsonElem::DateTime(t) => Ok(DocValue::DateTime(t)),
        BsonElem::Document(b) => match doc_fields_from_bytes(b.as_slice()) {
            Ok(fs) => Ok(DocValue::Document(fs)),
            Err(m) => Err(m),
        },
        BsonElem::Array(b) => match doc_fields_from_bytes(b.as_slice()) {
            Ok(fs) => Ok(field_values(fs)),
            Err(m) => Err(m),
        },
        BsonElem::Other(t) => Err(
            String::from_str("unexpected BSON element ").concat(t.as_str()).concat(
                " in stored document",
            ),
        ),
    }
}

/// The values of fields, in order, as an array.
fn field_values(fs: Vec<DocField>) -> (r: DocValue)
    ensures
        doc_view(r) == DocModel::Array(
            (doc_view(DocValue::Document(fs))->Document_0).map_values(
                |p: (Seq<char>, DocModel)| p.1,
            ),
        ),
{
    let ghost all = fs@;
    let ghost want = (doc_view(DocValue::Document(fs))->Document_0).map_values(
        |p: (Seq<char>, DocModel)| p.1,
    );
    let mut out: Vec<DocValue> = Vec::new();
    let mut rest = fs;
    let ghost mut k: int = 0;
    while rest.len() > 0
        invariant
            0 <= k <= all.len(),
            rest@ == all.skip(k),
            want.len() == all.len(),
            forall|i: int| 0 <= i < all.len() ==> want[i] == doc_view(#[trigger] all[i].value),
            out@.len() == k,
            forall|i: int| 0 <= i < k ==> doc_view(#[trigger] out@[i]) == want[i],
        decreases rest.len(),
    {
        let f = rest.remove(0);
        assert(f == all[k]);
        out.push(f.value);
        proof {
            k = k + 1;
        }
    }
    let r = DocValue::Array(out);
    assert(doc_view(r)->Array_0 =~= want);
    r
}

/// Reads stored BSON bytes back as a document, or gives the message of the
/// failure (the module's own error): an element of a kind a document does
/// not hold, or the BSON reader's error.
pub fn doc_from_bytes(bytes: &[u8]) -> (r: Result<DocValue, String>)
    ensures
        match doc_read(bytes@) {
            Ok(fs) => r matches Ok(v) && doc_view(v) == DocModel::Document(fs),
            Err(m) => r matches Err(e) && e@ == m,
        },
{
    match doc_fields_from_bytes(bytes) {
        Ok(fs) => Ok(DocValue::Document(fs)),
        Err(m) => Err(m),
    }
}

} // verus!

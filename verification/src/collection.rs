//! Collections: tables of an open write transaction mapping order-preserving
//! key bytes to document bytes, read and written as a mapping. A collection
//! that does not exist reads as empty, and a failed delete never creates it.
use redb::{ReadableTable, ReadableTableMetadata, TableDefinition, TableHandle, WriteTransaction};
use std::ops::Bound;
use vstd::prelude::*;

use crate::keys::{
    encode, key_enc, law_successor_bounds_extensions, law_successor_range_is_extensions, successor,
    successor_spec, KeyPart,
};
use crate::order::{lemma_lex_asymmetric, lemma_lex_irreflexive, lemma_lex_total, lex_lt};
use crate::value::str_eq;

verus! {

#[verifier::external_type_specification]
#[verifier::external_body]
pub struct ExWriteTransaction(redb::WriteTransaction);

/// What the table named `name` holds in the transaction `txn`: each key's
/// bytes to its document's bytes. A table that does not exist holds nothing.
pub uninterp spec fn table_contents(txn: WriteTransaction, name: Seq<char>) -> Map<
    Seq<u8>,
    Seq<u8>,
>;

/// Why a collection operation failed: the collection name is empty, the
/// key (or the collection) is not there, or the storage engine reported an
/// error, with its text.
#[derive(Debug)]
pub enum StoreError {
    EmptyName,
    Missing,
    Storage(String),
}

/// `k` lies in the half-open range from `lo` (inclusive) to `hi`
/// (exclusive), either end open when `None`.
pub open spec fn in_bounds(k: Seq<u8>, lo: Option<Seq<u8>>, hi: Option<Seq<u8>>) -> bool {
    &&& (lo matches Some(l) ==> !lex_lt(k, l))
    &&& (hi matches Some(h) ==> lex_lt(k, h))
}

/// `es` is every entry of `m` whose key lies in the range, each once, in
/// ascending key order.
pub open spec fn range_entries(
    es: Seq<(Vec<u8>, Vec<u8>)>,
    m: Map<Seq<u8>, Seq<u8>>,
    lo: Option<Seq<u8>>,
    hi: Option<Seq<u8>>,
) -> bool {
    &&& forall|i: int|
        0 <= i < es.len() ==> in_bounds((#[trigger] es[i]).0@, lo, hi) && m.contains_key(es[i].0@)
            && m[es[i].0@] == es[i].1@
    &&& forall|i: int, j: int| 0 <= i < j < es.len() ==> lex_lt(es[i].0@, es[j].0@)
    &&& forall|k: Seq<u8>|
        m.contains_key(k) && in_bounds(k, lo, hi) ==> exists|i: int|
            0 <= i < es.len() && (#[trigger] es[i]).0@ == k
}

/// `names` holds the name of every table of `txn` that holds anything.
pub open spec fn names_all_tables(txn: WriteTransaction, names: Seq<String>) -> bool {
    forall|n: Seq<char>|
        (forall|i: int| 0 <= i < names.len() ==> (#[trigger] names[i])@ != n) ==> table_contents(
            txn,
            n,
        ) == Map::<Seq<u8>, Seq<u8>>::empty()
}

/// `e` is the entry of `m` with the smallest key (the largest when `last`),
/// or `None` when `m` is empty.
pub open spec fn end_entry(e: Option<(Vec<u8>, Vec<u8>)>, m: Map<Seq<u8>, Seq<u8>>, last: bool) -> bool {
    match e {
        Some((k, v)) => {
            &&& m.contains_key(k@)
            &&& m[k@] == v@
            &&& forall|x: Seq<u8>|
                #[trigger] m.contains_key(x) ==> if last {
                    !lex_lt(k@, x)
                } else {
                    !lex_lt(x, k@)
                }
        },
        None => m.dom().is_empty(),
    }
}

/// The names of the transaction's tables (`TableHandle::name` of each of
/// `WriteTransaction::list_tables`): a table whose name is not among them
/// holds nothing.
#[verifier::external_body]
fn table_names(txn: &WriteTransaction) -> (r: Result<Vec<String>, String>)
    ensures
        r matches Ok(names) ==> names_all_tables(*txn, names@),
{
    match txn.list_tables() {
        Ok(ts) => Ok(ts.map(|h| h.name().to_string()).collect()),
        Err(e) => Err(e.to_string()),
    }
}

/// `Table::get` on the table `name` (`WriteTransaction::open_table`, which
/// creates a missing table, empty): the document stored under `key`, if any.
#[verifier::external_body]
fn table_get(txn: &WriteTransaction, name: &str, key: &[u8]) -> (r: Result<Option<Vec<u8>>, String>)
    requires
        name@.len() > 0,
    ensures
        r matches Ok(v) ==> match v {
            Some(d) => table_contents(*txn, name@).contains_key(key@) && table_contents(
                *txn,
                name@,
            )[key@] == d@,
            None => !table_contents(*txn, name@).contains_key(key@),
        },
{
    let def: TableDefinition<&[u8], &[u8]> = TableDefinition::new(name);
    let t = match txn.open_table(def) {
        Ok(t) => t,
        Err(e) => return Err(e.to_string()),
    };
    let r = match t.get(key) {
        Ok(g) => Ok(g.map(|v| v.value().to_vec())),
        Err(e) => Err(e.to_string()),
    };
    r
}

/// `Table::insert` on the table `name`: maps `key` to `value`, replacing
/// what was there; no other table changes.
#[verifier::external_body]
fn table_insert(txn: &mut WriteTransaction, name: &str, key: &[u8], value: &[u8]) -> (r: Result<
    (),
    String,
>)
    requires
        name@.len() > 0,
    ensures
        r is Ok ==> table_contents(*final(txn), name@) == table_contents(*old(txn), name@).insert(
            key@,
            value@,
        ),
        r is Ok ==> forall|n: Seq<char>|
            n != name@ ==> #[trigger] table_contents(*final(txn), n) == table_contents(*old(txn), n),
{
    let def: TableDefinition<&[u8], &[u8]> = TableDefinition::new(name);
    let mut t = match txn.open_table(def) {
        Ok(t) => t,
        Err(e) => return Err(e.to_string()),
    };
    let r = match t.insert(key, value) {
        Ok(_) => Ok(()),
        Err(e) => Err(e.to_string()),
    };
    r
}

/// `Table::remove` on the table `name`: drops `key`, and says whether it
/// was there; no other table changes.
#[verifier::external_body]
fn table_remove(txn: &mut WriteTransaction, name: &str, key: &[u8]) -> (r: Result<bool, String>)
    requires
        name@.len() > 0,
    ensures
        r matches Ok(was) ==> was == table_contents(*old(txn), name@).contains_key(key@),
        r is Ok ==> table_contents(*final(txn), name@) == table_contents(*old(txn), name@).remove(
            key@,
        ),
        r is Ok ==> forall|n: Seq<char>|
            n != name@ ==> #[trigger] table_contents(*final(txn), n) == table_contents(*old(txn), n),
{
    let def: TableDefinition<&[u8], &[u8]> = TableDefinition::new(name);
    let mut t = match txn.open_table(def) {
        Ok(t) => t,
        Err(e) => return Err(e.to_string()),
    };
    let r = match t.remove(key) {
        Ok(g) => Ok(g.is_some()),
        Err(e) => Err(e.to_string()),
    };
    r
}

/// `ReadableTableMetadata::len` of the table `name`: how many entries it
/// holds.
#[verifier::external_body]
fn table_len(txn: &WriteTransaction, name: &str) -> (r: Result<u64, String>)
    requires
        name@.len() > 0,
    ensures
        r matches Ok(n) ==> n == table_contents(*txn, name@).len(),
{
    let def: TableDefinition<&[u8], &[u8]> = TableDefinition::new(name);
    let t = match txn.open_table(def) {
        Ok(t) => t,
        Err(e) => return Err(e.to_string()),
    };
    let r = match t.len() {
        Ok(n) => Ok(n),
        Err(e) => Err(e.to_string()),
    };
    r
}

/// `ReadableTable::range` over the table `name` from `lo` (inclusive) to
/// `hi` (exclusive): its entries there, in ascending key order.
#[verifier::external_body]
fn table_range(txn: &WriteTransaction, name: &str, lo: Option<&[u8]>, hi: Option<&[u8]>) -> (r:
    Result<Vec<(Vec<u8>, Vec<u8>)>, String>)
    requires
        name@.len() > 0,
    ensures
        r matches Ok(es) ==> range_entries(
            es@,
            table_contents(*txn, name@),
            match lo {
                Some(l) => Some(l@),
                None => None,
            },
            match hi {
                Some(h) => Some(h@),
                None => None,
            },
        ),
{
    let def: TableDefinition<&[u8], &[u8]> = TableDefinition::new(name);
    let t = match txn.open_table(def) {
        Ok(t) => t,
        Err(e) => return Err(e.to_string()),
    };
    let b = (lo.map_or(Bound::Unbounded, Bound::Included), hi.map_or(Bound::Unbounded, Bound::Excluded));
    let it = match t.range::<&[u8]>(b) {
        Ok(it) => it,
        Err(e) => return Err(e.to_string()),
    };
    let r = it.map(|e| e.map(|(k, v)| (k.value().to_vec(), v.value().to_vec())).map_err(|e| e.to_string())).collect();
    r
}

/// `ReadableTable::first` of the table `name`: its entry with the smallest
/// key, if any.
#[verifier::external_body]
fn table_first(txn: &WriteTransaction, name: &str) -> (r: Result<Option<(Vec<u8>, Vec<u8>)>, String>)
    requires
        name@.len() > 0,
    ensures
        r matches Ok(e) ==> end_entry(e, table_contents(*txn, name@), false),
{
    let def: TableDefinition<&[u8], &[u8]> = TableDefinition::new(name);
    let t = match txn.open_table(def) {
        Ok(t) => t,
        Err(e) => return Err(e.to_string()),
    };
    let r = match t.first() {
        Ok(e) => Ok(e.map(|(k, v)| (k.value().to_vec(), v.value().to_vec()))),
        Err(e) => Err(e.to_string()),
    };
    r
}

/// `ReadableTable::last` of the table `name`: its entry with the largest
/// key, if any.
#[verifier::external_body]
fn table_last(txn: &WriteTransaction, name: &str) -> (r: Result<Option<(Vec<u8>, Vec<u8>)>, String>)
    requires
        name@.len() > 0,
    ensures
        r matches Ok(e) ==> end_entry(e, table_contents(*txn, name@), true),
{
    let def: TableDefinition<&[u8], &[u8]> = TableDefinition::new(name);
    let t = match txn.open_table(def) {
        Ok(t) => t,
        Err(e) => return Err(e.to_string()),
    };
    let r = match t.last() {
        Ok(e) => Ok(e.map(|(k, v)| (k.value().to_vec(), v.value().to_vec()))),
        Err(e) => Err(e.to_string()),
    };
    r
}

/// Whether the transaction has a table named `name`; a missing one holds
/// nothing.
fn table_exists(txn: &WriteTransaction, name: &str) -> (r: Result<bool, StoreError>)
    ensures
        r matches Ok(false) ==> table_contents(*txn, name@) == Map::<Seq<u8>, Seq<u8>>::empty(),
        r is Err ==> r matches Err(StoreError::Storage(_)),
{
    let names = match table_names(txn) {
        Ok(n) => n,
        Err(m) => {
            return Err(StoreError::Storage(m));
        },
    };
    let mut i: usize = 0;
    while i < names.len()
        invariant
            i <= names@.len(),
            forall|j: int| 0 <= j < i ==> (#[trigger] names@[j])@ != name@,
        decreases names@.len() - i,
    {
        if str_eq(names[i].as_str(), name) {
            return Ok(true);
        }
        i = i + 1;
    }
    Ok(false)
}

/// Checks a collection name: an empty one is refused.
pub fn check_name(name: &str) -> (r: Result<(), StoreError>)
    ensures
        r is Ok <==> name@.len() > 0,
        r is Err ==> r matches Err(StoreError::EmptyName),
{
    if name.is_empty() {
        Err(StoreError::EmptyName)
    } else {
        Ok(())
    }
}

/// What `get` of `key` from the collection `name` holding `m` gives:
/// `EmptyName` exactly for an empty name; a document only when `m` maps the
/// key's encoding to it; `Missing` only when `m` holds nothing under it.
pub open spec fn get_outcome(
    m: Map<Seq<u8>, Seq<u8>>,
    name: Seq<char>,
    key: Seq<KeyPart>,
    r: Result<Vec<u8>, StoreError>,
) -> bool {
    &&& (r matches Err(StoreError::EmptyName) <==> name.len() == 0)
    &&& (r matches Ok(d) ==> m.contains_key(key_enc(key)) && m[key_enc(key)] == d@)
    &&& (r matches Err(StoreError::Missing) ==> !m.contains_key(key_enc(key)))
}

/// What `contains` of `key` in the collection `name` holding `m` gives:
/// `EmptyName` exactly for an empty name, else whether `m` holds the key's
/// encoding, or a storage error.
pub open spec fn contains_outcome(
    m: Map<Seq<u8>, Seq<u8>>,
    name: Seq<char>,
    key: Seq<KeyPart>,
    r: Result<bool, StoreError>,
) -> bool {
    &&& (r matches Err(StoreError::EmptyName) <==> name.len() == 0)
    &&& (r matches Ok(b) ==> b == m.contains_key(key_enc(key)))
    &&& (r is Err ==> r matches Err(StoreError::Storage(_)) || r matches Err(StoreError::EmptyName))
}

/// A read gives back what was written. Once `put` has stored `doc` under
/// `key` (leaving `m.insert(key_enc(key), doc)`), `get` of `key` yields
/// `doc` or a storage error, never `Missing`, and `contains` says true;
/// once `delete` has removed it (leaving `m.remove(key_enc(key))`), `get`
/// yields `Missing` or a storage error and `contains` says false.
pub proof fn law_get_and_contains_follow_writes(
    m: Map<Seq<u8>, Seq<u8>>,
    name: Seq<char>,
    key: Seq<KeyPart>,
    doc: Seq<u8>,
    g: Result<Vec<u8>, StoreError>,
    c: Result<bool, StoreError>,
    g2: Result<Vec<u8>, StoreError>,
    c2: Result<bool, StoreError>,
)
    requires
        name.len() > 0,
    ensures
        get_outcome(m.insert(key_enc(key), doc), name, key, g) ==> (g matches Ok(d) ==> d@ == doc)
            && (g is Err ==> g matches Err(StoreError::Storage(_))),
        contains_outcome(m.insert(key_enc(key), doc), name, key, c) ==> (c matches Ok(b) ==> b),
        get_outcome(m.remove(key_enc(key)), name, key, g2) ==> !(g2 is Ok),
        contains_outcome(m.remove(key_enc(key)), name, key, c2) ==> (c2 matches Ok(b) ==> !b),
{
}

/// The bounds of a `[start, stop)` range of keys: each given end encoded,
/// an absent one open.
pub fn range_bounds(start: Option<&[KeyPart]>, stop: Option<&[KeyPart]>) -> (r: (
    Option<Vec<u8>>,
    Option<Vec<u8>>,
))
    ensures
        match start {
            Some(s) => r.0 matches Some(b) && b@ == key_enc(s@),
            None => r.0 is None,
        },
        match stop {
            Some(s) => r.1 matches Some(b) && b@ == key_enc(s@),
            None => r.1 is None,
        },
{
    let lo = match start {
        Some(s) => Some(encode(s)),
        None => None,
    };
    let hi = match stop {
        Some(s) => Some(encode(s)),
        None => None,
    };
    (lo, hi)
}

/// The bounds of a prefix scan from the raw prefix `p`: `p` itself
/// (inclusive) to its successor (exclusive), open above when `p` has none
/// (all `FF`).
pub fn prefix_bounds(p: &[u8]) -> (r: (Vec<u8>, Option<Vec<u8>>))
    ensures
        r.0@ == p@,
        match successor_spec(p@) {
            Some(s) => r.1 matches Some(b) && b@ == s,
            None => r.1 is None,
        },
{
    (vstd::slice::slice_to_vec(p), successor(p))
}

/// The document stored under `key` in the collection `name`; `Missing` when
/// the key or the collection is absent.
pub fn get(txn: &WriteTransaction, name: &str, key: &[KeyPart]) -> (r: Result<Vec<u8>, StoreError>)
    ensures
        get_outcome(table_contents(*txn, name@), name@, key@, r),
{
    match check_name(name) {
        Ok(()) => {},
        Err(e) => {
            return Err(e);
        },
    }
    let k = encode(key);
    match table_exists(txn, name) {
        Ok(true) => {},
        Ok(false) => {
            return Err(StoreError::Missing);
        },
        Err(e) => {
            return Err(e);
        },
    }
    match table_get(txn, name, k.as_slice()) {
        Ok(Some(d)) => Ok(d),
        Ok(None) => Err(StoreError::Missing),
        Err(m) => Err(StoreError::Storage(m)),
    }
}

/// Stores `doc` under `key` in the collection `name` (creating it),
/// replacing what was there.
pub fn put(txn: &mut WriteTransaction, name: &str, key: &[KeyPart], doc: &[u8]) -> (r: Result<
    (),
    StoreError,
>)
    ensures
        r matches Err(StoreError::EmptyName) <==> name@.len() == 0,
        r is Ok ==> table_contents(*final(txn), name@) == table_contents(*old(txn), name@).insert(
            key_enc(key@),
            doc@,
        ),
        r is Ok ==> forall|n: Seq<char>|
            n != name@ ==> #[trigger] table_contents(*final(txn), n) == table_contents(*old(txn), n),
        r is Err ==> r matches Err(StoreError::Storage(_)) || r matches Err(StoreError::EmptyName),
{
    match check_name(name) {
        Ok(()) => {},
        Err(e) => {
            return Err(e);
        },
    }
    let k = encode(key);
    match table_insert(txn, name, k.as_slice(), doc) {
        Ok(()) => Ok(()),
        Err(m) => Err(StoreError::Storage(m)),
    }
}

/// Deletes the entry under `key` from the collection `name`; `Missing` when
/// the key or the collection is absent, in which case nothing changes and
/// a missing collection is not created.
pub fn delete(txn: &mut WriteTransaction, name: &str, key: &[KeyPart]) -> (r: Result<
    (),
    StoreError,
>)
    ensures
        r matches Err(StoreError::EmptyName) <==> name@.len() == 0,
        r is Ok ==> table_contents(*old(txn), name@).contains_key(key_enc(key@)),
        r is Ok ==> table_contents(*final(txn), name@) == table_contents(*old(txn), name@).remove(
            key_enc(key@),
        ),
        r matches Err(StoreError::Missing) ==> !table_contents(*old(txn), name@).contains_key(
            key_enc(key@),
        ) && table_contents(*final(txn), name@) == table_contents(*old(txn), name@),
        !(r matches Err(StoreError::Storage(_))) ==> forall|n: Seq<char>|
            n != name@ ==> #[trigger] table_contents(*final(txn), n) == table_contents(*old(txn), n),
{
    match check_name(name) {
        Ok(()) => {},
        Err(e) => {
            return Err(e);
        },
    }
    let k = encode(key);
    match table_exists(txn, name) {
        Ok(true) => {},
        Ok(false) => {
            return Err(StoreError::Missing);
        },
        Err(e) => {
            return Err(e);
        },
    }
    match table_remove(txn, name, k.as_slice()) {
        Ok(true) => Ok(()),
        Ok(false) => {
            proof {
                let m = table_contents(*old(txn), name@);
                assert(m.remove(key_enc(key@)) =~= m);
            }
            Err(StoreError::Missing)
        },
        Err(m) => Err(StoreError::Storage(m)),
    }
}

/// Whether the collection `name` holds an entry under `key` (an absent
/// collection holds none).
pub fn contains(txn: &WriteTransaction, name: &str, key: &[KeyPart]) -> (r: Result<bool, StoreError>)
    ensures
        contains_outcome(table_contents(*txn, name@), name@, key@, r),
{
    match check_name(name) {
        Ok(()) => {},
        Err(e) => {
            return Err(e);
        },
    }
    let k = encode(key);
    match table_exists(txn, name) {
        Ok(true) => {},
        Ok(false) => {
            return Ok(false);
        },
        Err(e) => {
            return Err(e);
        },
    }
    match table_get(txn, name, k.as_slice()) {
        Ok(d) => Ok(d.is_some()),
        Err(m) => Err(StoreError::Storage(m)),
    }
}

/// How many entries the collection `name` holds (none when absent).
pub fn len(txn: &WriteTransaction, name: &str) -> (r: Result<u64, StoreError>)
    ensures
        r matches Err(StoreError::EmptyName) <==> name@.len() == 0,
        r matches Ok(n) ==> n == table_contents(*txn, name@).len(),
        r is Err ==> r matches Err(StoreError::Storage(_)) || r matches Err(StoreError::EmptyName),
{
    match check_name(name) {
        Ok(()) => {},
        Err(e) => {
            return Err(e);
        },
    }
    match table_exists(txn, name) {
        Ok(true) => {},
        Ok(false) => {
            return Ok(0);
        },
        Err(e) => {
            return Err(e);
        },
    }
    match table_len(txn, name) {
        Ok(n) => Ok(n),
        Err(m) => Err(StoreError::Storage(m)),
    }
}

/// The entries of the collection `name` from `lo` (inclusive) to `hi`
/// (exclusive), in ascending key order (none when it is absent).
pub fn scan(txn: &WriteTransaction, name: &str, lo: Option<&[u8]>, hi: Option<&[u8]>) -> (r: Result<
    Vec<(Vec<u8>, Vec<u8>)>,
    StoreError,
>)
    ensures
        r matches Err(StoreError::EmptyName) <==> name@.len() == 0,
        r matches Ok(es) ==> range_entries(
            es@,
            table_contents(*txn, name@),
            match lo {
                Some(l) => Some(l@),
                None => None,
            },
            match hi {
                Some(h) => Some(h@),
                None => None,
            },
        ),
        r is Err ==> r matches Err(StoreError::Storage(_)) || r matches Err(StoreError::EmptyName),
{
    match check_name(name) {
        Ok(()) => {},
        Err(e) => {
            return Err(e);
        },
    }
    match table_exists(txn, name) {
        Ok(true) => {},
        Ok(false) => {
            return Ok(Vec::new());
        },
        Err(e) => {
            return Err(e);
        },
    }
    match table_range(txn, name, lo, hi) {
        Ok(es) => Ok(es),
        Err(m) => Err(StoreError::Storage(m)),
    }
}

/// The entries of the collection `name` whose keys lie in `[start, stop)`,
/// either end open when absent, in ascending key order.
pub fn range(txn: &WriteTransaction, name: &str, start: Option<&[KeyPart]>, stop: Option<&[KeyPart]>) -> (r:
    Result<Vec<(Vec<u8>, Vec<u8>)>, StoreError>)
    ensures
        r matches Err(StoreError::EmptyName) <==> name@.len() == 0,
        r matches Ok(es) ==> range_entries(
            es@,
            table_contents(*txn, name@),
            match start {
                Some(s) => Some(key_enc(s@)),
                None => None,
            },
            match stop {
                Some(s) => Some(key_enc(s@)),
                None => None,
            },
        ),
        r is Err ==> r matches Err(StoreError::Storage(_)) || r matches Err(StoreError::EmptyName),
{
    let (lo, hi) = range_bounds(start, stop);
    let l = match &lo {
        Some(b) => Some(b.as_slice()),
        None => None,
    };
    let h = match &hi {
        Some(b) => Some(b.as_slice()),
        None => None,
    };
    scan(txn, name, l, h)
}

/// The entries of the collection `name` whose keys begin with the raw
/// prefix `p`, in ascending key order.
pub fn prefix(txn: &WriteTransaction, name: &str, p: &[u8]) -> (r: Result<
    Vec<(Vec<u8>, Vec<u8>)>,
    StoreError,
>)
    ensures
        r matches Err(StoreError::EmptyName) <==> name@.len() == 0,
        r matches Ok(es) ==> range_entries(
            es@,
            table_contents(*txn, name@),
            Some(p@),
            successor_spec(p@),
        ),
        r is Err ==> r matches Err(StoreError::Storage(_)) || r matches Err(StoreError::EmptyName),
{
    let (lo, hi) = prefix_bounds(p);
    let h = match &hi {
        Some(b) => Some(b.as_slice()),
        None => None,
    };
    scan(txn, name, Some(lo.as_slice()), h)
}

/// The entry of the collection `name` with the smallest key (the largest
/// when `last`), or `None` when it is empty or absent.
fn end(txn: &WriteTransaction, name: &str, last: bool) -> (r: Result<
    Option<(Vec<u8>, Vec<u8>)>,
    StoreError,
>)
    ensures
        r matches Err(StoreError::EmptyName) <==> name@.len() == 0,
        r matches Ok(e) ==> end_entry(e, table_contents(*txn, name@), last),
        r is Err ==> r matches Err(StoreError::Storage(_)) || r matches Err(StoreError::EmptyName),
{
    match check_name(name) {
        Ok(()) => {},
        Err(e) => {
            return Err(e);
        },
    }
    match table_exists(txn, name) {
        Ok(true) => {},
        Ok(false) => {
            assert(table_contents(*txn, name@).dom() =~= Set::<Seq<u8>>::empty());
            return Ok(None);
        },
        Err(e) => {
            return Err(e);
        },
    }
    let got = if last {
        table_last(txn, name)
    } else {
        table_first(txn, name)
    };
    match got {
        Ok(e) => Ok(e),
        Err(m) => Err(StoreError::Storage(m)),
    }
}

/// The entry of the collection `name` with the smallest key, or `None` when
/// it is empty or absent.
pub fn first(txn: &WriteTransaction, name: &str) -> (r: Result<Option<(Vec<u8>, Vec<u8>)>, StoreError>)
    ensures
        r matches Err(StoreError::EmptyName) <==> name@.len() == 0,
        r matches Ok(e) ==> end_entry(e, table_contents(*txn, name@), false),
        r is Err ==> r matches Err(StoreError::Storage(_)) || r matches Err(StoreError::EmptyName),
{
    end(txn, name, false)
}

/// The entry of the collection `name` with the largest key, or `None` when
/// it is empty or absent.
pub fn last(txn: &WriteTransaction, name: &str) -> (r: Result<Option<(Vec<u8>, Vec<u8>)>, StoreError>)
    ensures
        r matches Err(StoreError::EmptyName) <==> name@.len() == 0,
        r matches Ok(e) ==> end_entry(e, table_contents(*txn, name@), true),
        r is Err ==> r matches Err(StoreError::Storage(_)) || r matches Err(StoreError::EmptyName),
{
    end(txn, name, true)
}

/// A read gives back the last write: once a document is stored under a
/// key, the collection maps that key to it and every other key as before;
/// once the key is deleted, the collection holds nothing under it and
/// every other key as before.
pub proof fn law_read_after_write(
    m: Map<Seq<u8>, Seq<u8>>,
    key: Seq<KeyPart>,
    doc: Seq<u8>,
    other: Seq<u8>,
)
    ensures
        m.insert(key_enc(key), doc).contains_key(key_enc(key)),
        m.insert(key_enc(key), doc)[key_enc(key)] == doc,
        !m.remove(key_enc(key)).contains_key(key_enc(key)),
        other != key_enc(key) ==> (m.insert(key_enc(key), doc).contains_key(other)
            == m.contains_key(other) && m.remove(key_enc(key)).contains_key(other)
            == m.contains_key(other)),
        other != key_enc(key) && m.contains_key(other) ==> m.insert(key_enc(key), doc)[other]
            == m[other] && m.remove(key_enc(key))[other] == m[other],
{
}

/// A prefix scan holds exactly the entries whose keys extend the prefix: a
/// key lies in the scan's bounds if and only if the prefix begins it.
pub proof fn law_prefix_scan_is_extensions(p: Seq<u8>, k: Seq<u8>)
    ensures
        in_bounds(k, Some(p), successor_spec(p)) <==> p.is_prefix_of(k),
{
    if in_bounds(k, Some(p), successor_spec(p)) {
        lemma_lex_total(p, k);
        law_successor_range_is_extensions(p, k);
    }
    if p.is_prefix_of(k) {
        let rest = k.skip(p.len() as int);
        assert(k =~= p + rest);
        law_successor_bounds_extensions(p, rest);
        if p == k {
            lemma_lex_irreflexive(k);
        } else {
            lemma_lex_asymmetric(p, k);
        }
    }
}

/// The entries in reverse order.
pub fn reversed(es: Vec<(Vec<u8>, Vec<u8>)>) -> (r: Vec<(Vec<u8>, Vec<u8>)>)
    ensures
        r@ == es@.reverse(),
{
    let mut out: Vec<(Vec<u8>, Vec<u8>)> = Vec::new();
    let mut rest = es;
    let ghost all = rest@;
    while rest.len() > 0
        invariant
            out@ + rest@.reverse() == all.reverse(),
        decreases rest@.len(),
    {
        let ghost before = rest@;
        let e = rest.pop().unwrap();
        proof {
            assert(before =~= rest@.push(e));
            assert(before.reverse() =~= seq![e] + rest@.reverse());
            assert(out@.push(e) + rest@.reverse() =~= out@ + before.reverse());
        }
        out.push(e);
    }
    assert(rest@.reverse() =~= Seq::<(Vec<u8>, Vec<u8>)>::empty());
    assert(out@ =~= all.reverse());
    out
}

} // verus!

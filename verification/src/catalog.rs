//! The catalog's schema cache: table name → definition, captured at one
//! catalog generation.
//!
//! Table definitions live as rows of the catalog table; scanning those rows
//! and parsing their stored DDL is the cold path. This cache remembers each
//! name's outcome — a definition, or a known absence — until the catalog
//! generation advances, when it is flushed whole, so a table created later
//! still resolves.
use vstd::prelude::*;

use crate::error::Error;
use crate::ir::TableDefinition;
use crate::same::{copy_keys, keys_same};
use crate::value::str_eq;

verus! {

/// `a` and `b` are the same table definition.
pub open spec fn def_same(a: TableDefinition, b: TableDefinition) -> bool {
    a.oid == b.oid && a.name@ == b.name@ && keys_same(a.keys@, b.keys@)
}

/// A copy of a table definition.
pub fn copy_def(d: &TableDefinition) -> (r: TableDefinition)
    ensures
        def_same(r, *d),
{
    TableDefinition { oid: d.oid, name: d.name.clone(), keys: copy_keys(&d.keys) }
}

/// The result of a cache lookup.
pub enum CacheLookup {
    /// A present table, cached.
    Hit(TableDefinition),
    /// A known-absent table, cached as a negative tombstone.
    NegativeHit,
    /// Not in the cache: the caller must scan.
    Miss,
}

/// The cached outcome for `name` among `tables`: the first entry for it.
pub open spec fn cached_outcome(tables: Seq<(String, Option<TableDefinition>)>, name: Seq<char>) -> Option<
    Option<TableDefinition>,
>
    decreases tables.len(),
{
    if tables.len() == 0 {
        None
    } else if tables[0].0@ == name {
        Some(tables[0].1)
    } else {
        cached_outcome(tables.drop_first(), name)
    }
}

/// No name stands twice.
pub open spec fn names_distinct(tables: Seq<(String, Option<TableDefinition>)>) -> bool {
    forall|i: int, j: int|
        0 <= i < j < tables.len() ==> (#[trigger] tables[i]).0@ != (#[trigger] tables[j]).0@
}

proof fn lemma_outcome_found(tables: Seq<(String, Option<TableDefinition>)>, name: Seq<char>, j: int)
    requires
        0 <= j < tables.len(),
        tables[j].0@ == name,
        forall|i: int| 0 <= i < j ==> (#[trigger] tables[i]).0@ != name,
    ensures
        cached_outcome(tables, name) == Some(tables[j].1),
    decreases j,
{
    if j > 0 {
        assert(tables[0].0@ != name);
        assert forall|i: int| 0 <= i < j - 1 implies (#[trigger] tables.drop_first()[i]).0@
            != name by {
            assert(tables.drop_first()[i] == tables[i + 1]);
        }
        lemma_outcome_found(tables.drop_first(), name, j - 1);
    }
}

proof fn lemma_outcome_absent(tables: Seq<(String, Option<TableDefinition>)>, name: Seq<char>)
    requires
        forall|i: int| 0 <= i < tables.len() ==> (#[trigger] tables[i]).0@ != name,
    ensures
        cached_outcome(tables, name) is None,
    decreases tables.len(),
{
    if tables.len() > 0 {
        assert(tables[0].0@ != name);
        assert forall|i: int| 0 <= i < tables.len() - 1 implies (#[trigger] tables.drop_first()[
            i
        ]).0@ != name by {
            assert(tables.drop_first()[i] == tables[i + 1]);
        }
        lemma_outcome_absent(tables.drop_first(), name);
    }
}

proof fn lemma_outcome_update(
    tables: Seq<(String, Option<TableDefinition>)>,
    j: int,
    e: (String, Option<TableDefinition>),
    other: Seq<char>,
)
    requires
        0 <= j < tables.len(),
        e.0@ == tables[j].0@,
        other != e.0@,
    ensures
        cached_outcome(tables.update(j, e), other) == cached_outcome(tables, other),
    decreases tables.len(),
{
    if j == 0 {
        assert(tables.update(j, e).drop_first() =~= tables.drop_first());
    } else {
        assert(tables.update(j, e)[0] == tables[0]);
        if tables[0].0@ != other {
            assert(tables.update(j, e).drop_first() =~= tables.drop_first().update(j - 1, e));
            lemma_outcome_update(tables.drop_first(), j - 1, e, other);
        }
    }
}

proof fn lemma_outcome_push(
    tables: Seq<(String, Option<TableDefinition>)>,
    e: (String, Option<TableDefinition>),
    other: Seq<char>,
)
    ensures
        other != e.0@ ==> cached_outcome(tables.push(e), other) == cached_outcome(tables, other),
        cached_outcome(tables, e.0@) is None ==> cached_outcome(tables.push(e), e.0@) == Some(e.1),
    decreases tables.len(),
{
    if tables.len() > 0 {
        assert(tables.push(e)[0] == tables[0]);
        assert(tables.push(e).drop_first() =~= tables.drop_first().push(e));
        lemma_outcome_push(tables.drop_first(), e, other);
    } else {
        assert(tables.push(e)[0] == e);
        assert(tables.push(e).drop_first() =~= Seq::<(String, Option<TableDefinition>)>::empty());
        assert(cached_outcome(Seq::<(String, Option<TableDefinition>)>::empty(), other) is None);
    }
}

/// The schema cache: the generation it was captured at, and the outcome of
/// each name looked up since (`Some(def)` for a present table, `None` for a
/// known-absent one).
pub struct Catalog {
    pub generation: u64,
    pub tables: Vec<(String, Option<TableDefinition>)>,
}

impl Catalog {
    /// No name stands twice.
    pub open spec fn wf(&self) -> bool {
        names_distinct(self.tables@)
    }

    /// An empty cache at generation 0.
    pub fn new() -> (c: Self)
        ensures
            c.wf(),
            c.generation == 0,
            c.tables@.len() == 0,
    {
        Catalog { generation: 0, tables: Vec::new() }
    }

    /// Looks `name` up, first flushing the whole cache if `generation` has
    /// advanced past the one it was captured at.
    pub fn cached(&mut self, name: &str, generation: u64) -> (r: CacheLookup)
        requires
            old(self).wf(),
        ensures
            final(self).wf(),
            final(self).generation == generation,
            old(self).generation != generation ==> final(self).tables@.len() == 0 && r is Miss,
            old(self).generation == generation ==> final(self).tables@ == old(self).tables@,
            match cached_outcome(final(self).tables@, name@) {
                Some(Some(def)) => r matches CacheLookup::Hit(d) && def_same(d, def),
                Some(None) => r is NegativeHit,
                None => r is Miss,
            },
    {
        if self.generation != generation {
            self.tables = Vec::new();
            self.generation = generation;
        }
        let mut j: usize = 0;
        while j < self.tables.len()
            invariant
                j <= self.tables@.len(),
                self.wf(),
                self.generation == generation,
                old(self).generation != generation ==> self.tables@.len() == 0,
                old(self).generation == generation ==> self.tables@ == old(self).tables@,
                forall|i: int| 0 <= i < j ==> (#[trigger] self.tables@[i]).0@ != name@,
            decreases self.tables.len() - j,
        {
            if str_eq(self.tables[j].0.as_str(), name) {
                proof {
                    lemma_outcome_found(self.tables@, name@, j as int);
                }
                return match &self.tables[j].1 {
                    Some(def) => CacheLookup::Hit(copy_def(def)),
                    None => CacheLookup::NegativeHit,
                };
            }
            j = j + 1;
        }
        proof {
            lemma_outcome_absent(self.tables@, name@);
        }
        CacheLookup::Miss
    }

    /// Records `outcome` for `name`, in its place if it has one.
    fn remember(&mut self, name: &str, outcome: Option<TableDefinition>)
        requires
            old(self).wf(),
        ensures
            final(self).wf(),
            final(self).generation == old(self).generation,
            cached_outcome(final(self).tables@, name@) matches Some(o) && o == outcome,
            forall|n: Seq<char>|
                n != name@ ==> #[trigger] cached_outcome(final(self).tables@, n) == cached_outcome(
                    old(self).tables@,
                    n,
                ),
    {
        let ghost t0 = self.tables@;
        let mut j: usize = 0;
        let mut found = false;
        while j < self.tables.len() && !found
            invariant
                self.tables@ == t0,
                j <= t0.len(),
                forall|i: int| 0 <= i < j ==> (#[trigger] t0[i]).0@ != name@,
                found ==> j < t0.len() && t0[j as int].0@ == name@,
            decreases t0.len() - j + if found {
                0int
            } else {
                1int
            },
        {
            if str_eq(self.tables[j].0.as_str(), name) {
                found = true;
            } else {
                j = j + 1;
            }
        }
        let key = name.to_owned();
        let ghost e = (key, outcome);
        if found {
            proof {
                lemma_outcome_found(t0.update(j as int, e), name@, j as int);
                assert forall|n: Seq<char>| n != name@ implies #[trigger] cached_outcome(
                    t0.update(j as int, e),
                    n,
                ) == cached_outcome(t0, n) by {
                    lemma_outcome_update(t0, j as int, e, n);
                }
            }
            self.tables.set(j, (key, outcome));
        } else {
            proof {
                lemma_outcome_absent(t0, name@);
                lemma_outcome_push(t0, e, name@);
                assert forall|n: Seq<char>| n != name@ implies #[trigger] cached_outcome(t0.push(e), n)
                    == cached_outcome(t0, n) by {
                    lemma_outcome_push(t0, e, n);
                }
            }
            self.tables.push((key, outcome));
        }
        assert(names_distinct(self.tables@)) by {
            assert forall|a: int, b: int| 0 <= a < b < self.tables@.len() implies (
            #[trigger] self.tables@[a]).0@ != (#[trigger] self.tables@[b]).0@ by {
                if found {
                    if a == j {
                        assert(t0[b].0@ != name@ || b == j);
                    }
                } else {
                    if b == t0.len() {
                        assert(t0[a].0@ != name@);
                    }
                }
            }
        }
    }

    /// The cold path's caching: given what scanning the catalog for `name`
    /// gave (`scanned`), caches a found definition, or a `UnboundTable`
    /// absence as a tombstone, and passes the outcome on. Any other error is
    /// not a stable absence and is not cached.
    pub fn scan_and_cache(&mut self, name: &str, scanned: Result<TableDefinition, Error>) -> (r:
        Result<TableDefinition, Error>)
        requires
            old(self).wf(),
        ensures
            final(self).wf(),
            final(self).generation == old(self).generation,
            match scanned {
                Ok(def) => r == Ok::<TableDefinition, Error>(def) && (cached_outcome(
                    final(self).tables@,
                    name@,
                ) matches Some(Some(c)) && def_same(c, def)),
                Err(Error::UnboundTable(_)) => (r matches Err(Error::UnboundTable(m)) && m@
                    == name@) && cached_outcome(final(self).tables@, name@) == Some(
                    None::<TableDefinition>,
                ),
                Err(e) => r == Err::<TableDefinition, Error>(e) && final(self).tables
                    == old(self).tables,
            },
            !(scanned is Err && !(scanned->Err_0 is UnboundTable)) ==> forall|n: Seq<char>|
                n != name@ ==> #[trigger] cached_outcome(final(self).tables@, n) == cached_outcome(
                    old(self).tables@,
                    n,
                ),
    {
        match scanned {
            Ok(def) => {
                let keep = copy_def(&def);
                self.remember(name, Some(keep));
                Ok(def)
            },
            Err(Error::UnboundTable(_)) => {
                self.remember(name, None);
                Err(Error::UnboundTable(name.to_owned()))
            },
            Err(e) => Err(e),
        }
    }
}

} // verus!

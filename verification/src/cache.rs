//! A small least-recently-used cache keyed by text.
//!
//! Every `get` and `put` advances a tick and stamps the entry it touches;
//! when a `put` leaves more entries than the capacity, the entry with the
//! oldest stamp leaves. Keys are byte-exact: two keys that differ only in
//! whitespace are distinct entries.
use std::rc::Rc;

use vstd::prelude::*;

use crate::value::str_eq;

verus! {

/// `Rc::clone`: another pointer to the same value.
#[verifier::external_body]
fn rc_clone<V>(r: &Rc<V>) -> (c: Rc<V>)
    ensures
        c == *r,
{
    Rc::clone(r)
}

/// The entry for key `k`: the first with that key.
pub open spec fn entry_of<V>(m: Seq<(String, Rc<V>, usize)>, k: Seq<char>) -> Option<(Rc<V>, usize)>
    decreases m.len(),
{
    if m.len() == 0 {
        None
    } else if m[0].0@ == k {
        Some((m[0].1, m[0].2))
    } else {
        entry_of(m.drop_first(), k)
    }
}

/// The stamp of key `k`'s entry (0 when it has none).
pub open spec fn stamp_of<V>(m: Seq<(String, Rc<V>, usize)>, k: Seq<char>) -> int {
    match entry_of(m, k) {
        Some((_, t)) => t as int,
        None => 0,
    }
}

/// The place of key `k`.
pub open spec fn place_of<V>(m: Seq<(String, Rc<V>, usize)>, k: Seq<char>) -> Option<int>
    decreases m.len(),
{
    if m.len() == 0 {
        None
    } else if m[0].0@ == k {
        Some(0)
    } else {
        match place_of(m.drop_first(), k) {
            Some(j) => Some(j + 1),
            None => None,
        }
    }
}

/// No key stands twice and no two entries share a stamp.
pub open spec fn entries_ok<V>(m: Seq<(String, Rc<V>, usize)>) -> bool {
    forall|i: int, j: int|
        0 <= i < j < m.len() ==> (#[trigger] m[i]).0@ != (#[trigger] m[j]).0@ && m[i].2 != m[j].2
}

/// The place of the entry with the oldest stamp.
pub open spec fn is_oldest<V>(m: Seq<(String, Rc<V>, usize)>, j: int) -> bool {
    0 <= j < m.len() && forall|i: int| 0 <= i < m.len() ==> m[j].2 <= (#[trigger] m[i]).2
}

proof fn lemma_place<V>(m: Seq<(String, Rc<V>, usize)>, k: Seq<char>)
    ensures
        place_of(m, k) matches Some(j) ==> 0 <= j < m.len() && m[j].0@ == k && forall|i: int|
            0 <= i < j ==> (#[trigger] m[i]).0@ != k,
        place_of(m, k) is None ==> forall|i: int| 0 <= i < m.len() ==> (#[trigger] m[i]).0@ != k,
        place_of(m, k) matches Some(j) ==> entry_of(m, k) == Some((m[j].1, m[j].2)),
        place_of(m, k) is None ==> entry_of(m, k) is None,
    decreases m.len(),
{
    if m.len() > 0 {
        lemma_place(m.drop_first(), k);
        assert forall|i: int| 0 < i < m.len() implies m[i] == #[trigger] m.drop_first()[i - 1] by {}
        if m[0].0@ != k {
            if place_of(m.drop_first(), k) is None {
                assert forall|i: int| 0 <= i < m.len() implies (#[trigger] m[i]).0@ != k by {
                    if i > 0 {
                        assert(m[i] == m.drop_first()[i - 1]);
                    }
                }
            } else {
                let j = place_of(m.drop_first(), k)->0;
                assert forall|i: int| 0 <= i < j + 1 implies (#[trigger] m[i]).0@ != k by {
                    if i > 0 {
                        assert(m[i] == m.drop_first()[i - 1]);
                    }
                }
            }
        }
    }
}

proof fn lemma_place_found<V>(m: Seq<(String, Rc<V>, usize)>, k: Seq<char>, j: int)
    requires
        0 <= j < m.len(),
        m[j].0@ == k,
        forall|i: int| 0 <= i < j ==> (#[trigger] m[i]).0@ != k,
    ensures
        place_of(m, k) == Some(j),
{
    lemma_place(m, k);
    match place_of(m, k) {
        Some(j2) => {
            if j2 < j {
                assert(m[j2].0@ != k);
            } else if j < j2 {
                assert(m[j].0@ != k);
            }
        },
        None => {
            assert(m[j].0@ != k);
        },
    }
}

/// With distinct keys, an entry found at `j` is the key's entry, and the
/// key stands nowhere else.
proof fn lemma_distinct_place<V>(m: Seq<(String, Rc<V>, usize)>, j: int)
    requires
        entries_ok(m),
        0 <= j < m.len(),
    ensures
        place_of(m, m[j].0@) == Some(j),
{
    assert forall|i: int| 0 <= i < j implies (#[trigger] m[i]).0@ != m[j].0@ by {}
    lemma_place_found(m, m[j].0@, j);
}

/// A least-recently-used cache of shared values, keyed by text.
pub struct Cache<V> {
    /// The entries: key, value, and the stamp of the entry's last use.
    pub map: Vec<(String, Rc<V>, usize)>,
    /// The most entries kept.
    pub cap: usize,
    /// The latest stamp handed out.
    pub tick: usize,
}

impl<V> Cache<V> {
    /// Keys and stamps are distinct, and every stamp is at most the tick.
    pub open spec fn wf(&self) -> bool {
        &&& entries_ok(self.map@)
        &&& forall|i: int| 0 <= i < self.map@.len() ==> (#[trigger] self.map@[i]).2 <= self.tick
    }

    /// An empty cache keeping at most `capacity` entries.
    pub fn new(capacity: usize) -> (c: Self)
        ensures
            c.wf(),
            c.map@.len() == 0,
            c.cap == capacity,
            c.tick == 0,
    {
        Cache { map: Vec::new(), cap: capacity, tick: 0 }
    }

    /// The place of `key`, if it is cached.
    fn find(&self, key: &str) -> (r: Option<usize>)
        ensures
            match r {
                Some(j) => place_of(self.map@, key@) == Some(j as int),
                None => place_of(self.map@, key@) is None,
            },
    {
        let mut j: usize = 0;
        while j < self.map.len()
            invariant
                j <= self.map@.len(),
                forall|i: int| 0 <= i < j ==> (#[trigger] self.map@[i]).0@ != key@,
            decreases self.map.len() - j,
        {
            if str_eq(self.map[j].0.as_str(), key) {
                proof {
                    lemma_place_found(self.map@, key@, j as int);
                }
                return Some(j);
            }
            j = j + 1;
        }
        proof {
            lemma_place(self.map@, key@);
            if place_of(self.map@, key@) is Some {
                let p = place_of(self.map@, key@)->0;
                assert(self.map@[p].0@ != key@);
            }
        }
        None
    }

    /// The value cached under `key`, stamping its entry as just used; `None`
    /// when it is not cached. Either way the tick advances.
    pub fn get(&mut self, key: &str) -> (r: Option<Rc<V>>)
        requires
            old(self).wf(),
            old(self).tick < usize::MAX,
        ensures
            final(self).wf(),
            final(self).tick == old(self).tick + 1,
            final(self).cap == old(self).cap,
            final(self).map@.len() == old(self).map@.len(),
            match entry_of(old(self).map@, key@) {
                Some((v, _)) => r == Some(v) && entry_of(final(self).map@, key@) == Some(
                    (v, final(self).tick),
                ),
                None => r is None && final(self).map@ == old(self).map@,
            },
            forall|k: Seq<char>|
                k != key@ ==> #[trigger] entry_of(final(self).map@, k) == entry_of(
                    old(self).map@,
                    k,
                ),
    {
        self.tick = self.tick + 1;
        let ghost m0 = self.map@;
        match self.find(key) {
            Some(j) => {
                proof {
                    lemma_place(m0, key@);
                }
                let val = rc_clone(&self.map[j].1);
                let name = self.map[j].0.clone();
                let ghost e = (name, val, self.tick);
                self.map.set(j, (name, rc_clone(&val), self.tick));
                proof {
                    let m1 = self.map@;
                    assert(m1 == m0.update(j as int, e));
                    assert(entries_ok(m1)) by {
                        assert forall|a: int, b: int| 0 <= a < b < m1.len() implies (
                        #[trigger] m1[a]).0@ != (#[trigger] m1[b]).0@ && m1[a].2 != m1[b].2 by {
                            if a == j {
                                assert(m0[b].2 <= old(self).tick);
                            } else if b == j {
                                assert(m0[a].2 <= old(self).tick);
                            }
                        }
                    }
                    lemma_distinct_place(m1, j as int);
                    lemma_place(m1, key@);
                    assert forall|k: Seq<char>| k != key@ implies #[trigger] entry_of(m1, k)
                        == entry_of(m0, k) by {
                        lemma_place(m0, k);
                        lemma_place(m1, k);
                        match place_of(m0, k) {
                            Some(p) => {
                                assert(p != j);
                                lemma_place_found(m1, k, p);
                            },
                            None => {
                                if place_of(m1, k) is Some {
                                    let p = place_of(m1, k)->0;
                                    assert(p != j);
                                    assert(m0[p].0@ != k);
                                }
                            },
                        }
                    }
                }
                Some(val)
            },
            None => {
                proof {
                    lemma_place(m0, key@);
                }
                None
            },
        }
    }

    /// The place of the entry with the oldest stamp.
    fn oldest(&self) -> (r: usize)
        requires
            self.map@.len() > 0,
        ensures
            is_oldest(self.map@, r as int),
    {
        let mut best: usize = 0;
        let mut j: usize = 1;
        while j < self.map.len()
            invariant
                1 <= j <= self.map@.len(),
                best < j,
                forall|i: int| 0 <= i < j ==> self.map@[best as int].2 <= (#[trigger] self.map@[i]).2,
            decreases self.map.len() - j,
        {
            if self.map[j].2 < self.map[best].2 {
                best = j;
            }
            j = j + 1;
        }
        best
    }

    /// Caches `val` under `key` (replacing what was there), stamped as just
    /// used; then, with more entries than the capacity, the entry with the
    /// oldest stamp leaves. Returns the shared value.
    pub fn put(&mut self, key: &str, val: V) -> (r: Rc<V>)
        requires
            old(self).wf(),
            old(self).tick < usize::MAX,
        ensures
            final(self).wf(),
            final(self).tick == old(self).tick + 1,
            final(self).cap == old(self).cap,
            r == val,
            old(self).map@.len() <= old(self).cap ==> final(self).map@.len() <= final(self).cap,
            old(self).cap >= 1 ==> entry_of(final(self).map@, key@) == Some((r, final(self).tick)),
            forall|k: Seq<char>|
                k != key@ ==> (#[trigger] entry_of(final(self).map@, k) == entry_of(
                    old(self).map@,
                    k,
                ) || entry_of(final(self).map@, k) is None),
            forall|k: Seq<char>, k2: Seq<char>|
                k != key@ && k2 != key@ && entry_of(old(self).map@, k) is Some && entry_of(
                    final(self).map@,
                    k,
                ) is None && #[trigger] entry_of(old(self).map@, k2) is Some ==> #[trigger] stamp_of(
                    old(self).map@,
                    k,
                ) <= stamp_of(old(self).map@, k2),
    {
        self.tick = self.tick + 1;
        let rc = Rc::new(val);
        let ghost m0 = self.map@;
        let name = key.to_owned();
        let ghost e = (name, rc, self.tick);
        match self.find(key) {
            Some(j) => {
                proof {
                    lemma_place(m0, key@);
                }
                self.map.set(j, (name, rc_clone(&rc), self.tick));
                proof {
                    let m1 = self.map@;
                    assert forall|i: int| 0 <= i < j implies (#[trigger] m1[i]).0@ != key@ by {
                        assert(m1[i] == m0[i]);
                    }
                    lemma_place_found(m1, key@, j as int);
                    assert(m1 == m0.update(j as int, e));
                    assert(entries_ok(m1)) by {
                        assert forall|a: int, b: int| 0 <= a < b < m1.len() implies (
                        #[trigger] m1[a]).0@ != (#[trigger] m1[b]).0@ && m1[a].2 != m1[b].2 by {
                            if a == j {
                                assert(m0[b].2 <= old(self).tick);
                            } else if b == j {
                                assert(m0[a].2 <= old(self).tick);
                            }
                        }
                    }
                }
            },
            None => {
                self.map.push((name, rc_clone(&rc), self.tick));
                proof {
                    lemma_place(m0, key@);
                    let m1 = self.map@;
                    assert(m1 == m0.push(e));
                    assert forall|i: int| 0 <= i < m0.len() implies (#[trigger] m1[i]).0@ != key@ by {
                        assert(m1[i] == m0[i]);
                    }
                    lemma_place_found(m1, key@, m0.len() as int);
                    assert(entries_ok(m1)) by {
                        assert forall|a: int, b: int| 0 <= a < b < m1.len() implies (
                        #[trigger] m1[a]).0@ != (#[trigger] m1[b]).0@ && m1[a].2 != m1[b].2 by {
                            if b == m0.len() {
                                assert(m0[a].0@ != key@);
                                assert(m0[a].2 <= old(self).tick);
                            }
                        }
                    }
                }
            },
        }
        let ghost m1 = self.map@;
        let ghost p = place_of(m1, key@);
        proof {
            lemma_place(m1, key@);
            lemma_place(m0, key@);
            assert(p is Some);
            let jj = p->0;
            assert(m1[jj] == e);
            assert forall|k: Seq<char>| k != key@ implies #[trigger] entry_of(m1, k) == entry_of(
                m0,
                k,
            ) by {
                lemma_place(m0, k);
                lemma_place(m1, k);
                match place_of(m0, k) {
                    Some(q) => {
                        assert(m1[q] == m0[q]);
                        lemma_place_found(m1, k, q);
                    },
                    None => {
                        if place_of(m1, k) is Some {
                            let q = place_of(m1, k)->0;
                            assert(q != jj);
                            assert(q < m0.len());
                            assert(m1[q] == m0[q]);
                        }
                    },
                }
            }
        }
        if self.map.len() > self.cap {
            let victim = self.oldest();
            proof {
                let jj = p->0;
                if self.cap >= 1 {
                    assert(m1.len() >= 2);
                    let other = if jj == 0 {
                        1int
                    } else {
                        0int
                    };
                    assert(m1[other].2 < m1[jj].2);
                    assert(victim != jj);
                }
            }
            let ghost m2 = m1.remove(victim as int);
            self.map.remove(victim);
            proof {
                assert(self.map@ == m2);
                assert(entries_ok(m2)) by {
                    assert forall|a: int, b: int| 0 <= a < b < m2.len() implies (
                    #[trigger] m2[a]).0@ != (#[trigger] m2[b]).0@ && m2[a].2 != m2[b].2 by {
                        let a1 = if a < victim {
                            a
                        } else {
                            a + 1
                        };
                        let b1 = if b < victim {
                            b
                        } else {
                            b + 1
                        };
                        assert(m2[a] == m1[a1] && m2[b] == m1[b1]);
                    }
                }
                assert forall|k: Seq<char>| k != key@ implies (#[trigger] entry_of(m2, k) == entry_of(
                    m0,
                    k,
                ) || entry_of(m2, k) is None) by {
                    lemma_place(m2, k);
                    lemma_place(m1, k);
                    if place_of(m2, k) is Some {
                        let q = place_of(m2, k)->0;
                        let q1 = if q < victim {
                            q
                        } else {
                            q + 1
                        };
                        assert(m2[q] == m1[q1]);
                        lemma_distinct_place(m1, q1);
                    }
                }
                assert forall|k: Seq<char>, k2: Seq<char>|
                    k != key@ && k2 != key@ && entry_of(m0, k) is Some && entry_of(m2, k) is None
                        && #[trigger] entry_of(m0, k2) is Some implies #[trigger] stamp_of(m0, k)
                    <= stamp_of(m0, k2) by {
                    lemma_place(m1, k);
                    lemma_place(m1, k2);
                    lemma_place(m2, k);
                    let q = place_of(m1, k)->0;
                    let q2 = place_of(m1, k2)->0;
                    if q != victim {
                        let qq = if q < victim {
                            q
                        } else {
                            q - 1
                        };
                        assert(m2[qq] == m1[q]);
                        assert(m2[qq].0@ == k);
                    }
                    assert(m1[victim as int].2 <= m1[q2].2);
                }
                if self.cap >= 1 {
                    let jj = p->0;
                    let j2 = if jj < victim {
                        jj
                    } else {
                        jj - 1
                    };
                    assert(m2[j2] == m1[jj]);
                    lemma_distinct_place(m2, j2);
                    lemma_place(m2, key@);
                }
            }
        } else {
            proof {
                lemma_place(m1, key@);
            }
        }
        rc
    }

    /// Drops the entry for `key`, if any.
    pub fn del(&mut self, key: &str)
        requires
            old(self).wf(),
        ensures
            final(self).wf(),
            final(self).tick == old(self).tick,
            final(self).cap == old(self).cap,
            entry_of(final(self).map@, key@) is None,
            forall|k: Seq<char>|
                k != key@ ==> #[trigger] entry_of(final(self).map@, k) == entry_of(
                    old(self).map@,
                    k,
                ),
    {
        let ghost m0 = self.map@;
        match self.find(key) {
            Some(j) => {
                proof {
                    lemma_place(m0, key@);
                }
                self.map.remove(j);
                proof {
                    let m2 = self.map@;
                    assert(m2 == m0.remove(j as int));
                    assert(entries_ok(m2)) by {
                        assert forall|a: int, b: int| 0 <= a < b < m2.len() implies (
                        #[trigger] m2[a]).0@ != (#[trigger] m2[b]).0@ && m2[a].2 != m2[b].2 by {
                            let a1 = if a < j {
                                a
                            } else {
                                a + 1
                            };
                            let b1 = if b < j {
                                b
                            } else {
                                b + 1
                            };
                            assert(m2[a] == m0[a1] && m2[b] == m0[b1]);
                        }
                    }
                    assert forall|i: int| 0 <= i < m2.len() implies (#[trigger] m2[i]).0@ != key@ by {
                        let i1 = if i < j {
                            i
                        } else {
                            i + 1
                        };
                        assert(m2[i] == m0[i1]);
                    }
                    lemma_place(m2, key@);
                    if place_of(m2, key@) is Some {
                        let q = place_of(m2, key@)->0;
                        assert(m2[q].0@ != key@);
                    }
                    assert forall|k: Seq<char>| k != key@ implies #[trigger] entry_of(m2, k)
                        == entry_of(m0, k) by {
                        lemma_place(m0, k);
                        lemma_place(m2, k);
                        match place_of(m0, k) {
                            Some(q) => {
                                assert(q != j);
                                let q2 = if q < j {
                                    q
                                } else {
                                    q - 1
                                };
                                assert(m2[q2] == m0[q]);
                                lemma_distinct_place(m2, q2);
                            },
                            None => {
                                if place_of(m2, k) is Some {
                                    let q = place_of(m2, k)->0;
                                    let q1 = if q < j {
                                        q
                                    } else {
                                        q + 1
                                    };
                                    assert(m2[q] == m0[q1]);
                                }
                            },
                        }
                    }
                }
            },
            None => {
                proof {
                    lemma_place(m0, key@);
                }
            },
        }
    }

    /// Whether `key` is cached.
    pub fn is_cached(&self, key: &str) -> (r: bool)
        ensures
            r == (entry_of(self.map@, key@) is Some),
    {
        let f = self.find(key);
        proof {
            lemma_place(self.map@, key@);
        }
        f.is_some()
    }
}

} // verus!

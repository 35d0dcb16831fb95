use std::cell::RefCell;
use std::collections::BTreeMap;

use monadb::error::Error;
use monadb::session::{ConnState, End};

/// A write transaction over an in-memory store: its pending writes.
struct Txn {
    writes: Vec<(String, String)>,
}

impl Txn {
    fn put(&mut self, k: &str, v: &str) {
        self.writes.push((k.to_string(), v.to_string()));
    }
}

/// The committed store.
struct Store {
    data: RefCell<BTreeMap<String, String>>,
}

impl Store {
    fn new() -> Store {
        Store { data: RefCell::new(BTreeMap::new()) }
    }

    fn write(&self) -> Result<Txn, Error> {
        Ok(Txn { writes: Vec::new() })
    }

    fn get(&self, k: &str) -> Option<String> {
        self.data.borrow().get(k).cloned()
    }

    /// Commits or discards `txn`.
    fn finish(&self, how: End) -> impl FnOnce(Txn) -> Result<(), Error> + '_ {
        move |txn: Txn| {
            if how == End::Commit {
                let mut data = self.data.borrow_mut();
                for (k, v) in txn.writes {
                    data.insert(k, v);
                }
            }
            Ok(())
        }
    }
}

fn end(state: &mut ConnState<Txn>, store: &Store, how: End) -> Result<(), Error> {
    state.end(how, store.finish(how))
}

#[test]
fn closed_is_not_in_transaction() {
    let mut state: ConnState<Txn> = ConnState::new();
    assert!(!state.in_transaction());
    assert!(state.guard_idle().is_ok());
    assert!(matches!(state.lend(), Ok(None)), "no session means the statement opens its own txn");
}

#[test]
fn begin_opens_and_double_begin_errors() {
    let store = Store::new();
    let mut state = ConnState::new();
    state.begin(|| store.write()).unwrap();
    assert!(state.in_transaction());
    assert!(matches!(state.begin(|| store.write()), Err(Error::Transaction(_))));
}

#[test]
fn end_without_begin_errors() {
    let store = Store::new();
    let mut state = ConnState::new();
    assert!(matches!(end(&mut state, &store, End::Commit), Err(Error::Transaction(_))));
    assert!(matches!(end(&mut state, &store, End::Rollback), Err(Error::Transaction(_))));
}

#[test]
fn lend_then_restore_round_trips() {
    let store = Store::new();
    let mut state = ConnState::new();
    state.begin(|| store.write()).unwrap();

    let txn = state.lend().unwrap().expect("session txn is lendable");
    // While lent the session is still active, but nothing may use it.
    assert!(state.in_transaction());
    assert!(state.guard_idle().is_err());
    assert!(
        matches!(state.lend(), Err(Error::Transaction(_))),
        "a lent txn cannot be lent twice, and must not read as `no session`"
    );
    assert!(end(&mut state, &store, End::Commit).is_err());
    assert!(state.with_txn(|_| ()).is_none());

    state.restore(txn);
    assert!(state.guard_idle().is_ok());
    end(&mut state, &store, End::Commit).unwrap();
    assert!(!state.in_transaction());
}

#[test]
fn rollback_discards_writes_and_commit_keeps_them() {
    let store = Store::new();
    let mut state = ConnState::new();

    state.begin(|| store.write()).unwrap();
    let mut txn = state.lend().unwrap().expect("session txn is lendable");
    txn.put("k", "v");
    state.restore(txn);
    end(&mut state, &store, End::Rollback).unwrap();
    assert_eq!(store.get("k"), None);

    state.begin(|| store.write()).unwrap();
    let mut txn = state.lend().unwrap().expect("session txn is lendable");
    txn.put("k", "v");
    state.restore(txn);
    end(&mut state, &store, End::Commit).unwrap();
    assert_eq!(store.get("k"), Some("v".to_string()));
}

#[test]
fn commit_bumps_version_only_when_dirty() {
    let store = Store::new();
    let mut state = ConnState::new();

    state.begin(|| store.write()).unwrap();
    end(&mut state, &store, End::Commit).unwrap();
    assert_eq!(state.version(), 0, "a clean session must not bump");

    state.begin(|| store.write()).unwrap();
    state.mark_dirty();
    end(&mut state, &store, End::Commit).unwrap();
    assert_eq!(state.version(), 1);
}

#[test]
fn rollback_never_bumps_version() {
    let store = Store::new();
    let mut state = ConnState::new();
    state.begin(|| store.write()).unwrap();
    state.mark_dirty();
    end(&mut state, &store, End::Rollback).unwrap();
    assert_eq!(state.version(), 0, "a rolled-back DDL must not invalidate prepared statements");
}

#[test]
fn abort_if_open_discards_and_is_idempotent() {
    let store = Store::new();
    let mut state = ConnState::new();

    state.begin(|| store.write()).unwrap();
    let mut txn = state.lend().unwrap().expect("session txn is lendable");
    txn.put("k", "v");
    state.restore(txn);

    state.abort_if_open(store.finish(End::Rollback));
    assert!(!state.in_transaction());
    state.abort_if_open(store.finish(End::Rollback)); // no-op the second time

    assert_eq!(store.get("k"), None);
}

#[test]
fn failed_commit_keeps_the_mark() {
    let mut state: ConnState<Txn> = ConnState::new();
    state.begin(|| Ok(Txn { writes: Vec::new() })).unwrap();
    state.mark_dirty();
    let r = state.end(End::Commit, |_| Err(Error::Transaction("disk full".into())));
    assert!(r.is_err());
    assert!(!state.in_transaction());
    assert!(state.dirty);
    assert_eq!(state.version(), 0);
}

#[test]
fn failed_open_leaves_session_closed() {
    let mut state: ConnState<Txn> = ConnState::new();
    let r = state.begin(|| Err(Error::Transaction("locked".into())));
    assert!(r.is_err());
    assert!(!state.in_transaction());
}

//! The per-connection session: whether an explicit transaction is open, who
//! holds it, and the catalog generation.
//!
//! The session is a three-state machine, so "open" and "who holds the
//! transaction" are one fact rather than two fields that must agree:
//!
//!   Closed ──begin──▶ Open(txn) ──lend──▶ Lent
//!      ▲                  ▲                 │
//!      └─commit/rollback──┘◀──restore───────┘
//!
//! The transaction itself is the caller's (`T`): this state only holds it,
//! hands it out, and takes it back.
use vstd::prelude::*;

use crate::error::Error;

verus! {

/// The message for a statement issued while a prior result still holds the
/// transaction.
pub open spec fn in_progress_text() -> Seq<char> {
    "a previous statement is still in progress; consume or drop its result before continuing"@
}

fn in_progress() -> (e: Error)
    ensures
        e matches Error::Transaction(m) && m@ == in_progress_text(),
{
    Error::Transaction(
        String::from_str(
            "a previous statement is still in progress; consume or drop its result before continuing",
        ),
    )
}

/// How an explicit transaction ends.
#[derive(Debug, Clone, Copy, PartialEq, Eq, Structural)]
pub enum End {
    /// Make the session's writes durable.
    Commit,
    /// Discard them.
    Rollback,
}

/// The explicit transaction and who currently holds it.
pub enum Session<T> {
    /// No explicit transaction (autocommit).
    Closed,
    /// An explicit transaction, idle between statements.
    Open(T),
    /// An explicit transaction, lent to a running statement.
    Lent,
}

/// Per-connection state a running statement may read or change.
pub struct ConnState<T> {
    /// The explicit transaction, if any.
    pub session: Session<T>,
    /// Bumped by any committed change of which tables exist; prepared plans
    /// capture it to detect staleness.
    pub version: u64,
    /// Set when an in-session statement changes the catalog; a commit
    /// consumes it to bump `version` once, a rollback clears it.
    pub dirty: bool,
}

/// The session after `lend`: an open session is lent; any other stays.
pub open spec fn after_lend<T>(s: Session<T>) -> Session<T> {
    match s {
        Session::Open(_) => Session::Lent,
        _ => s,
    }
}

/// What `lend` hands out of a session: the transaction of an open one.
pub open spec fn lent_txn<T>(s: Session<T>) -> Option<T> {
    match s {
        Session::Open(t) => Some(t),
        _ => None,
    }
}

/// Lending an open session's transaction and restoring it brings the session
/// back to where it was; until the restore, the session is still in a
/// transaction but has nothing more to lend.
pub proof fn law_lend_restore_round_trips<T>(s: Session<T>)
    requires
        s is Open,
    ensures
        lent_txn(s) is Some,
        Session::Open(lent_txn(s)->0) == s,
        !(after_lend(s) is Closed),
        lent_txn(after_lend(s)) is None,
{
}

impl<T> ConnState<T> {
    /// The state of a freshly opened connection: no transaction, generation 0.
    pub fn new() -> (s: Self)
        ensures
            s.session is Closed,
            s.version == 0,
            !s.dirty,
    {
        ConnState { session: Session::Closed, version: 0, dirty: false }
    }

    /// The current catalog generation.
    pub fn version(&self) -> (v: u64)
        ensures
            v == self.version,
    {
        self.version
    }

    /// Advances the catalog generation, invalidating prepared plans.
    pub fn bump_version(&mut self)
        requires
            old(self).version < u64::MAX,
        ensures
            final(self).version == old(self).version + 1,
            final(self).session == old(self).session,
            final(self).dirty == old(self).dirty,
    {
        self.version = self.version + 1;
    }

    /// Records that an in-session statement changed which tables exist.
    pub fn mark_dirty(&mut self)
        ensures
            final(self).dirty,
            final(self).session == old(self).session,
            final(self).version == old(self).version,
    {
        self.dirty = true;
    }

    /// Whether an explicit transaction is open, whether or not a statement
    /// currently holds it.
    pub fn in_transaction(&self) -> (r: bool)
        ensures
            r <==> !(self.session is Closed),
    {
        match &self.session {
            Session::Closed => false,
            _ => true,
        }
    }

    /// Errors if a running statement still holds the session transaction.
    pub fn guard_idle(&self) -> (r: Result<(), Error>)
        ensures
            self.session is Lent ==> (r matches Err(Error::Transaction(m)) && m@
                == in_progress_text()),
            !(self.session is Lent) ==> r is Ok,
    {
        match &self.session {
            Session::Lent => Err(in_progress()),
            _ => Ok(()),
        }
    }

    /// Borrows the session transaction for a statement, moving the session
    /// to `Lent`: `Ok(Some(txn))` when a session handed its transaction over,
    /// `Ok(None)` when there is no session (the statement opens its own), and
    /// an error when a session is open but another statement holds it.
    pub fn lend(&mut self) -> (r: Result<Option<T>, Error>)
        ensures
            final(self).version == old(self).version,
            final(self).dirty == old(self).dirty,
            final(self).session == after_lend(old(self).session),
            r matches Ok(x) ==> x == lent_txn(old(self).session),
            old(self).session matches Session::Open(t) ==> r == Ok::<Option<T>, Error>(Some(t))
                && final(self).session is Lent,
            old(self).session is Closed ==> r == Ok::<Option<T>, Error>(None)
                && final(self).session is Closed,
            old(self).session is Lent ==> (r matches Err(Error::Transaction(m)) && m@
                == in_progress_text()) && final(self).session is Lent,
    {
        let mut prev = Session::Lent;
        std::mem::swap(&mut prev, &mut self.session);
        match prev {
            Session::Open(txn) => Ok(Some(txn)),
            Session::Closed => {
                self.session = Session::Closed;
                Ok(None)
            },
            Session::Lent => Err(in_progress()),
        }
    }

    /// Returns a lent transaction to the session.
    pub fn restore(&mut self, txn: T)
        ensures
            final(self).session == Session::Open(txn),
            final(self).version == old(self).version,
            final(self).dirty == old(self).dirty,
    {
        self.session = Session::Open(txn);
    }

    /// Runs `f` against the session transaction if one is idle in the slot;
    /// `None` otherwise.
    pub fn with_txn<R, F: FnOnce(&T) -> R>(&self, f: F) -> (r: Option<R>)
        requires
            self.session matches Session::Open(t) ==> f.requires((&t,)),
        ensures
            self.session matches Session::Open(t) ==> (r matches Some(x) && f.ensures((&t,), x)),
            !(self.session is Open) ==> r is None,
    {
        match &self.session {
            Session::Open(txn) => Some(f(txn)),
            _ => None,
        }
    }

    /// Opens an explicit transaction with `open`, which is called only when
    /// no session is open; an open or lent session is an error.
    pub fn begin<F: FnOnce() -> Result<T, Error>>(&mut self, open: F) -> (r: Result<(), Error>)
        requires
            old(self).session is Closed ==> open.requires(()),
        ensures
            final(self).version == old(self).version,
            final(self).dirty == old(self).dirty,
            old(self).session is Lent ==> (r matches Err(Error::Transaction(m)) && m@
                == in_progress_text()) && final(self).session is Lent,
            old(self).session is Open ==> (r matches Err(Error::Transaction(m)) && m@
                == "transaction already active"@) && final(self).session == old(self).session,
            old(self).session is Closed ==> (r is Ok <==> final(self).session is Open),
            old(self).session is Closed && r is Err ==> final(self).session is Closed,
            old(self).session is Closed ==> (r is Ok ==> exists|t: T|
                final(self).session == Session::Open(t) && open.ensures((), Ok::<T, Error>(t))),
            old(self).session is Closed ==> (r matches Err(e) ==> open.ensures(
                (),
                Err::<T, Error>(e),
            )),
    {
        match &self.session {
            Session::Closed => {},
            Session::Lent => {
                return Err(in_progress());
            },
            Session::Open(_) => {
                return Err(Error::Transaction(String::from_str("transaction already active")));
            },
        }
        match open() {
            Ok(txn) => {
                self.session = Session::Open(txn);
                Ok(())
            },
            Err(e) => Err(e),
        }
    }

    /// Ends the explicit transaction: takes it from the session (which is
    /// then closed) and hands it to `finish`, which commits or discards it.
    /// A successful commit publishes in-session table changes by bumping the
    /// generation once; a rollback never bumps and clears the mark. A lent
    /// or missing session is an error and changes nothing.
    pub fn end<F: FnOnce(T) -> Result<(), Error>>(&mut self, how: End, finish: F) -> (r: Result<
        (),
        Error,
    >)
        requires
            old(self).session matches Session::Open(t) ==> finish.requires((t,)),
            old(self).dirty && how == End::Commit ==> old(self).version < u64::MAX,
        ensures
            old(self).session is Open ==> final(self).session is Closed,
            old(self).session matches Session::Open(t) ==> finish.ensures((t,), r),
            old(self).session is Open && how == End::Commit && r is Ok ==> final(self).version
                == old(self).version + (if old(self).dirty {
                1int
            } else {
                0int
            }) && !final(self).dirty,
            old(self).session is Open && how == End::Rollback && r is Ok ==> final(self).version
                == old(self).version && !final(self).dirty,
            old(self).session is Open && r is Err ==> final(self).version == old(self).version
                && final(self).dirty == old(self).dirty,
            old(self).session is Lent ==> (r matches Err(Error::Transaction(m)) && m@
                == in_progress_text()) && final(self).session is Lent && final(self).version
                == old(self).version && final(self).dirty == old(self).dirty,
            old(self).session is Closed ==> (r matches Err(Error::Transaction(m)) && m@
                == "no active transaction"@) && final(self).session is Closed
                && final(self).version == old(self).version && final(self).dirty == old(
                self,
            ).dirty,
    {
        let mut prev = Session::Closed;
        std::mem::swap(&mut prev, &mut self.session);
        let txn = match prev {
            Session::Open(txn) => txn,
            Session::Lent => {
                self.session = Session::Lent;
                return Err(in_progress());
            },
            Session::Closed => {
                return Err(Error::Transaction(String::from_str("no active transaction")));
            },
        };
        let done = finish(txn);
        if done.is_err() {
            return done;
        }

        match how {
            End::Commit => {
                if self.dirty {
                    self.dirty = false;
                    self.bump_version();
                }
            },
            End::Rollback => {
                self.dirty = false;
            },
        }
        done
    }

    /// Discards any open session without erroring, handing its transaction to
    /// `abort`; a lent or missing session is left as it is.
    pub fn abort_if_open<F: FnOnce(T) -> Result<(), Error>>(&mut self, abort: F)
        requires
            old(self).session matches Session::Open(t) ==> abort.requires((t,)),
        ensures
            old(self).session is Open ==> final(self).session is Closed,
            !(old(self).session is Open) ==> final(self).session == old(self).session,
            final(self).version == old(self).version,
            old(self).session is Open ==> !final(self).dirty || final(self).dirty == old(
                self,
            ).dirty,
            !(old(self).session is Open) ==> final(self).dirty == old(self).dirty,
    {
        let _ = self.end(End::Rollback, abort);
    }
}

} // verus!

//! Open-time configuration of the store.
use vstd::prelude::*;

verus! {

/// Open-time configuration of the store.
#[derive(Debug, Clone)]
pub struct Config {
    nosync: bool,
}

impl Default for Config {
    fn default() -> (c: Config)
        ensures
            !c.syncs_skipped(),
    {
        Config { nosync: false }
    }
}

impl Config {
    /// Whether commits skip the fsync.
    pub closed spec fn syncs_skipped(&self) -> bool {
        self.nosync
    }

    /// Skips fsync on commit.
    ///
    /// Lower commit latency, weaker crash durability, but never a corrupt
    /// database: a commit still reaches the OS page cache in order, so it
    /// keeps atomicity, consistency, and isolation and gives up only
    /// durability. A *process* crash therefore loses nothing; an OS crash or
    /// power loss may lose the last committed transactions.
    pub fn nosync(self) -> (c: Self)
        ensures
            c.syncs_skipped(),
    {
        let mut s = self;
        s.nosync = true;
        s
    }

    /// Whether the store should be opened without syncing on commit (the
    /// environment flag this configuration implies).
    pub fn no_sync_flag(&self) -> (b: bool)
        ensures
            b == self.syncs_skipped(),
    {
        self.nosync
    }
}

} // verus!

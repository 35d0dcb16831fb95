//! Per-connection query execution options.
use vstd::prelude::*;

verus! {

/// Runtime options that apply to every query on a connection until changed.
#[derive(Debug, Clone)]
pub struct QueryOptions {
    debug: bool,
}

impl Default for QueryOptions {
    fn default() -> (o: QueryOptions)
        ensures
            !o.tracing(),
    {
        QueryOptions { debug: false }
    }
}

impl QueryOptions {
    /// Whether bytecode tracing is on.
    pub closed spec fn tracing(&self) -> bool {
        self.debug
    }

    /// Enables bytecode tracing before execution.
    pub fn debug(self, enabled: bool) -> (o: Self)
        ensures
            o.tracing() == enabled,
    {
        let mut s = self;
        s.debug = enabled;
        s
    }

    /// Enables or disables bytecode tracing in place.
    pub fn set_debug(&mut self, enabled: bool)
        ensures
            final(self).tracing() == enabled,
    {
        self.debug = enabled;
    }

    /// Returns whether bytecode tracing is enabled.
    pub fn debug_enabled(&self) -> (b: bool)
        ensures
            b == self.tracing(),
    {
        self.debug
    }
}

} // verus!

//! Query parameter bindings and conversions into engine [`Params`].
//!
//! [`IntoParams`] lets callers pass tuples, lists and named members wherever a
//! statement expects bound values.
use vstd::prelude::*;

use crate::value::{str_eq, Field, Value};

verus! {

/// Whether no two members share a name.
pub open spec fn names_distinct(members: Seq<Field>) -> bool {
    forall|i: int, j: int|
        0 <= i < j < members.len() ==> #[trigger] members[i].key@ != #[trigger] members[j].key@
}

/// Parameter bindings supplied to a query alongside its SQL text.
///
/// `?` and `$N` both draw from the positional list, indexed 1-based — the first
/// `?` and `$1` both resolve to `positional[0]`. `$name` resolves against the
/// named members, whose names are distinct. The binder substitutes each
/// placeholder with its bound literal before compilation, so a query may
/// freely mix both kinds.
#[derive(Debug)]
pub struct Params {
    positional: Vec<Value>,
    named: Vec<Field>,
}

impl Params {
    /// The positional values, in order.
    pub closed spec fn positional_view(&self) -> Seq<Value> {
        self.positional@
    }

    /// The named members.
    pub closed spec fn named_view(&self) -> Seq<Field> {
        self.named@
    }

    /// The named members carry distinct names.
    pub closed spec fn wf(&self) -> bool {
        names_distinct(self.named@)
    }

    /// Returns an empty parameter set.
    pub fn none() -> (p: Params)
        ensures
            p.wf(),
            p.positional_view().len() == 0,
            p.named_view().len() == 0,
    {
        Params { positional: Vec::new(), named: Vec::new() }
    }

    /// Builds a parameter set from a positional list (`?`, `$N`).
    pub fn positional(values: Vec<Value>) -> (p: Params)
        ensures
            p.wf(),
            p.positional_view() == values@,
            p.named_view().len() == 0,
    {
        Params { positional: values, named: Vec::new() }
    }

    /// Builds a parameter set from named members (`$name`), whose names are
    /// distinct as a map's keys are.
    pub fn named(named: Vec<Field>) -> (p: Params)
        requires
            names_distinct(named@),
        ensures
            p.wf(),
            p.positional_view().len() == 0,
            p.named_view() == named@,
    {
        Params { positional: Vec::new(), named }
    }

    /// Looks up a 1-based positional/numbered parameter (`?` or `$N`).
    pub fn get_numbered(&self, n: u32) -> (r: Option<&Value>)
        ensures
            (r is Some) <==> (1 <= n <= self.positional_view().len()),
            r matches Some(v) ==> *v == self.positional_view()[n - 1],
    {
        if n == 0 {
            return None;
        }
        let i = (n - 1) as usize;
        if i < self.positional.len() {
            Some(&self.positional[i])
        } else {
            None
        }
    }

    /// Looks up a named parameter (`$name`).
    pub fn get_named(&self, name: &str) -> (r: Option<&Value>)
        ensures
            (r is Some) <==> (exists|i: int|
                0 <= i < self.named_view().len() && self.named_view()[i].key@ == name@),
            r matches Some(v) ==> (exists|i: int|
                0 <= i < self.named_view().len() && self.named_view()[i].key@ == name@ && *v
                    == self.named_view()[i].value),
    {
        let mut i: usize = 0;
        while i < self.named.len()
            invariant
                i <= self.named@.len(),
                forall|j: int| 0 <= j < i ==> self.named@[j].key@ != name@,
            decreases self.named.len() - i,
        {
            if str_eq(self.named[i].key.as_str(), name) {
                return Some(&self.named[i].value);
            }
            i = i + 1;
        }
        None
    }
}

/// Converts caller-supplied parameter values into engine [`Params`].
pub trait IntoParams {
    /// Builds a [`Params`] value from `self`.
    fn into_params(self) -> Params;
}

impl IntoParams for () {
    fn into_params(self) -> (p: Params)
        ensures
            p.positional_view().len() == 0,
            p.named_view().len() == 0,
    {
        Params::none()
    }
}

impl IntoParams for Params {
    fn into_params(self) -> (p: Params)
        ensures
            p == self,
    {
        self
    }
}

impl IntoParams for Vec<Value> {
    fn into_params(self) -> (p: Params)
        ensures
            p.positional_view() == self@,
            p.named_view().len() == 0,
    {
        Params::positional(self)
    }
}

impl<A: Into<Value>> IntoParams for (A,) {
    fn into_params(self) -> (p: Params)
        ensures
            p.named_view().len() == 0,
            p.positional_view().len() == 1,
            call_ensures(A::into, (self.0,), p.positional_view()[0]),
    {
        let mut v: Vec<Value> = Vec::new();
        v.push(self.0.into());
        Params::positional(v)
    }
}

impl<A: Into<Value>, B: Into<Value>> IntoParams for (A, B) {
    fn into_params(self) -> (p: Params)
        ensures
            p.named_view().len() == 0,
            p.positional_view().len() == 2,
            call_ensures(A::into, (self.0,), p.positional_view()[0]),
            call_ensures(B::into, (self.1,), p.positional_view()[1]),
    {
        let mut v: Vec<Value> = Vec::new();
        v.push(self.0.into());
        v.push(self.1.into());
        Params::positional(v)
    }
}

impl<A: Into<Value>, B: Into<Value>, C: Into<Value>> IntoParams for (A, B, C) {
    fn into_params(self) -> (p: Params)
        ensures
            p.named_view().len() == 0,
            p.positional_view().len() == 3,
            call_ensures(A::into, (self.0,), p.positional_view()[0]),
            call_ensures(B::into, (self.1,), p.positional_view()[1]),
            call_ensures(C::into, (self.2,), p.positional_view()[2]),
    {
        let mut v: Vec<Value> = Vec::new();
        v.push(self.0.into());
        v.push(self.1.into());
        v.push(self.2.into());
        Params::positional(v)
    }
}

} // verus!

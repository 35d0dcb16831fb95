//! Iteration over an in-memory value source: the elements of an array, one
//! at a time.
use vstd::prelude::*;

use crate::error::Error;
use crate::same::{copy_value, value_same};
use crate::value::Value;

verus! {

/// The error of a load before the first advance.
pub fn unpositioned_cursor() -> (e: Error)
    ensures
        e matches Error::InternalError(m) && m@ == "load on unpositioned cursor"@,
{
    Error::InternalError(String::from_str("load on unpositioned cursor"))
}

/// The elements an iteration walks: an array's items; any other value has
/// none.
pub open spec fn elements(v: Value) -> Seq<Value> {
    match v {
        Value::Array(items) => items@,
        _ => Seq::empty(),
    }
}

/// A cursor over the elements of a value.
pub struct ValueIter {
    source: Value,
    pos: Option<usize>,
}

impl ValueIter {
    /// The value iterated.
    pub closed spec fn source(&self) -> Value {
        self.source
    }

    /// The current element's index, once advanced.
    pub closed spec fn current(&self) -> Option<usize> {
        self.pos
    }

    /// A cursor over `source`, before its first element.
    pub fn new(source: Value) -> (r: Self)
        ensures
            r.source() == source,
            r.current() is None,
    {
        ValueIter { source, pos: None }
    }

    /// Advances to the next element; true if there is one.
    pub fn next(&mut self) -> (r: bool)
        requires
            !(old(self).current() matches Some(p) && p == usize::MAX),
        ensures
            final(self).source() == old(self).source(),
            final(self).current() == Some(
                match old(self).current() {
                    Some(p) => (p + 1) as usize,
                    None => 0usize,
                },
            ),
            r == (final(self).current().unwrap() < elements(old(self).source()).len()),
    {
        let i = match self.pos {
            Some(p) => p + 1,
            None => 0,
        };
        self.pos = Some(i);
        match &self.source {
            Value::Array(items) => i < items.len(),
            _ => false,
        }
    }

    /// A copy of the current element; an error before the first advance or
    /// past the end.
    pub fn load(&self) -> (r: Result<Value, Error>)
        ensures
            match self.current() {
                Some(i) => if i < elements(self.source()).len() {
                    r matches Ok(v) && value_same(v, elements(self.source())[i as int])
                } else {
                    r matches Err(Error::InternalError(m)) && m@
                        == "load on unpositioned cursor"@
                },
                None => r matches Err(Error::InternalError(m)) && m@
                    == "load on unpositioned cursor"@,
            },
    {
        match self.pos {
            Some(i) => match &self.source {
                Value::Array(items) => {
                    if i < items.len() {
                        Ok(copy_value(&items[i]))
                    } else {
                        Err(unpositioned_cursor())
                    }
                },
                _ => Err(unpositioned_cursor()),
            },
            None => Err(unpositioned_cursor()),
        }
    }
}

} // verus!

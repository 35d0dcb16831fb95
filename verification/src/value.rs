//! The engine's value model: the JSON-like values rows and expressions carry.
use vstd::prelude::*;
use vstd::utf8::encode_utf8;

verus! {

/// A row or expression value.
///
/// A `Float` holds the IEEE-754 binary64 bit pattern of the number; the
/// library orders and compares floats by their bits and never does float
/// arithmetic. An `Object` keeps its members in insertion order.
#[derive(Debug)]
pub enum Value {
    Null,
    Bool(bool),
    Int(i64),
    Float(u64),
    String(String),
    Bytes(Vec<u8>),
    Oid(u32),
    Array(Vec<Value>),
    Object(Vec<Field>),
}

/// One member of an object value.
#[derive(Debug)]
pub struct Field {
    pub key: String,
    pub value: Value,
}

/// The index of the first member named `name`, if any.
pub open spec fn field_index(members: Seq<Field>, name: Seq<char>) -> Option<int>
    decreases members.len(),
{
    if members.len() == 0 {
        None
    } else if members[0].key@ == name {
        Some(0)
    } else {
        match field_index(members.drop_first(), name) {
            Some(i) => Some(i + 1),
            None => None,
        }
    }
}

/// The value of the first member named `name` of an object; `None` for a
/// missing member or a non-object.
pub open spec fn spec_field(v: Value, name: Seq<char>) -> Option<Value> {
    match v {
        Value::Object(members) => match field_index(members@, name) {
            Some(i) => Some(members@[i].value),
            None => None,
        },
        _ => None,
    }
}

impl Value {
    /// Whether this is `null`.
    pub fn is_null(&self) -> (r: bool)
        ensures
            r <==> *self is Null,
    {
        match self {
            Value::Null => true,
            _ => false,
        }
    }

    /// The text of a string value; `None` for any other value.
    pub fn as_str(&self) -> (r: Option<&str>)
        ensures
            (r is Some) == (*self is String),
            r matches Some(t) ==> (*self matches Value::String(s) && t@ == s@),
    {
        match self {
            Value::String(s) => Some(s.as_str()),
            _ => None,
        }
    }

    /// The member `name` of an object (the first, should it repeat); `None`
    /// when it is missing or this is not an object.
    pub fn get_field(&self, name: &str) -> (r: Option<&Value>)
        ensures
            (r is Some) == (spec_field(*self, name@) is Some),
            r matches Some(x) ==> (spec_field(*self, name@) == Some(*x)),
    {
        match self {
            Value::Object(members) => {
                let mut i: usize = 0;
                assert(members@.skip(0) =~= members@);
                while i < members.len()
                    invariant
                        i <= members@.len(),
                        spec_field(*self, name@) == match field_index(members@, name@) {
                            Some(k) => Some(members@[k].value),
                            None => None,
                        },
                        field_index(members@, name@) == match field_index(
                            members@.skip(i as int),
                            name@,
                        ) {
                            Some(j) => Some(j + i),
                            None => None,
                        },
                    decreases members.len() - i,
                {
                    proof {
                        assert(members@.skip(i as int).drop_first() =~= members@.skip(i + 1));
                    }
                    if str_eq(members[i].key.as_str(), name) {
                        assert(members@.skip(i as int)[0] == members@[i as int]);
                        assert(field_index(members@.skip(i as int), name@) == Some(0int));
                        return Some(&members[i].value);
                    }
                    i = i + 1;
                }
                proof {
                    assert(members@.skip(i as int) =~= Seq::<Field>::empty());
                }
                None
            },
            _ => None,
        }
    }
}

/// Whether two strings hold the same characters.
pub fn str_eq(a: &str, b: &str) -> (r: bool)
    ensures
        r <==> a@ == b@,
{
    let x = a.as_bytes();
    let y = b.as_bytes();
    proof {
        vstd::utf8::encode_utf8_decode_utf8(a@);
        vstd::utf8::encode_utf8_decode_utf8(b@);
    }
    if x.len() != y.len() {
        return false;
    }
    let mut i: usize = 0;
    while i < x.len()
        invariant
            i <= x@.len(),
            x@.len() == y@.len(),
            x@ == encode_utf8(a@),
            y@ == encode_utf8(b@),
            x@.take(i as int) == y@.take(i as int),
        decreases x.len() - i,
    {
        if x[i] != y[i] {
            assert(a@ != b@) by {
                if a@ == b@ {
                    assert(x@ =~= y@);
                }
            }
            return false;
        }
        assert(x@.take(i + 1) =~= x@.take(i as int).push(x@[i as int]));
        assert(y@.take(i + 1) =~= y@.take(i as int).push(y@[i as int]));
        i = i + 1;
    }
    assert(x@ =~= x@.take(i as int));
    assert(y@ =~= y@.take(i as int));
    true
}

} // verus!

verus! {

impl From<i64> for Value {
    fn from(i: i64) -> (v: Value) {
        Value::Int(i)
    }
}

impl vstd::std_specs::convert::FromSpecImpl<i64> for Value {
    open spec fn obeys_from_spec() -> bool {
        true
    }

    open spec fn from_spec(i: i64) -> Value {
        Value::Int(i)
    }
}

impl From<bool> for Value {
    fn from(b: bool) -> (v: Value) {
        Value::Bool(b)
    }
}

impl vstd::std_specs::convert::FromSpecImpl<bool> for Value {
    open spec fn obeys_from_spec() -> bool {
        true
    }

    open spec fn from_spec(b: bool) -> Value {
        Value::Bool(b)
    }
}

impl From<String> for Value {
    fn from(s: String) -> (v: Value) {
        Value::String(s)
    }
}

impl vstd::std_specs::convert::FromSpecImpl<String> for Value {
    open spec fn obeys_from_spec() -> bool {
        true
    }

    open spec fn from_spec(s: String) -> Value {
        Value::String(s)
    }
}

} // verus!

verus! {

impl From<&str> for Value {
    fn from(s: &str) -> (v: Value)
        ensures
            v matches Value::String(t) && t@ == s@,
    {
        Value::String(String::from_str(s))
    }
}

impl vstd::std_specs::convert::FromSpecImpl<&str> for Value {
    open spec fn obeys_from_spec() -> bool {
        false
    }

    open spec fn from_spec(s: &str) -> Value {
        Value::Null
    }
}

} // verus!

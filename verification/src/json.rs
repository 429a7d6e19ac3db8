//! JSON values as the server's logic reads them: request parameters and the
//! values that go into request logs.

use vstd::prelude::*;
use crate::text::{chars_eq, chars_of};

verus! {

/// A JSON number: its decimal text, and its value when it is a non-negative
/// integer that fits in a `u64`.
#[derive(Clone, Debug)]
pub struct JsonNumber {
    pub text: String,
    pub as_u64: Option<u64>,
}

/// A JSON value; an object keeps its members in order.
pub enum JsonValue {
    Null,
    Bool(bool),
    Number(JsonNumber),
    String(String),
    Array(Vec<JsonValue>),
    Object(Vec<(String, JsonValue)>),
}

/// The members of an object: keys with their values, in order.
pub type JsonMap = Vec<(String, JsonValue)>;

/// The value of the first member named `key`.
pub open spec fn lookup(m: Seq<(String, JsonValue)>, key: Seq<char>) -> Option<JsonValue>
    decreases m.len(),
{
    if m.len() == 0 {
        None
    } else if m[0].0@ == key {
        Some(m[0].1)
    } else {
        lookup(m.drop_first(), key)
    }
}

pub proof fn lemma_lookup_prefix(m: Seq<(String, JsonValue)>, key: Seq<char>, i: int)
    requires
        0 <= i <= m.len(),
        forall|j: int| 0 <= j < i ==> (#[trigger] m[j]).0@ != key,
    ensures
        lookup(m, key) == lookup(m.skip(i), key),
    decreases i,
{
    if i > 0 {
        assert(m[0].0@ != key);
        let t = m.drop_first();
        assert forall|j: int| 0 <= j < i - 1 implies (#[trigger] t[j]).0@ != key by {
            assert(t[j] == m[j + 1]);
        }
        lemma_lookup_prefix(t, key, i - 1);
        assert(t.skip(i - 1) =~= m.skip(i));
    } else {
        assert(m.skip(0) =~= m);
    }
}

/// `Map::get`: the value of the member named `key`.
pub fn get<'a>(m: &'a JsonMap, key: &str) -> (r: Option<&'a JsonValue>)
    ensures
        match r {
            Some(v) => lookup(m@, key@) == Some(*v),
            None => lookup(m@, key@) is None,
        },
{
    let k = chars_of(key);
    let mut i: usize = 0;
    while i < m.len()
        invariant
            i <= m@.len(),
            k@ == key@,
            forall|j: int| 0 <= j < i ==> (#[trigger] m@[j]).0@ != key@,
        decreases m@.len() - i,
    {
        let kv = &m[i];
        let kc = chars_of(kv.0.as_str());
        if chars_eq(kc.as_slice(), k.as_slice()) {
            proof {
                lemma_lookup_prefix(m@, key@, i as int);
                assert(m@.skip(i as int)[0] == m@[i as int]);
            }
            return Some(&kv.1);
        }
        i = i + 1;
    }
    proof {
        lemma_lookup_prefix(m@, key@, i as int);
    }
    None
}

/// `Value::as_str`.
pub open spec fn str_of(v: Option<JsonValue>) -> Option<Seq<char>> {
    match v {
        Some(JsonValue::String(s)) => Some(s@),
        _ => None,
    }
}

/// `Value::as_bool`.
pub open spec fn bool_of(v: Option<JsonValue>) -> Option<bool> {
    match v {
        Some(JsonValue::Bool(b)) => Some(b),
        _ => None,
    }
}

/// `Value::as_u64`.
pub open spec fn u64_of(v: Option<JsonValue>) -> Option<u64> {
    match v {
        Some(JsonValue::Number(n)) => n.as_u64,
        _ => None,
    }
}

/// Absent, or JSON `null`.
pub open spec fn is_nullish(v: Option<JsonValue>) -> bool {
    v is None || v == Some(JsonValue::Null)
}

} // verus!

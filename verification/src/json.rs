//! The library's own model of a JSON document.
//!
//! A value of [`Json`] holds as plain data everything the graph extraction
//! reads: strings, booleans, nulls, numbers (kept in their decimal textual
//! form, which is all the canonicalizer ever needs of them), arrays, and
//! objects as ordered key/value entry lists.

use vstd::prelude::*;

use crate::text::str_eq;

verus! {

/// An arbitrary JSON value.
///
/// Numbers carry their decimal textual form. Objects keep their entries in
/// declaration order; nothing here forces keys to be distinct, though a
/// document parsed from JSON text has them so.
pub enum Json {
    Null,
    Bool(bool),
    /// The number's decimal textual form, e.g. `"2"` or `"2.5"`.
    Num(String),
    Str(String),
    Arr(Vec<Json>),
    Obj(Vec<(String, Json)>),
}

/// The value of the first entry of `entries` whose key reads `key`, if any.
pub open spec fn lookup(entries: Seq<(String, Json)>, key: Seq<char>) -> Option<Json>
    decreases entries.len(),
{
    if entries.len() == 0 {
        None
    } else if entries[0].0@ == key {
        Some(entries[0].1)
    } else {
        lookup(entries.drop_first(), key)
    }
}

/// What `lookup` finds in the object's entries, or `None` when `v` is not an
/// object at all: the field access every extractor builds on.
pub open spec fn field(v: Json, key: Seq<char>) -> Option<Json> {
    match v {
        Json::Obj(entries) => lookup(entries@, key),
        _ => None,
    }
}

/// No two entries share a key.
pub open spec fn distinct_keys(entries: Seq<(String, Json)>) -> bool {
    forall|i: int, j: int|
        0 <= i < j < entries.len() ==> (#[trigger] entries[i]).0@ != (#[trigger] entries[j]).0@
}

proof fn lemma_lookup_at(entries: Seq<(String, Json)>, key: Seq<char>, i: int)
    requires
        0 <= i < entries.len(),
        entries[i].0@ == key,
        forall|j: int| 0 <= j < i ==> (#[trigger] entries[j]).0@ != key,
    ensures
        lookup(entries, key) == Some(entries[i].1),
    decreases i,
{
    if i > 0 {
        lemma_lookup_at(entries.drop_first(), key, i - 1);
    }
}

proof fn lemma_lookup_absent(entries: Seq<(String, Json)>, key: Seq<char>)
    requires
        forall|j: int| 0 <= j < entries.len() ==> (#[trigger] entries[j]).0@ != key,
    ensures
        lookup(entries, key) is None,
    decreases entries.len(),
{
    if entries.len() > 0 {
        lemma_lookup_absent(entries.drop_first(), key);
    }
}

impl Json {
    /// Looks a field up by key: the first matching entry when `self` is an
    /// object that has one, `None` when it has none or `self` is no object.
    #[verifier::loop_isolation(false)]
    pub fn get<'a>(&'a self, key: &str) -> (r: Option<&'a Json>)
        ensures
            match r {
                Some(f) => field(*self, key@) == Some(*f),
                None => field(*self, key@) is None,
            },
    {
        match self {
            Json::Obj(entries) => {
                let n = entries.len();
                let mut i: usize = 0;
                while i < n
                    invariant
                        n == entries.len(),
                        0 <= i <= n,
                        forall|j: int| 0 <= j < i ==> (#[trigger] entries@[j]).0@ != key@,
                    decreases n - i,
                {
                    if str_eq(entries[i].0.as_str(), key) {
                        proof {
                            lemma_lookup_at(entries@, key@, i as int);
                        }
                        return Some(&entries[i].1);
                    }
                    i = i + 1;
                }
                proof {
                    lemma_lookup_absent(entries@, key@);
                }
                None
            },
            _ => None,
        }
    }
}

} // verus!

//! A JSON document as plain values: what the metadata sources answer, read
//! here field by field.
//!
//! An object keeps its members in the order the parser gave them, each key
//! once; looking up a key that is absent, or indexing anything that is not an
//! object, gives `Null`, as indexing a parsed document does.
use vstd::prelude::*;

use crate::text::chars_of;

verus! {

/// A JSON value.
#[derive(Debug)]
pub enum Json {
    Null,
    Bool(bool),
    /// A number, with its value when it is a whole number that fits a `u64`.
    Number(Option<u64>),
    Text(String),
    Array(Vec<Json>),
    Object(Vec<(String, Json)>),
}

/// Index of the first member named `key` at or after `i` (or the length).
pub open spec fn find_key(members: Seq<(String, Json)>, key: Seq<char>, i: int) -> int
    decreases members.len() - i,
{
    if i < 0 || i >= members.len() {
        members.len() as int
    } else if members[i].0@ == key {
        i
    } else {
        find_key(members, key, i + 1)
    }
}

pub proof fn lemma_find_key(members: Seq<(String, Json)>, key: Seq<char>, i: int)
    requires
        0 <= i <= members.len(),
    ensures
        i <= find_key(members, key, i) <= members.len(),
        find_key(members, key, i) < members.len() ==> members[find_key(members, key, i)].0@
            == key,
        forall|j: int| i <= j < find_key(members, key, i) ==> members[j].0@ != key,
    decreases members.len() - i,
{
    if i < members.len() && members[i].0@ != key {
        lemma_find_key(members, key, i + 1);
    }
}

/// `value[key]`: the member named `key` of an object, `Null` otherwise.
pub open spec fn member_of(value: Json, key: Seq<char>) -> Json {
    match value {
        Json::Object(members) => {
            let i = find_key(members@, key, 0);
            if i < members@.len() {
                members@[i].1
            } else {
                Json::Null
            }
        },
        _ => Json::Null,
    }
}

/// `value[k1][k2]...`: a chain of member lookups.
pub open spec fn path_of(value: Json, keys: Seq<Seq<char>>) -> Json
    decreases keys.len(),
{
    if keys.len() == 0 {
        value
    } else {
        member_of(path_of(value, keys.drop_last()), keys.last())
    }
}

/// `as_str`: the text of a string value.
pub open spec fn text_of(value: Json) -> Option<Seq<char>> {
    match value {
        Json::Text(s) => Some(s@),
        _ => None,
    }
}

/// `as_u64`: the value of a whole, non-negative number.
pub open spec fn u64_of(value: Json) -> Option<u64> {
    match value {
        Json::Number(n) => n,
        _ => None,
    }
}

/// `as_bool`: the value of a boolean.
pub open spec fn bool_of(value: Json) -> Option<bool> {
    match value {
        Json::Bool(b) => Some(b),
        _ => None,
    }
}

/// `as_array`: the elements of an array.
pub open spec fn items_of(value: Json) -> Option<Seq<Json>> {
    match value {
        Json::Array(v) => Some(v@),
        _ => None,
    }
}

/// `as_object`: the members of an object.
pub open spec fn members_of(value: Json) -> Option<Seq<(String, Json)>> {
    match value {
        Json::Object(m) => Some(m@),
        _ => None,
    }
}

/// Whether a string equals `key`.
fn same_key(s: &String, key: &Vec<char>) -> (r: bool)
    ensures
        r == (s@ == key@),
{
    let v = chars_of(s.as_str());
    if v.len() != key.len() {
        return false;
    }
    let mut i: usize = 0;
    while i < v.len()
        invariant
            v@ == s@,
            v@.len() == key@.len(),
            i <= v@.len(),
            forall|j: int| 0 <= j < i ==> v@[j] == key@[j],
        decreases v@.len() - i,
    {
        if v[i] != key[i] {
            return false;
        }
        i = i + 1;
    }
    assert(v@ =~= key@);
    true
}

/// `value[key]`, with `None` standing for `Null`.
pub fn member<'a>(value: &'a Json, key: &str) -> (r: Option<&'a Json>)
    ensures
        or_null(r) == member_of(*value, key@),
        match r {
            Some(v) => *v == member_of(*value, key@),
            None => member_of(*value, key@) == Json::Null,
        },
{
    match value {
        Json::Object(members) => {
            let k = chars_of(key);
            let mut i: usize = 0;
            while i < members.len()
                invariant
                    *value == Json::Object(*members),
                    k@ == key@,
                    i <= members@.len(),
                    find_key(members@, key@, 0) == find_key(members@, key@, i as int),
                decreases members@.len() - i,
            {
                if same_key(&members[i].0, &k) {
                    assert(find_key(members@, key@, i as int) == i as int);
                    return Some(&members[i].1);
                }
                i = i + 1;
            }
            None
        },
        _ => None,
    }
}

/// `value[key]` where the lookup may already have missed.
pub fn member_in<'a>(value: Option<&'a Json>, key: &str) -> (r: Option<&'a Json>)
    ensures
        or_null(r) == member_of(or_null(value), key@),
        match r {
            Some(v) => *v == member_of(or_null(value), key@),
            None => member_of(or_null(value), key@) == Json::Null,
        },
{
    match value {
        Some(v) => member(v, key),
        None => None,
    }
}

/// A lookup result, with `None` read as `Null`.
pub open spec fn or_null(value: Option<&Json>) -> Json {
    match value {
        Some(v) => *v,
        None => Json::Null,
    }
}

/// `as_str` on a lookup result.
pub fn text<'a>(value: Option<&'a Json>) -> (r: Option<&'a String>)
    ensures
        match r {
            Some(s) => text_of(or_null(value)) == Some(s@),
            None => text_of(or_null(value)) is None,
        },
{
    match value {
        Some(Json::Text(s)) => Some(s),
        _ => None,
    }
}

/// `as_u64` on a lookup result.
pub fn whole(value: Option<&Json>) -> (r: Option<u64>)
    ensures
        r == u64_of(or_null(value)),
{
    match value {
        Some(Json::Number(n)) => *n,
        _ => None,
    }
}

/// `as_bool` on a lookup result.
pub fn boolean(value: Option<&Json>) -> (r: Option<bool>)
    ensures
        r == bool_of(or_null(value)),
{
    match value {
        Some(Json::Bool(b)) => Some(*b),
        _ => None,
    }
}

/// `as_array` on a lookup result.
pub fn items<'a>(value: Option<&'a Json>) -> (r: Option<&'a Vec<Json>>)
    ensures
        match r {
            Some(v) => items_of(or_null(value)) == Some(v@),
            None => items_of(or_null(value)) is None,
        },
{
    match value {
        Some(Json::Array(v)) => Some(v),
        _ => None,
    }
}

/// `as_object` on a lookup result.
pub fn members<'a>(value: Option<&'a Json>) -> (r: Option<&'a Vec<(String, Json)>>)
    ensures
        match r {
            Some(m) => members_of(or_null(value)) == Some(m@),
            None => members_of(or_null(value)) is None,
        },
{
    match value {
        Some(Json::Object(m)) => Some(m),
        _ => None,
    }
}

} // verus!

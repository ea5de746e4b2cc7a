//! JSON values as a language server and the daemon send them.
use vstd::prelude::*;

verus! {

/// A JSON value, received or to be sent. Besides its structure it keeps,
/// for a number, the value where it is an integer in the range of `u64` and
/// the text serde_json writes for it, and for a received object, the text
/// serde_json's pretty printer writes for it (empty for an object the
/// library builds to send).
#[derive(Debug)]
pub enum Json {
    Null,
    Bool(bool),
    Number(Option<u64>, String),
    Str(String),
    Array(Vec<Json>),
    Object(Vec<Member>, String),
}

/// A member of an object.
#[derive(Debug)]
pub struct Member {
    pub key: String,
    pub value: Json,
}

/// The index of the first member named `key` at or after `i`.
pub open spec fn member_index(m: Seq<Member>, key: Seq<char>, i: int) -> Option<int>
    decreases m.len() - i,
{
    if i < 0 || i >= m.len() {
        None
    } else if m[i].key@ == key {
        Some(i)
    } else {
        member_index(m, key, i + 1)
    }
}

/// The member `key` of an object.
pub open spec fn get_spec(j: Json, key: Seq<char>) -> Option<Json> {
    match j {
        Json::Object(m, _) => match member_index(m@, key, 0) {
            Some(i) => Some(m@[i].value),
            None => None,
        },
        _ => None,
    }
}

/// The text of a string value.
pub open spec fn str_spec(j: Option<Json>) -> Option<Seq<char>> {
    match j {
        Some(Json::Str(s)) => Some(s@),
        _ => None,
    }
}

/// The value of a number that is an integer in the range of `u64`.
pub open spec fn u64_spec(j: Option<Json>) -> Option<u64> {
    match j {
        Some(Json::Number(n, _)) => n,
        _ => None,
    }
}

/// The items of an array.
pub open spec fn array_spec(j: Option<Json>) -> Option<Seq<Json>> {
    match j {
        Some(Json::Array(items)) => Some(items@),
        _ => None,
    }
}

/// A key found from position `i` on is found at or after `i`, inside the
/// members, under that key.
pub proof fn lemma_member_index_bounds(m: Seq<Member>, key: Seq<char>, i: int)
    ensures
        member_index(m, key, i) matches Some(k) ==> i <= k < m.len() && m[k].key@ == key,
    decreases m.len() - i,
{
    if 0 <= i < m.len() && m[i].key@ != key {
        lemma_member_index_bounds(m, key, i + 1);
    }
}

impl Json {
    /// The member `key` of an object; `None` for a missing member or a
    /// value that is not an object.
    pub fn get(&self, key: &str) -> (r: Option<&Json>)
        ensures
            match r {
                Some(v) => get_spec(*self, key@) == Some(*v),
                None => get_spec(*self, key@) is None,
            },
    {
        match self {
            Json::Object(members, _) => {
                let k = key.to_owned();
                let mut i: usize = 0;
                while i < members.len()
                    invariant
                        i <= members.len(),
                        k@ == key@,
                        *self is Object && self->Object_0 == *members,
                        member_index(members@, key@, 0) == member_index(members@, key@, i as int),
                    decreases members.len() - i,
                {
                    if members[i].key == k {
                        assert(member_index(members@, key@, i as int) == Some(i as int));
                        return Some(&members[i].value);
                    }
                    i += 1;
                }
                None
            },
            _ => None,
        }
    }

    /// The text of a string value.
    pub fn as_str(&self) -> (r: Option<&String>)
        ensures
            match r {
                Some(s) => str_spec(Some(*self)) == Some(s@),
                None => str_spec(Some(*self)) is None,
            },
    {
        match self {
            Json::Str(s) => Some(s),
            _ => None,
        }
    }

    /// The value of a number that is an integer in the range of `u64`.
    pub fn as_u64(&self) -> (r: Option<u64>)
        ensures
            r == u64_spec(Some(*self)),
    {
        match self {
            Json::Number(n, _) => *n,
            _ => None,
        }
    }

    /// The items of an array.
    pub fn as_array(&self) -> (r: Option<&Vec<Json>>)
        ensures
            match r {
                Some(v) => array_spec(Some(*self)) == Some(v@),
                None => array_spec(Some(*self)) is None,
            },
    {
        match self {
            Json::Array(items) => Some(items),
            _ => None,
        }
    }

    /// Whether the value is `null`.
    pub fn is_null(&self) -> (r: bool)
        ensures
            r == (*self is Null),
    {
        match self {
            Json::Null => true,
            _ => false,
        }
    }
}

} // verus!

//! JSON values as far as requests are read.

use vstd::prelude::*;

use crate::text::same_text;

verus! {

/// A JSON value. Of a number it is kept which integers it is; its fraction is
/// not looked at.
#[derive(Debug)]
pub enum Json {
    Null,
    Bool(bool),
    Number { unsigned: Option<u64>, signed: Option<i64> },
    Text(String),
    Array(Vec<Json>),
    Object(Vec<(String, Json)>),
}

/// The first member of an object under a key.
pub open spec fn member(members: Seq<(String, Json)>, key: Seq<char>) -> Option<Json>
    decreases members.len(),
{
    if members.len() == 0 {
        None
    } else if members[0].0@ == key {
        Some(members[0].1)
    } else {
        member(members.skip(1), key)
    }
}

impl Json {
    /// The member of an object under a key; nothing else has members.
    pub open spec fn field(self, key: Seq<char>) -> Option<Json> {
        match self {
            Json::Object(members) => member(members@, key),
            _ => None,
        }
    }

    /// The unsigned integer that a number is.
    pub open spec fn unsigned_value(self) -> Option<u64> {
        match self {
            Json::Number { unsigned, signed } => unsigned,
            _ => None,
        }
    }

    /// The signed integer that a number is.
    pub open spec fn signed_value(self) -> Option<i64> {
        match self {
            Json::Number { unsigned, signed } => signed,
            _ => None,
        }
    }

    /// The member of an object under a key.
    pub fn get(&self, key: &str) -> (r: Option<&Json>)
        ensures
            match r {
                Some(value) => self.field(key@) == Some(*value),
                None => self.field(key@) is None,
            },
    {
        match self {
            Json::Object(members) => {
                let mut i: usize = 0;
                assert(members@.skip(0) =~= members@);
                while i < members.len()
                    invariant
                        i <= members@.len(),
                        *self == Json::Object(*members),
                        member(members@, key@) == member(members@.skip(i as int), key@),
                    decreases members@.len() - i,
                {
                    if same_text(members[i].0.as_str(), key) {
                        return Some(&members[i].1);
                    }
                    assert(members@.skip(i as int).skip(1) =~= members@.skip(i + 1));
                    i = i + 1;
                }
                None
            },
            _ => None,
        }
    }

    /// The unsigned integer that a number is.
    pub fn as_u64(&self) -> (r: Option<u64>)
        ensures
            r == self.unsigned_value(),
    {
        match self {
            Json::Number { unsigned, signed: _ } => *unsigned,
            _ => None,
        }
    }

    /// The signed integer that a number is.
    pub fn as_i64(&self) -> (r: Option<i64>)
        ensures
            r == self.signed_value(),
    {
        match self {
            Json::Number { unsigned: _, signed } => *signed,
            _ => None,
        }
    }

    /// Whether this is a number.
    pub fn is_number(&self) -> (r: bool)
        ensures
            r == (*self is Number),
    {
        match self {
            Json::Number { .. } => true,
            _ => false,
        }
    }

    /// Whether this is null.
    pub fn is_null(&self) -> (r: bool)
        ensures
            r == (*self is Null),
    {
        match self {
            Json::Null => true,
            _ => false,
        }
    }
}

/// A member that is found is the first of its name; where none is found, there is no
/// member of that name.
pub proof fn lemma_members_are_found_by_name(members: Seq<(String, Json)>, key: Seq<char>)
    ensures
        match member(members, key) {
            Some(value) => exists|i: int|
                #![trigger members[i]]
                0 <= i < members.len() && members[i].0@ == key && members[i].1 == value
                    && forall|k: int| 0 <= k < i ==> (#[trigger] members[k]).0@ != key,
            None => forall|k: int| 0 <= k < members.len() ==> (#[trigger] members[k]).0@ != key,
        },
    decreases members.len(),
{
    if members.len() > 0 {
        let rest = members.skip(1);
        if members[0].0@ != key {
            lemma_members_are_found_by_name(rest, key);
            match member(members, key) {
                Some(value) => {
                    let i = choose|i: int|
                        #![trigger rest[i]]
                        0 <= i < rest.len() && rest[i].0@ == key && rest[i].1 == value
                            && forall|k: int| 0 <= k < i ==> (#[trigger] rest[k]).0@ != key;
                    assert(members[i + 1] == rest[i]);
                    assert forall|k: int| 0 <= k < i + 1 implies (#[trigger] members[k]).0@
                        != key by {
                        if k > 0 {
                            assert(members[k] == rest[k - 1]);
                        }
                    }
                },
                None => {
                    assert forall|k: int| 0 <= k < members.len() implies (#[trigger] members[k]).0@
                        != key by {
                        if k > 0 {
                            assert(members[k] == rest[k - 1]);
                        }
                    }
                },
            }
        }
    }
}

/// Only objects have members, and only numbers are integers.
pub proof fn lemma_kinds_of_values(value: Json, key: Seq<char>)
    ensures
        value.field(key) is Some ==> value is Object,
        value.unsigned_value() is Some ==> value is Number && value->unsigned
            == value.unsigned_value(),
        value.signed_value() is Some ==> value is Number && value->signed == value.signed_value(),
        value is Number ==> value.unsigned_value() == value->unsigned && value.signed_value()
            == value->signed,
{
}

} // verus!

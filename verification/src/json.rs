//! JSON values as the rest of the library reads them.

use vstd::prelude::*;

use crate::text;

verus! {

/// A JSON value.
///
/// Numbers are kept as far as anything reads them: an integer that fits in a
/// `u64` by its value, any other number as [`Json::OtherNumber`].
#[derive(Debug)]
pub enum Json {
    Null,
    Bool(bool),
    Unsigned(u64),
    OtherNumber,
    Text(String),
    Array(Vec<Json>),
    /// The members in order. A parsed object has each key once; in a value
    /// built by hand the first member with a key counts.
    Object(Vec<Member>),
}

/// One key of an object with its value.
#[derive(Debug)]
pub struct Member {
    pub key: String,
    pub value: Json,
}

/// The value of the first member with the given key.
pub open spec fn lookup(members: Seq<Member>, key: Seq<char>) -> Option<Json>
    decreases members.len(),
{
    if members.len() == 0 {
        None
    } else if members.first().key@ == key {
        Some(members.first().value)
    } else {
        lookup(members.drop_first(), key)
    }
}

impl Json {
    /// The value under `key`, if this is an object that has it.
    pub open spec fn member(self, key: Seq<char>) -> Option<Json> {
        match self {
            Json::Object(members) => lookup(members@, key),
            _ => None,
        }
    }

    /// The text, if this is a string.
    pub open spec fn text(self) -> Option<Seq<char>> {
        match self {
            Json::Text(text) => Some(text@),
            _ => None,
        }
    }

    /// The elements, if this is an array.
    pub open spec fn elements(self) -> Option<Seq<Json>> {
        match self {
            Json::Array(elements) => Some(elements@),
            _ => None,
        }
    }

    /// The number, if this is an integer that fits in a `u64`.
    pub open spec fn unsigned(self) -> Option<u64> {
        match self {
            Json::Unsigned(n) => Some(n),
            _ => None,
        }
    }

    /// The string under `key`, if there is one.
    pub open spec fn text_member(self, key: Seq<char>) -> Option<Seq<char>> {
        match self.member(key) {
            Some(value) => value.text(),
            None => None,
        }
    }

    pub fn get(&self, key: &str) -> (found: Option<&Json>)
        ensures
            match found {
                Some(value) => self.member(key@) == Some(*value),
                None => self.member(key@) is None,
            },
    {
        match self {
            Json::Object(members) => {
                assert(members@.skip(0) =~= members@);
                for i in 0..members.len()
                    invariant
                        *self == Json::Object(*members),
                        lookup(members@, key@) == lookup(members@.skip(i as int), key@),
                {
                    assert(members@.skip(i as int).drop_first() =~= members@.skip(i + 1));
                    if text::same_text(members[i].key.as_str(), key) {
                        return Some(&members[i].value);
                    }
                }
                None
            },
            _ => None,
        }
    }

    pub fn as_str(&self) -> (found: Option<&str>)
        ensures
            match found {
                Some(text) => self.text() == Some(text@),
                None => self.text() is None,
            },
    {
        match self {
            Json::Text(text) => Some(text.as_str()),
            _ => None,
        }
    }

    pub fn as_array(&self) -> (found: Option<&Vec<Json>>)
        ensures
            match found {
                Some(elements) => self.elements() == Some(elements@),
                None => self.elements() is None,
            },
    {
        match self {
            Json::Array(elements) => Some(elements),
            _ => None,
        }
    }

    pub fn as_u64(&self) -> (found: Option<u64>)
        ensures
            found == self.unsigned(),
    {
        match self {
            Json::Unsigned(n) => Some(*n),
            _ => None,
        }
    }

    /// The string under `key`, if there is one.
    pub fn get_str(&self, key: &str) -> (found: Option<&str>)
        ensures
            match found {
                Some(text) => self.text_member(key@) == Some(text@),
                None => self.text_member(key@) is None,
            },
    {
        match self.get(key) {
            Some(value) => value.as_str(),
            None => None,
        }
    }
}

/// A key of an object leads to the first of its members with that key, and to
/// nothing where no member has it.
pub proof fn lookup_finds_the_first_member(members: Seq<Member>, key: Seq<char>)
    ensures
        match lookup(members, key) {
            Some(value) => exists|i: int|
                {
                    &&& 0 <= i < members.len()
                    &&& (#[trigger] members[i]).key@ == key
                    &&& members[i].value == value
                    &&& forall|j: int| 0 <= j < i ==> (#[trigger] members[j]).key@ != key
                },
            None => forall|i: int| 0 <= i < members.len() ==> (#[trigger] members[i]).key@ != key,
        },
    decreases members.len(),
{
    if members.len() > 0 {
        assert(members[0] == members.first());
        if members.first().key@ != key {
            let rest = members.drop_first();
            lookup_finds_the_first_member(rest, key);
            match lookup(rest, key) {
                Some(value) => {
                    let i = choose|i: int|
                        {
                            &&& 0 <= i < rest.len()
                            &&& (#[trigger] rest[i]).key@ == key
                            &&& rest[i].value == value
                            &&& forall|j: int| 0 <= j < i ==> (#[trigger] rest[j]).key@ != key
                        };
                    assert(members[i + 1] == rest[i]);
                    assert forall|j: int| 0 <= j < i + 1 implies (#[trigger] members[j]).key@
                        != key by {
                        if j > 0 {
                            assert(rest[j - 1] == members[j]);
                        }
                    }
                },
                None => {
                    assert forall|j: int| 0 <= j < members.len() implies (
                    #[trigger] members[j]).key@ != key by {
                        if j > 0 {
                            assert(rest[j - 1] == members[j]);
                        }
                    }
                },
            }
        }
    }
}

/// A value is read as what it is: members of an object only, the text of a
/// string only, the elements of an array only, the number of an integer only.
pub proof fn values_are_read_as_what_they_are(value: Json, key: Seq<char>)
    ensures
        value.member(key) == match value {
            Json::Object(members) => lookup(members@, key),
            _ => None,
        },
        value.text() is Some <==> value is Text,
        value matches Json::Text(text) ==> value.text() == Some(text@),
        value.elements() is Some <==> value is Array,
        value matches Json::Array(elements) ==> value.elements() == Some(elements@),
        value.unsigned() is Some <==> value is Unsigned,
        value matches Json::Unsigned(n) ==> value.unsigned() == Some(n),
        value.text_member(key) is Some <==> (value.member(key) matches Some(found) && found is Text),
        value.member(key) matches Some(Json::Text(text)) ==> value.text_member(key) == Some(text@),
{
}

} // verus!

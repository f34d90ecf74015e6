//! JSON documents as plain values.

use vstd::prelude::*;
use crate::text::same;

verus! {

/// A JSON value. A number is held as its numeral, an object as its members in order.
#[derive(Debug)]
pub enum Json {
    Null,
    Bool(bool),
    Number(String),
    Text(String),
    Array(Vec<Json>),
    Object(Vec<(String, Json)>),
}

/// The first member of that name, not before index `from`.
pub open spec fn member_from(members: Seq<(String, Json)>, name: Seq<char>, from: int) -> Option<Json>
    decreases members.len() - from,
{
    if from < 0 || from >= members.len() {
        None
    } else if members[from].0@ == name {
        Some(members[from].1)
    } else {
        member_from(members, name, from + 1)
    }
}

impl Json {
    /// The member of that name, where this is an object that has one.
    pub open spec fn member(self, name: Seq<char>) -> Option<Json> {
        match self {
            Json::Object(members) => member_from(members@, name, 0),
            _ => None,
        }
    }

    /// The text, where this is one.
    pub open spec fn text_view(self) -> Option<Seq<char>> {
        match self {
            Json::Text(s) => Some(s@),
            _ => None,
        }
    }

    /// The text of the member of that name, where there is one and it is a text.
    pub open spec fn member_text(self, name: Seq<char>) -> Option<Seq<char>> {
        match self.member(name) {
            Some(v) => v.text_view(),
            None => None,
        }
    }

    /// The member of that name, where this is an object that has one.
    pub fn get(&self, name: &str) -> (r: Option<&Json>)
        ensures
            match r {
                Some(v) => self.member(name@) == Some(*v),
                None => self.member(name@) is None,
            },
    {
        match self {
            Json::Object(members) => {
                let mut i: usize = 0;
                while i < members.len()
                    invariant
                        i <= members@.len(),
                        *self == Json::Object(*members),
                        member_from(members@, name@, 0) == member_from(members@, name@, i as int),
                    decreases members@.len() - i,
                {
                    if same(members[i].0.as_str(), name) {
                        return Some(&members[i].1);
                    }
                    i = i + 1;
                }
                None
            },
            _ => None,
        }
    }

    /// The text, where this is one.
    pub fn as_text(&self) -> (r: Option<&str>)
        ensures
            crate::text::opt_view(r) == self.text_view(),
    {
        match self {
            Json::Text(s) => Some(s.as_str()),
            _ => None,
        }
    }

    /// The text of the member of that name, where there is one and it is a text.
    pub fn get_text(&self, name: &str) -> (r: Option<&str>)
        ensures
            crate::text::opt_view(r) == self.member_text(name@),
    {
        match self.get(name) {
            Some(v) => v.as_text(),
            None => None,
        }
    }
}

// ---------------------------------------------------------------------------
// Laws
// ---------------------------------------------------------------------------

/// A member of an object is the first of that name, wherever that stands; what is no object, or an
/// object without such a member, has none. The text of a member is there where the member is one.
pub proof fn law_first_member_counts(document: Json, name: Seq<char>)
    ensures
        match document {
            Json::Object(members) => match document.member(name) {
                Some(value) => exists|i: int|
                    #![trigger members@[i]]
                    0 <= i < members@.len() && members@[i].0@ == name && members@[i].1 == value
                        && forall|j: int| 0 <= j < i ==> (#[trigger] members@[j]).0@ != name,
                None => forall|j: int|
                    0 <= j < members@.len() ==> (#[trigger] members@[j]).0@ != name,
            },
            _ => document.member(name) is None,
        },
        forall|s: String|
            document.member(name) == Some(Json::Text(s)) ==> #[trigger] document.member_text(name)
                == Some(s@),
        !(document.member(name) matches Some(Json::Text(_))) ==> document.member_text(name) is None,
{
    match document {
        Json::Object(members) => lemma_member_from(members@, name, 0),
        _ => {},
    }
}

proof fn lemma_member_from(members: Seq<(String, Json)>, name: Seq<char>, from: int)
    requires
        0 <= from,
    ensures
        match member_from(members, name, from) {
            Some(value) => exists|i: int|
                #![trigger members[i]]
                from <= i < members.len() && members[i].0@ == name && members[i].1 == value
                    && forall|j: int| from <= j < i ==> (#[trigger] members[j]).0@ != name,
            None => forall|j: int|
                from <= j < members.len() ==> (#[trigger] members[j]).0@ != name,
        },
    decreases members.len() - from,
{
    if from < members.len() {
        if members[from].0@ == name {
            assert(members[from].1 == members[from].1);
        } else {
            lemma_member_from(members, name, from + 1);
        }
    }
}

} // verus!

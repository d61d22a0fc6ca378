//! JSON values as plain data.

use vstd::prelude::*;

use crate::text::same;

verus! {

/// A JSON value, with its compact text.
#[derive(Debug)]
pub struct Json {
    pub text: String,
    pub node: Node,
}

/// The kinds of JSON values.
#[derive(Debug)]
pub enum Node {
    Null,
    Bool(bool),
    Number,
    Text(String),
    List(Vec<Json>),
    /// The members, in the order in which they were written.
    Object(Vec<(String, Json)>),
}

#[verifier::external_type_specification]
#[verifier::external_body]
pub struct ExValue(serde_json::Value);

/// What a `serde_json::Value` holds.
pub uninterp spec fn tree_of(v: serde_json::Value) -> Json;

/// What `serde_json::from_str` makes of a text: the value that it reads, or the text of
/// the error.
pub uninterp spec fn json_of(text: Seq<char>) -> Result<Json, Seq<char>>;

/// `serde_json::from_str`: the result is the named one, a value or the text of the error.
#[verifier::external_body]
fn read_value(text: &str) -> (r: Result<serde_json::Value, String>)
    ensures
        match r {
            Ok(v) => json_of(text@) == Ok::<Json, Seq<char>>(tree_of(v)),
            Err(e) => json_of(text@) == Err::<Json, Seq<char>>(e@),
        },
{
    match serde_json::from_str(text) {
        Ok(v) => Ok(v),
        Err(e) => Err(e.to_string()),
    }
}

/// Takes a `serde_json::Value` apart: the result is what it holds, each part with the
/// text that its `Display` writes.
#[verifier::external_body]
fn import_value(v: &serde_json::Value) -> (r: Json)
    ensures
        r == tree_of(*v),
{
    let node = match v {
        serde_json::Value::Null => Node::Null,
        serde_json::Value::Bool(b) => Node::Bool(*b),
        serde_json::Value::Number(_) => Node::Number,
        serde_json::Value::String(s) => Node::Text(s.clone()),
        serde_json::Value::Array(a) => Node::List(a.iter().map(import_value).collect()),
        serde_json::Value::Object(m) => Node::Object(
            m.iter().map(|(k, x)| (k.clone(), import_value(x))).collect(),
        ),
    };
    Json { text: v.to_string(), node }
}

/// The value that a JSON text stands for, or what is wrong with the text.
pub fn parse_json(text: &str) -> (r: Result<Json, String>)
    ensures
        match r {
            Ok(v) => json_of(text@) == Ok::<Json, Seq<char>>(v),
            Err(e) => json_of(text@) == Err::<Json, Seq<char>>(e@),
        },
{
    match read_value(text) {
        Ok(v) => Ok(import_value(&v)),
        Err(e) => Err(e),
    }
}

/// The position of the member called `key`, counted from `from`, or the number of
/// members.
pub open spec fn member_index(members: Seq<(String, Json)>, key: Seq<char>, from: int) -> int
    decreases members.len() - from,
{
    if from < 0 || from >= members.len() || members[from].0@ == key {
        from
    } else {
        member_index(members, key, from + 1)
    }
}

impl Json {
    /// The member called `key`, where the value is an object that has one.
    pub open spec fn member(self, key: Seq<char>) -> Option<Json> {
        match self.node {
            Node::Object(members) => {
                let i = member_index(members@, key, 0);
                if 0 <= i < members@.len() {
                    Some(members@[i].1)
                } else {
                    None
                }
            },
            _ => None,
        }
    }

    /// The text that the value is, where it is one.
    pub open spec fn string(self) -> Option<Seq<char>> {
        match self.node {
            Node::Text(s) => Some(s@),
            _ => None,
        }
    }

    /// The text that the member called `key` is, where there is one.
    pub open spec fn string_member(self, key: Seq<char>) -> Option<Seq<char>> {
        match self.member(key) {
            Some(v) => v.string(),
            None => None,
        }
    }

    /// The items of the list that the value is, or none.
    pub open spec fn items(self) -> Option<Seq<Json>> {
        match self.node {
            Node::List(v) => Some(v@),
            _ => None,
        }
    }

    /// The items of the list that the member called `key` is, or none.
    pub open spec fn list_member(self, key: Seq<char>) -> Option<Seq<Json>> {
        match self.member(key) {
            Some(v) => v.items(),
            None => None,
        }
    }

    /// The member called `key`.
    pub fn get(&self, key: &str) -> (r: Option<&Json>)
        ensures
            match r {
                Some(v) => self.member(key@) == Some(*v),
                None => self.member(key@) is None,
            },
    {
        match &self.node {
            Node::Object(members) => {
                let mut i: usize = 0;
                while i < members.len()
                    invariant
                        i <= members@.len(),
                        self.node == Node::Object(*members),
                        member_index(members@, key@, 0) == member_index(
                            members@,
                            key@,
                            i as int,
                        ),
                    decreases members@.len() - i,
                {
                    if same(members[i].0.as_str(), key) {
                        return Some(&members[i].1);
                    }
                    i += 1;
                }
                None
            },
            _ => None,
        }
    }

    /// The text that the value is.
    pub fn as_str(&self) -> (r: Option<&str>)
        ensures
            match r {
                Some(s) => self.string() == Some(s@),
                None => self.string() is None,
            },
    {
        match &self.node {
            Node::Text(s) => Some(s.as_str()),
            _ => None,
        }
    }

    /// The text that the member called `key` is.
    pub fn get_str(&self, key: &str) -> (r: Option<&str>)
        ensures
            match r {
                Some(s) => self.string_member(key@) == Some(s@),
                None => self.string_member(key@) is None,
            },
    {
        match self.get(key) {
            Some(v) => v.as_str(),
            None => None,
        }
    }

    /// The items of the list that the value is.
    pub fn as_array(&self) -> (r: Option<&Vec<Json>>)
        ensures
            match r {
                Some(v) => self.items() == Some(v@) && self.node == Node::List(*v),
                None => self.items() is None,
            },
    {
        match &self.node {
            Node::List(v) => Some(v),
            _ => None,
        }
    }

    /// The items of the list that the member called `key` is.
    pub fn get_array(&self, key: &str) -> (r: Option<&Vec<Json>>)
        ensures
            match r {
                Some(v) => self.list_member(key@) == Some(v@),
                None => self.list_member(key@) is None,
            },
    {
        match self.get(key) {
            Some(v) => v.as_array(),
            None => None,
        }
    }
}

proof fn lemma_member_index(members: Seq<(String, Json)>, key: Seq<char>, from: int)
    requires
        0 <= from <= members.len(),
    ensures
        from <= member_index(members, key, from) <= members.len(),
        member_index(members, key, from) < members.len() ==> members[member_index(
            members,
            key,
            from,
        )].0@ == key,
        forall|i: int|
            from <= i < member_index(members, key, from) ==> (#[trigger] members[i]).0@ != key,
    decreases members.len() - from,
{
    if from < members.len() && members[from].0@ != key {
        lemma_member_index(members, key, from + 1);
    }
}

/// The member of an object is the first one of its name, and there is none exactly where no
/// member has the name, or the value is no object. Its text or items are given only where
/// it is a text or a list.
pub proof fn law_member_is_found_by_its_name(v: Json, key: Seq<char>, at: int)
    ensures
        v.node matches Node::Object(members) ==> {
            &&& 0 <= at < members@.len() && members@[at].0@ == key && (forall|i: int|
                0 <= i < at ==> (#[trigger] members@[i]).0@ != key) ==> v.member(key) == Some(
                members@[at].1,
            )
            &&& (forall|i: int| 0 <= i < members@.len() ==> (#[trigger] members@[i]).0@ != key)
                ==> v.member(key) is None
        },
        !(v.node is Object) ==> v.member(key) is None,
        v.string_member(key) is Some <==> v.member(key) is Some && v.member(key)->0.node is Text,
        v.member(key) matches Some(x) ==> (x.node matches Node::Text(s) ==> v.string_member(key)
            == Some(s@)),
        v.list_member(key) is Some <==> v.member(key) is Some && v.member(key)->0.node is List,
        v.member(key) matches Some(x) ==> (x.node matches Node::List(l) ==> v.list_member(key)
            == Some(l@)),
{
    if let Node::Object(members) = v.node {
        lemma_member_index(members@, key, 0);
        let i = member_index(members@, key, 0);
        if 0 <= at < members@.len() && members@[at].0@ == key && i != at {
            if i < at {
                assert(members@[i].0@ == key);
            }
        }
    }
}

} // verus!

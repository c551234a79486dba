//! JSON documents as trees of plain values, read with `serde_json`.

use vstd::prelude::*;

verus! {

/// A JSON value.
#[derive(Debug, PartialEq, Eq)]
pub enum Json {
    Null,
    Bool(bool),
    /// A number. It holds `Some(n)` when the number is written as a non-negative
    /// integer that fits 64 bits, and `None` for every other number.
    Number(Option<u64>),
    Text(String),
    Array(Vec<Json>),
    /// An object, as its members in the order of their keys. No key occurs twice
    /// in an object that was read from text: where the text gives one several
    /// times, the last of them stands.
    Object(Vec<(String, Json)>),
}

#[verifier::external_type_specification]
#[verifier::external_body]
pub struct ExValue(serde_json::Value);

/// What `serde_json` reads from a text: the value the text denotes, or the
/// parser's description of why the text is not JSON.
pub uninterp spec fn json_document(text: Seq<char>) -> Result<Json, String>;

/// Turns a `serde_json::Value` into a `Json`, variant by variant. A number is
/// handed over as `serde_json::Number::as_u64` gives it, an object as its map
/// is walked.
#[verifier::external_body]
fn json_from_value(value: serde_json::Value) -> Json {
    match value {
        serde_json::Value::Null => Json::Null,
        serde_json::Value::Bool(b) => Json::Bool(b),
        serde_json::Value::Number(n) => Json::Number(n.as_u64()),
        serde_json::Value::String(s) => Json::Text(s),
        serde_json::Value::Array(items) => Json::Array(
            items.into_iter().map(json_from_value).collect(),
        ),
        serde_json::Value::Object(members) => Json::Object(
            members.into_iter().map(|(key, member)| (key, json_from_value(member))).collect(),
        ),
    }
}

/// Calls `serde_json::from_str` for a `serde_json::Value`. The result is a
/// function of the text alone: the value read, or the text of the error.
#[verifier::external_body]
pub(crate) fn read_json(text: &str) -> (document: Result<Json, String>)
    ensures
        document == json_document(text@),
{
    match serde_json::from_str::<serde_json::Value>(text) {
        Ok(value) => Ok(json_from_value(value)),
        Err(error) => Err(error.to_string()),
    }
}

/// The member of an object that `name` selects: the first one whose key is `name`.
pub open spec fn member(members: Seq<(String, Json)>, name: Seq<char>) -> Option<Json>
    decreases members.len(),
{
    if members.len() == 0 {
        None
    } else if members[0].0@ == name {
        Some(members[0].1)
    } else {
        member(members.drop_first(), name)
    }
}

impl Json {
    /// The member that `name` selects, where the value is an object that has one.
    pub open spec fn member_named(self, name: Seq<char>) -> Option<Json> {
        match self {
            Json::Object(members) => member(members@, name),
            _ => None,
        }
    }

    /// Looks a member of an object up by its key.
    pub fn get(&self, name: &str) -> (found: Option<&Json>)
        ensures
            found is Some <==> self.member_named(name@) is Some,
            found is Some ==> Some(*found->0) == self.member_named(name@),
    {
        match self {
            Json::Object(members) => {
                let wanted = name.to_owned();
                let mut i: usize = 0;
                assert(members@.skip(0) =~= members@);
                while i < members.len()
                    invariant
                        i <= members.len(),
                        wanted@ == name@,
                        self.member_named(name@) == member(members@.skip(i as int), name@),
                    decreases members.len() - i,
                {
                    assert(members@.skip(i as int)[0] == members@[i as int]);
                    if members[i].0 == wanted {
                        return Some(&members[i].1);
                    }
                    assert(members@.skip(i as int).drop_first() =~= members@.skip(i as int + 1));
                    i = i + 1;
                }
                None
            },
            _ => None,
        }
    }
}

} // verus!

//! JSON documents as plain trees, through `serde_json`.
use vstd::prelude::*;

verus! {

/// A JSON value as the logic reads it. Numbers are carried without their value.
#[derive(Debug)]
pub enum JsonValue {
    Null,
    Bool(bool),
    Number,
    Str(String),
    Array(Vec<JsonValue>),
    /// An object's members in the order `serde_json` iterates them.
    Object(Vec<(String, JsonValue)>),
}

/// The plain value of a JSON value.
pub enum JsonTree {
    Null,
    Bool(bool),
    Number,
    Str(Seq<char>),
    Array(Seq<JsonTree>),
    Object(Seq<(Seq<char>, JsonTree)>),
}

pub open spec fn json_of(v: JsonValue) -> JsonTree
    decreases v, 0int,
{
    match v {
        JsonValue::Null => JsonTree::Null,
        JsonValue::Bool(b) => JsonTree::Bool(b),
        JsonValue::Number => JsonTree::Number,
        JsonValue::Str(s) => JsonTree::Str(s@),
        JsonValue::Array(items) => JsonTree::Array(jsons_of(items@)),
        JsonValue::Object(members) => JsonTree::Object(members_of(members@)),
    }
}

pub open spec fn jsons_of(items: Seq<JsonValue>) -> Seq<JsonTree>
    decreases items, 1int,
{
    if items.len() == 0 {
        Seq::empty()
    } else {
        jsons_of(items.drop_last()).push(json_of(items.last()))
    }
}

pub open spec fn members_of(members: Seq<(String, JsonValue)>) -> Seq<(Seq<char>, JsonTree)>
    decreases members, 1int,
{
    if members.len() == 0 {
        Seq::empty()
    } else {
        members_of(members.drop_last()).push((members.last().0@, json_of(members.last().1)))
    }
}

pub proof fn lemma_jsons_of(items: Seq<JsonValue>)
    ensures
        jsons_of(items).len() == items.len(),
        forall|i: int| 0 <= i < items.len() ==> #[trigger] jsons_of(items)[i] == json_of(items[i]),
    decreases items.len(),
{
    if items.len() > 0 {
        lemma_jsons_of(items.drop_last());
        assert forall|i: int| 0 <= i < items.len() implies #[trigger] jsons_of(items)[i] == json_of(items[i]) by {
            if i < items.len() - 1 {
                assert(items.drop_last()[i] == items[i]);
            }
        }
    }
}

pub proof fn lemma_members_of(members: Seq<(String, JsonValue)>)
    ensures
        members_of(members).len() == members.len(),
        forall|i: int| 0 <= i < members.len() ==> #[trigger] members_of(members)[i] == (members[i].0@, json_of(members[i].1)),
    decreases members.len(),
{
    if members.len() > 0 {
        lemma_members_of(members.drop_last());
        assert forall|i: int| 0 <= i < members.len() implies #[trigger] members_of(members)[i] == (members[i].0@, json_of(members[i].1)) by {
            if i < members.len() - 1 {
                assert(members.drop_last()[i] == members[i]);
            }
        }
    }
}

/// What `serde_json` parses a text into, or its error.
pub uninterp spec fn spec_json(text: Seq<char>) -> Result<JsonTree, Seq<char>>;

#[verifier::external_type_specification]
#[verifier::external_body]
pub struct ExJsonValue(serde_json::Value);

/// A `serde_json` value as a tree, variant for variant.
#[verifier::external_body]
fn json_tree(value: &serde_json::Value) -> JsonValue {
    match value {
        serde_json::Value::Null => JsonValue::Null,
        serde_json::Value::Bool(b) => JsonValue::Bool(*b),
        serde_json::Value::Number(_) => JsonValue::Number,
        serde_json::Value::String(s) => JsonValue::Str(s.clone()),
        serde_json::Value::Array(a) => JsonValue::Array(a.iter().map(json_tree).collect()),
        serde_json::Value::Object(o) => JsonValue::Object(o.iter().map(|(k, v)| (k.clone(), json_tree(v))).collect()),
    }
}

/// `serde_json::from_str::<serde_json::Value>(text)`: the document as a tree, or the parser's
/// message. The parse itself is named by `spec_json`.
#[verifier::external_body]
pub(crate) fn parse_json(text: &str) -> (r: Result<JsonValue, String>)
    ensures
        match r {
            Ok(v) => spec_json(text@) == Ok::<JsonTree, Seq<char>>(json_of(v)),
            Err(e) => spec_json(text@) == Err::<JsonTree, Seq<char>>(e@),
        },
{
    match serde_json::from_str::<serde_json::Value>(text) {
        Ok(value) => Ok(json_tree(&value)),
        Err(err) => Err(err.to_string()),
    }
}

/// The member `key` of an object's members.
pub open spec fn member(members: Seq<(Seq<char>, JsonTree)>, key: Seq<char>) -> Option<JsonTree>
    decreases members.len(),
{
    if members.len() == 0 {
        None
    } else if members[0].0 == key {
        Some(members[0].1)
    } else {
        member(members.drop_first(), key)
    }
}

/// `map.get(key)` on an object's members.
pub fn get_member<'a>(members: &'a Vec<(String, JsonValue)>, key: &str) -> (r: Option<&'a JsonValue>)
    ensures
        match r {
            Some(v) => member(members_of(members@), key@) == Some(json_of(*v)),
            None => member(members_of(members@), key@) is None,
        },
{
    let ghost mv = members_of(members@);
    proof {
        lemma_members_of(members@);
        assert(mv.subrange(0, mv.len() as int) =~= mv);
    }
    let mut i: usize = 0;
    while i < members.len()
        invariant
            i <= members.len(),
            mv == members_of(members@),
            mv.len() == members.len(),
            forall|k: int| 0 <= k < members.len() ==> #[trigger] mv[k] == (members@[k].0@, json_of(members@[k].1)),
            member(mv, key@) == member(mv.subrange(i as int, mv.len() as int), key@),
        decreases members.len() - i,
    {
        let ghost rest = mv.subrange(i as int, mv.len() as int);
        assert(rest.drop_first() =~= mv.subrange(i + 1, mv.len() as int));
        assert(rest[0] == mv[i as int]);
        if crate::text::str_eq(members[i].0.as_str(), key) {
            return Some(&members[i].1);
        }
        i = i + 1;
    }
    None
}

} // verus!

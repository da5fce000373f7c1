//! JSON documents as plain values.
use crate::table::unique_keys;
use crate::text::find_entry;
use vstd::prelude::*;

verus! {

/// A parsed JSON value, reduced to what the wire contract reads. Arrays and `null`
/// are never part of it, so they carry no payload.
pub enum JsonValue {
    /// The number, where it is a whole one that 64 bits can hold.
    Number(Option<u64>),
    Text(String),
    Boolean(bool),
    Object(Vec<(String, JsonValue)>),
    Other,
}

/// The mathematical content of a [`JsonValue`].
pub enum JsonTree {
    Number(Option<u64>),
    Text(Seq<char>),
    Boolean(bool),
    Object(Seq<(Seq<char>, JsonTree)>),
    Other,
}

/// The content of a value.
pub open spec fn json_tree(value: JsonValue) -> JsonTree
    decreases value,
{
    match value {
        JsonValue::Number(n) => JsonTree::Number(n),
        JsonValue::Text(text) => JsonTree::Text(text@),
        JsonValue::Boolean(b) => JsonTree::Boolean(b),
        JsonValue::Object(entries) => JsonTree::Object(member_trees(entries@)),
        JsonValue::Other => JsonTree::Other,
    }
}

/// The contents of an object's members, in order.
pub open spec fn member_trees(entries: Seq<(String, JsonValue)>) -> Seq<(Seq<char>, JsonTree)>
    decreases entries,
{
    if entries.len() == 0 {
        Seq::empty()
    } else {
        let last = entries[entries.len() - 1];
        member_trees(entries.drop_last()).push((last.0@, json_tree(last.1)))
    }
}

/// The contents of an object correspond to its members one for one.
pub proof fn lemma_member_trees(entries: Seq<(String, JsonValue)>)
    ensures
        member_trees(entries).len() == entries.len(),
        forall|i: int|
            0 <= i < entries.len() ==> #[trigger] member_trees(entries)[i] == (
                entries[i].0@,
                json_tree(entries[i].1),
            ),
    decreases entries.len(),
{
    if entries.len() > 0 {
        lemma_member_trees(entries.drop_last());
        assert forall|i: int| 0 <= i < entries.len() implies #[trigger] member_trees(entries)[i]
            == (entries[i].0@, json_tree(entries[i].1)) by {
            if i < entries.len() - 1 {
                assert(member_trees(entries)[i] == member_trees(entries.drop_last())[i]);
            }
        }
    }
}

/// A parsed document of the `serde_json` crate.
#[verifier::external_type_specification]
#[verifier::external_body]
pub struct ExJsonValue(serde_json::Value);

/// What a value of the `serde_json` crate holds.
pub uninterp spec fn json_contents(value: serde_json::Value) -> JsonTree;

/// The document that `serde_json` reads from a text, if the text is valid JSON.
pub uninterp spec fn json_document(text: Seq<char>) -> Option<JsonTree>;

/// `serde_json::from_str::<serde_json::Value>`: reads one whole document.
#[verifier::external_body]
fn parse_json(text: &str) -> (parsed: Option<serde_json::Value>)
    ensures
        parsed is Some <==> json_document(text@) is Some,
        parsed matches Some(value) ==> json_document(text@) == Some(json_contents(value)),
{
    serde_json::from_str::<serde_json::Value>(text).ok()
}

/// Turns a value of the `serde_json` crate into a [`JsonValue`], variant by
/// variant. A number is read with `serde_json::Number::as_u64`.
#[verifier::external_body]
fn plain_json(value: serde_json::Value) -> (plain: JsonValue)
    ensures
        json_tree(plain) == json_contents(value),
{
    match value {
        serde_json::Value::Number(n) => JsonValue::Number(n.as_u64()),
        serde_json::Value::String(text) => JsonValue::Text(text),
        serde_json::Value::Bool(b) => JsonValue::Boolean(b),
        serde_json::Value::Object(members) => JsonValue::Object(
            members.into_iter().map(|(key, value)| (key, plain_json(value))).collect(),
        ),
        serde_json::Value::Array(_) | serde_json::Value::Null => JsonValue::Other,
    }
}

/// Read a JSON document; `None` where the text is not one.
pub fn read_json(text: &str) -> (read: Option<JsonValue>)
    ensures
        read is Some <==> json_document(text@) is Some,
        read matches Some(value) ==> json_document(text@) == Some(json_tree(value)),
{
    match parse_json(text) {
        Some(value) => Some(plain_json(value)),
        None => None,
    }
}

/// A value to write.
#[derive(Debug)]
pub enum JsonScalar {
    Number(u64),
    Text(String),
    Boolean(bool),
}

/// The content of a value to write.
pub open spec fn scalar_tree(value: JsonScalar) -> JsonTree {
    match value {
        JsonScalar::Number(n) => JsonTree::Number(Some(n)),
        JsonScalar::Text(text) => JsonTree::Text(text@),
        JsonScalar::Boolean(b) => JsonTree::Boolean(b),
    }
}

/// The contents of members to write.
pub open spec fn scalar_trees(members: Seq<(String, JsonScalar)>) -> Seq<(Seq<char>, JsonTree)> {
    Seq::new(members.len(), |i: int| (members[i].0@, scalar_tree(members[i].1)))
}

/// The text that `serde_json` writes for an object with these members.
pub uninterp spec fn json_text(members: Seq<(Seq<char>, JsonTree)>) -> Seq<char>;

/// Whether a text reads as an object with these members.
pub open spec fn reads_back(text: Seq<char>, members: Seq<(Seq<char>, JsonTree)>) -> bool {
    &&& json_document(text) matches Some(JsonTree::Object(read))
    &&& forall|key: Seq<char>| #[trigger] find_entry(read, key) == find_entry(members, key)
}

/// Whether `serde_json` keeps a name for itself: an object that begins with such a
/// member stands for something other than an object when it is read.
pub open spec fn is_reserved(name: Seq<char>) -> bool {
    name == "$serde_json::private::RawValue"@ || name == "$serde_json::private::Number"@
}

/// Collects members into a `serde_json::Value::Object` and writes it with its
/// `to_string`. Besides the named text, the contract says that the text reads back
/// as an object with these members, where no two of them have the same name. A
/// name that `serde_json` keeps for itself would not read back, so none is taken.
#[verifier::external_body]
pub(crate) fn write_json(members: Vec<(String, JsonScalar)>) -> (text: String)
    requires
        forall|i: int| 0 <= i < members@.len() ==> !is_reserved((#[trigger] members@[i]).0@),
    ensures
        text@ == json_text(scalar_trees(members@)),
        unique_keys(scalar_trees(members@)) ==> reads_back(text@, scalar_trees(members@)),
{
    let plain = |value: JsonScalar| match value {
        JsonScalar::Number(n) => serde_json::Value::from(n),
        JsonScalar::Text(text) => serde_json::Value::from(text),
        JsonScalar::Boolean(b) => serde_json::Value::from(b),
    };
    let object = members.into_iter().map(|(key, value)| (key, plain(value))).collect();
    serde_json::Value::Object(object).to_string()
}

} // verus!

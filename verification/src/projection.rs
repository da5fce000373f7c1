//! TOML documents as plain values.
use vstd::prelude::*;

verus! {

/// A parsed TOML value, reduced to what the configuration logic reads. Floats
/// and date-times are never configuration here, so they carry no payload.
pub enum TomlValue {
    Text(String),
    Integer(i64),
    Boolean(bool),
    Array(Vec<TomlValue>),
    Table(Vec<(String, TomlValue)>),
    Other,
}

/// The mathematical content of a [`TomlValue`].
pub enum TomlTree {
    Text(Seq<char>),
    Integer(int),
    Boolean(bool),
    Array(Seq<TomlTree>),
    Table(Seq<(Seq<char>, TomlTree)>),
    Other,
}

/// The content of a value.
pub open spec fn tree(value: TomlValue) -> TomlTree
    decreases value,
{
    match value {
        TomlValue::Text(text) => TomlTree::Text(text@),
        TomlValue::Integer(n) => TomlTree::Integer(n as int),
        TomlValue::Boolean(b) => TomlTree::Boolean(b),
        TomlValue::Array(values) => TomlTree::Array(trees(values@)),
        TomlValue::Table(entries) => TomlTree::Table(entry_trees(entries@)),
        TomlValue::Other => TomlTree::Other,
    }
}

/// The contents of a list of values, in order.
pub open spec fn trees(values: Seq<TomlValue>) -> Seq<TomlTree>
    decreases values,
{
    if values.len() == 0 {
        Seq::empty()
    } else {
        trees(values.drop_last()).push(tree(values[values.len() - 1]))
    }
}

/// The contents of a table's entries, in order.
pub open spec fn entry_trees(entries: Seq<(String, TomlValue)>) -> Seq<(Seq<char>, TomlTree)>
    decreases entries,
{
    if entries.len() == 0 {
        Seq::empty()
    } else {
        let last = entries[entries.len() - 1];
        entry_trees(entries.drop_last()).push((last.0@, tree(last.1)))
    }
}

/// The contents of a list correspond to its values one for one.
pub proof fn lemma_trees(values: Seq<TomlValue>)
    ensures
        trees(values).len() == values.len(),
        forall|i: int| 0 <= i < values.len() ==> #[trigger] trees(values)[i] == tree(values[i]),
    decreases values.len(),
{
    if values.len() > 0 {
        lemma_trees(values.drop_last());
        assert forall|i: int| 0 <= i < values.len() implies #[trigger] trees(values)[i] == tree(
            values[i],
        ) by {
            if i < values.len() - 1 {
                assert(trees(values)[i] == trees(values.drop_last())[i]);
            }
        }
    }
}

/// The contents of a table correspond to its entries one for one.
pub proof fn lemma_entry_trees(entries: Seq<(String, TomlValue)>)
    ensures
        entry_trees(entries).len() == entries.len(),
        forall|i: int|
            0 <= i < entries.len() ==> #[trigger] entry_trees(entries)[i] == (
                entries[i].0@,
                tree(entries[i].1),
            ),
    decreases entries.len(),
{
    if entries.len() > 0 {
        lemma_entry_trees(entries.drop_last());
        assert forall|i: int| 0 <= i < entries.len() implies #[trigger] entry_trees(entries)[i] == (
            entries[i].0@,
            tree(entries[i].1),
        ) by {
            if i < entries.len() - 1 {
                assert(entry_trees(entries)[i] == entry_trees(entries.drop_last())[i]);
            }
        }
    }
}

/// A parsed document of the `toml` crate.
#[verifier::external_type_specification]
#[verifier::external_body]
pub struct ExTomlValue(toml::Value);

/// What a value of the `toml` crate holds.
pub uninterp spec fn toml_contents(value: toml::Value) -> TomlTree;

/// The document that the `toml` crate reads from a text, or its complaint where the
/// text is not valid TOML.
pub uninterp spec fn toml_document(text: Seq<char>) -> Result<TomlTree, Seq<char>>;

/// Whether a parser's answer is this document or this complaint.
pub open spec fn answers(
    parsed: Result<toml::Value, String>,
    document: Result<TomlTree, Seq<char>>,
) -> bool {
    match parsed {
        Ok(value) => document == Ok::<TomlTree, Seq<char>>(toml_contents(value)),
        Err(complaint) => document == Err::<TomlTree, Seq<char>>(complaint@),
    }
}

/// `str::parse::<toml::Value>`: reads a whole document. Both the document and the
/// complaint depend on the text alone.
#[verifier::external_body]
fn parse_toml(text: &str) -> (parsed: Result<toml::Value, String>)
    ensures
        answers(parsed, toml_document(text@)),
{
    text.parse::<toml::Value>().map_err(|error| error.to_string())
}

/// Turns a value of the `toml` crate into a [`TomlValue`], variant by variant,
/// keeping arrays and tables in their order.
#[verifier::external_body]
fn plain_value(value: toml::Value) -> (plain: TomlValue)
    ensures
        tree(plain) == toml_contents(value),
{
    match value {
        toml::Value::String(text) => TomlValue::Text(text),
        toml::Value::Integer(n) => TomlValue::Integer(n),
        toml::Value::Boolean(b) => TomlValue::Boolean(b),
        toml::Value::Array(values) => TomlValue::Array(values.into_iter().map(plain_value).collect()),
        toml::Value::Table(entries) => TomlValue::Table(
            entries.into_iter().map(|(key, value)| (key, plain_value(value))).collect(),
        ),
        toml::Value::Float(_) | toml::Value::Datetime(_) => TomlValue::Other,
    }
}

/// Read a TOML document. The error is the parser's own message.
pub fn read_document(text: &str) -> (read: Result<TomlValue, String>)
    ensures
        read matches Ok(value) ==> toml_document(text@) == Ok::<TomlTree, Seq<char>>(tree(value)),
        read matches Err(complaint) ==> toml_document(text@) == Err::<TomlTree, Seq<char>>(
            complaint@,
        ),
{
    match parse_toml(text) {
        Ok(value) => Ok(plain_value(value)),
        Err(error) => Err(error),
    }
}

} // verus!

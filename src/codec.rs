//! The outside TOML codec: its types, and the calls that parse and print a
//! document. What the library reads of a document is converted into
//! [`crate::table::Table`] by `Table::from_toml` and back by `Table::to_toml`.

use vstd::prelude::*;

verus! {

#[verifier::external_type_specification]
#[verifier::external_body]
pub struct ExTomlValue(toml::Value);

#[verifier::external_type_specification]
#[verifier::external_body]
#[verifier::reject_recursive_types(K)]
#[verifier::reject_recursive_types(V)]
pub struct ExTomlMap<K, V>(toml::map::Map<K, V>);

#[verifier::external_type_specification]
#[verifier::external_body]
pub struct ExTomlDeError(toml::de::Error);

#[verifier::external_type_specification]
#[verifier::external_body]
pub struct ExTomlSerError(toml::ser::Error);

/// A TOML value as the document reads it: a string, a table of keyed values
/// in order, or any other value as it is.
pub enum Node {
    Text(Seq<char>),
    Table(Seq<(Seq<char>, Node)>),
    Other(toml::Value),
}

/// What a TOML value holds.
pub uninterp spec fn value_node(v: toml::Value) -> Node;

/// What a TOML table holds: its keys, in order, each with its value.
pub uninterp spec fn table_node(t: toml::Table) -> Seq<(Seq<char>, Node)>;

/// The document toml's parser reads from `text`, if it accepts the text.
pub uninterp spec fn parsed(text: Seq<char>) -> Option<Seq<(Seq<char>, Node)>>;

/// The text toml's pretty printer gives for a document, if it can print it.
pub uninterp spec fn rendered(doc: Seq<(Seq<char>, Node)>) -> Option<Seq<char>>;

/// Keyed TOML values as the document reads them.
pub open spec fn value_entries(es: Seq<(String, toml::Value)>) -> Seq<(Seq<char>, Node)> {
    es.map_values(|p: (String, toml::Value)| (p.0@, value_node(p.1)))
}

/// No key occurs twice among `es`.
pub open spec fn distinct_keys(es: Seq<(String, toml::Value)>) -> bool {
    forall|i: int, j: int|
        #![trigger es[i], es[j]]
        0 <= i < es.len() && 0 <= j < es.len() && i != j ==> es[i].0@ != es[j].0@
}

/// toml's `Value: Clone` (derived): a copy holds what the value holds.
pub assume_specification[ <toml::Value as Clone>::clone ](v: &toml::Value) -> (r: toml::Value)
    ensures
        value_node(r) == value_node(*v),
;

/// Relies on `<toml::Table as FromStr>::from_str` (that is `toml::from_str`):
/// what it reads depends on the text alone.
#[verifier::external_body]
pub(crate) fn parse_document(text: &str) -> (r: Result<toml::Table, toml::de::Error>)
    ensures
        r is Ok <==> parsed(text@) is Some,
        r matches Ok(t) ==> parsed(text@) == Some(table_node(t)),
{
    text.parse::<toml::Table>()
}

/// Relies on `toml::de::Error`'s `Display`: the parser's message.
#[verifier::external_body]
pub(crate) fn parse_error_message(e: &toml::de::Error) -> String {
    e.to_string()
}

/// Relies on `toml::to_string_pretty`: the text depends on what the table
/// holds alone.
#[verifier::external_body]
pub(crate) fn render_document(t: &toml::Table) -> (r: Result<String, toml::ser::Error>)
    ensures
        r is Ok <==> rendered(table_node(*t)) is Some,
        r matches Ok(s) ==> rendered(table_node(*t)) == Some(s@),
{
    toml::to_string_pretty(t)
}

/// Relies on `toml::ser::Error`'s `Display`: the printer's message.
#[verifier::external_body]
pub(crate) fn render_error_message(e: &toml::ser::Error) -> String {
    e.to_string()
}

/// Relies on `IntoIterator for toml::map::Map`: the entries in table order;
/// a map holds each key once.
#[verifier::external_body]
pub(crate) fn toml_entries(t: toml::Table) -> (r: Vec<(String, toml::Value)>)
    ensures
        value_entries(r@) == table_node(t),
        distinct_keys(r@),
{
    t.into_iter().collect()
}

/// Relies on `FromIterator for toml::map::Map`: with distinct keys, a table
/// of these entries, in this order.
#[verifier::external_body]
pub(crate) fn toml_table(entries: Vec<(String, toml::Value)>) -> (r: toml::Table)
    requires
        distinct_keys(entries@),
    ensures
        table_node(r) == value_entries(entries@),
{
    entries.into_iter().collect()
}
/// What the document reads of a TOML value.
pub(crate) enum Shape {
    Text(String),
    Table(toml::Table),
    Other(toml::Value),
}

/// Relies on the variants of `toml::Value`: tells strings and tables from the rest.
#[verifier::external_body]
pub(crate) fn shape_of(v: toml::Value) -> (r: Shape)
    ensures
        match r {
            Shape::Text(s) => value_node(v) == Node::Text(s@),
            Shape::Table(t) => value_node(v) == Node::Table(table_node(t)),
            Shape::Other(w) => w == v && value_node(v) == Node::Other(v),
        },
{
    match v {
        toml::Value::String(s) => Shape::Text(s),
        toml::Value::Table(t) => Shape::Table(t),
        other => Shape::Other(other),
    }
}

/// Relies on `toml::Value::String`: a string value.
#[verifier::external_body]
pub(crate) fn text_value(s: String) -> (r: toml::Value)
    ensures
        value_node(r) == Node::Text(s@),
{
    toml::Value::String(s)
}

/// Relies on `toml::Value::Table`: a table value.
#[verifier::external_body]
pub(crate) fn table_value(t: toml::Table) -> (r: toml::Value)
    ensures
        value_node(r) == Node::Table(table_node(t)),
{
    toml::Value::Table(t)
}

} // verus!

use vstd::prelude::*;
use crate::node::Node;
use crate::node::NodeData;
use crate::node::node_data;

verus! {

/// What `str::to_lowercase` returns for a given sequence of characters.
pub uninterp spec fn lower_of(s: Seq<char>) -> Seq<char>;

/// What `str::to_uppercase` returns for a given sequence of characters.
pub uninterp spec fn upper_of(s: Seq<char>) -> Seq<char>;

/// Relies on `str::to_lowercase`: the result depends on the characters
/// alone; an empty string stays empty.
#[verifier::external_body]
pub fn lowercase(s: &String) -> (r: String)
    ensures
        r@ == lower_of(s@),
        s@.len() == 0 ==> r@.len() == 0,
{
    s.to_lowercase()
}

/// Relies on `str::to_uppercase`: the result depends on the characters
/// alone; an empty string stays empty.
#[verifier::external_body]
pub fn uppercase(s: &String) -> (r: String)
    ensures
        r@ == upper_of(s@),
        s@.len() == 0 ==> r@.len() == 0,
{
    s.to_uppercase()
}

#[verifier::external_type_specification]
#[verifier::external_body]
pub struct ExTomlValue(toml::Value);

/// What parsing a configuration document returns for given text: the
/// content of the parsed tree, or the parser's message. Parsing is a
/// function of the text alone (the parser keeps tables in a sorted map),
/// so the result may be named.
pub uninterp spec fn parsed_of(s: Seq<char>) -> Result<NodeData, Seq<char>>;

/// Relies on `toml::from_str`: parses a TOML document into its value
/// tree — deterministically, the result a function of the text alone —
/// and converts it through `value_to_node`; a syntax error is returned
/// as the parser's message.
#[verifier::external_body]
pub fn parse_document(s: &str) -> (r: Result<Node, String>)
    ensures
        (match (r, parsed_of(s@)) {
            (Result::Ok(n), Result::Ok(d)) => node_data(n) == d,
            (Result::Err(m), Result::Err(e)) => m@ == e,
            _ => false,
        }),
{
    match toml::from_str::<toml::Value>(s) {
        Ok(v) => Ok(value_to_node(v)),
        Err(e) => Err(e.to_string()),
    }
}

/// Relies on the variants of `toml::Value`: string, integer and table
/// values map to the matching node, a table entry by entry; a value of
/// any other kind is carried as its printed representation. Backs
/// `parse_document`.
#[verifier::external_body]
fn value_to_node(v: toml::Value) -> (n: Node) {
    match v {
        toml::Value::String(s) => Node::Str(s),
        toml::Value::Integer(i) => Node::Int(i),
        toml::Value::Table(t) => {
            let mut entries: Vec<(String, Node)> = Vec::new();
            for (k, child) in t {
                entries.push((k, value_to_node(child)));
            }
            Node::Table(entries)
        },
        other => Node::Other(format!("{other:?}")),
    }
}

/// Relies on `envy::from_iter`: deserializes a `T` from the given
/// (key, value) pairs, matching `T`'s field names against lowercased
/// keys; a failure is returned as its message.
#[verifier::external_body]
pub fn deserialize_pairs<T: serde::de::DeserializeOwned>(pairs: Vec<(String, String)>) -> (r:
    Result<T, String>) {
    match envy::from_iter::<_, T>(pairs) {
        Ok(t) => Ok(t),
        Err(e) => Err(e.to_string()),
    }
}

} // verus!

use vstd::prelude::*;

pub mod env_map;
pub mod laws;
pub mod merge;
pub mod node;
pub mod num;
pub mod outside;

use crate::env_map::EnvMap;
use crate::merge::Diag;
use crate::merge::diags_view;
use crate::merge::merge_all;
use crate::merge::merge_diags;
use crate::merge::merge_entries;
use crate::node::Node;
use crate::node::NodeData;
use crate::node::node_data;
use crate::node::flat_doc;
use crate::node::flatten_entries;
use crate::outside::parse_document;
use crate::outside::parsed_of;
use crate::outside::deserialize_pairs;

verus! {

/// Why a load failed.
#[derive(Debug, Clone, PartialEq, Eq)]
pub enum LoadError {
    /// The document text is not well formed; carries the parser's message.
    Parse(String),
    /// The document's root is not a table.
    Shape,
    /// A leaf has a kind the flattener does not support; carries the
    /// flattened key and the printed value.
    UnsupportedType { key: String, value: String },
    /// The merged environment could not populate the target shape;
    /// carries the deserializer's message.
    Deserialize(String),
}

/// How loading a parsed document relates the environment before (`env0`)
/// and after (`env1`), and the result: a non-table root fails before any
/// change; an unsupported leaf fails before any change; otherwise every
/// flattened entry is reconciled in order and the diagnostics come back.
pub open spec fn load_spec(
    root: NodeData,
    env0: Map<Seq<char>, Seq<char>>,
    env1: Map<Seq<char>, Seq<char>>,
    r: Result<Vec<Diag>, LoadError>,
) -> bool {
    if !(root is Table) {
        env1 == env0 && r matches Err(LoadError::Shape)
    } else {
        match flat_doc(root->Table_0) {
            Result::Ok(fs) => env1 == merge_all(env0, fs) && (r matches Ok(ds) && diags_view(ds@)
                == merge_diags(env0, fs)),
            Result::Err(e) => env1 == env0 && (r matches Err(LoadError::UnsupportedType {
                key,
                value,
            }) && key@ == e.0 && value@ == e.1),
        }
    }
}

/// Merges a structured configuration document into an environment, the
/// environment always winning over file values, then (for `from_str`)
/// deserializes the merged environment into a target shape.
pub struct EnvyToml;

impl EnvyToml {
    /// Merges an already parsed document into `env`, exactly as
    /// `load_spec` states of the document's content.
    pub fn load_node(root: &Node, env: &mut EnvMap) -> (r: Result<Vec<Diag>, LoadError>)
        requires
            old(env).wf(),
        ensures
            final(env).wf(),
            load_spec(node_data(*root), old(env)@, final(env)@, r),
    {
        match root {
            Node::Table(entries) => {
                match flatten_entries(Option::None, entries) {
                    Result::Ok(flat) => Result::Ok(merge_entries(env, &flat)),
                    Result::Err((key, value)) => Result::Err(
                        LoadError::UnsupportedType { key, value },
                    ),
                }
            },
            _ => Result::Err(LoadError::Shape),
        }
    }

    /// Parses the document text, then merges it into `env` as `load_node`
    /// does: when the text parses to `parsed_of(s@)`'s tree, the
    /// `load_spec` relation holds of that tree; when it does not parse,
    /// the `Parse` error carries the parser's message and nothing
    /// changes.
    pub fn load_str(s: &str, env: &mut EnvMap) -> (r: Result<Vec<Diag>, LoadError>)
        requires
            old(env).wf(),
        ensures
            final(env).wf(),
            (match parsed_of(s@) {
                Result::Ok(d) => load_spec(d, old(env)@, final(env)@, r),
                Result::Err(m) => final(env)@ == old(env)@ && (r matches Err(LoadError::Parse(msg))
                    && msg@ == m),
            }),
    {
        match parse_document(s) {
            Result::Ok(root) => Self::load_node(&root, env),
            Result::Err(m) => Result::Err(LoadError::Parse(m)),
        }
    }

    /// Parses and merges as `load_str` does, then deserializes the merged
    /// environment into `T`. Each error comes exactly when its condition
    /// holds of the parsed text: `Parse` when the text does not parse,
    /// `Shape` when the root is not a table, `UnsupportedType` at the
    /// first unsupported leaf — in those three cases nothing changes —
    /// and otherwise the document's flattening is merged in and stays
    /// merged, the deserializer alone deciding between `Ok` and
    /// `Deserialize` (its output depends on `T`'s impl and is not
    /// modelled).
    pub fn from_str<T: serde::de::DeserializeOwned>(s: &str, env: &mut EnvMap) -> (r: Result<
        T,
        LoadError,
    >)
        requires
            old(env).wf(),
        ensures
            final(env).wf(),
            (match parsed_of(s@) {
                Result::Err(m) => final(env)@ == old(env)@ && (r matches Err(LoadError::Parse(msg))
                    && msg@ == m),
                Result::Ok(d) => if !(d is Table) {
                    final(env)@ == old(env)@ && r matches Err(LoadError::Shape)
                } else {
                    match flat_doc(d->Table_0) {
                        Result::Ok(fs) => final(env)@ == merge_all(old(env)@, fs) && (r matches Ok(
                            _,
                        ) || r matches Err(LoadError::Deserialize(_))),
                        Result::Err(e) => final(env)@ == old(env)@ && (r matches Err(
                            LoadError::UnsupportedType { key, value },
                        ) && key@ == e.0 && value@ == e.1),
                    }
                },
            }),
    {
        match Self::load_str(s, env) {
            Result::Ok(_diags) => {
                let r: Result<T, String> = deserialize_pairs::<T>(env.to_pairs());
                match r {
                    Result::Ok(t) => Result::Ok(t),
                    Result::Err(m) => Result::Err(LoadError::Deserialize(m)),
                }
            },
            Result::Err(e) => Result::Err(e),
        }
    }
}

} // verus!

use vstd::prelude::*;
use crate::key_map::DEFAULT_KEYMAP;

verus! {

/// A node of a configuration document, as far as bindings read it: a
/// mapping of entries in document order, a string, or anything else.
pub enum Node {
    Mapping(Vec<(Node, Node)>),
    Text(String),
    Other,
}

#[verifier::external_type_specification]
#[verifier::external_body]
pub struct ExYaml(yaml_rust::Yaml);

/// The first document that yaml-rust reads from a text, if the text parses
/// and holds one.
pub uninterp spec fn yaml_document(text: Seq<char>) -> Option<Node>;

/// Relies on yaml_rust::YamlLoader::load_from_str, which parses the text
/// into its documents; the result depends on the text alone. Only the
/// built-in configuration is handed to it, whose nesting is two levels deep.
#[verifier::external_body]
pub(crate) fn default_document() -> (r: Option<Node>)
    ensures
        r == yaml_document(DEFAULT_KEYMAP@),
{
    let docs = yaml_rust::YamlLoader::load_from_str(DEFAULT_KEYMAP).ok()?;
    docs.first().map(node_of_yaml)
}

/// Carries a yaml_rust::Yaml tree over into a `Node`, one variant at a time:
/// a hash keeps its entries in their order, a string its text, and every
/// other variant becomes `Node::Other`. It recurses once per level, and is
/// only given the built-in configuration's tree.
#[verifier::external_body]
fn node_of_yaml(y: &yaml_rust::Yaml) -> Node {
    match y {
        yaml_rust::Yaml::Hash(h) => Node::Mapping(h.iter().map(|(k, v)| (node_of_yaml(k), node_of_yaml(v))).collect()),
        yaml_rust::Yaml::String(s) => Node::Text(s.clone()),
        _ => Node::Other,
    }
}

} // verus!

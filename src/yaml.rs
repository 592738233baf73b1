use crate::text::same_text;
use vstd::prelude::*;

verus! {

/// A YAML value as far as schemes and template configs read it: a string, a
/// mapping (entries in file order), or anything else.
pub enum Node {
    Text(String),
    Mapping(Vec<(Node, Node)>),
    Other,
}

/// The documents that the YAML parser reads from `text`, or `None` on a
/// syntax error.
pub uninterp spec fn yaml_documents_of(text: Seq<char>) -> Option<Seq<Node>>;

#[verifier::external_type_specification]
#[verifier::external_body]
pub struct ExYaml(yaml_rust::Yaml);

/// Relies on `yaml_rust::YamlLoader::load_from_str`: the documents of a YAML
/// text, or an error on malformed syntax.
#[verifier::external_body]
pub(crate) fn load_yaml(text: &str) -> (r: Option<Vec<Node>>)
    ensures
        r is None <==> yaml_documents_of(text@) is None,
        r matches Some(docs) ==> yaml_documents_of(text@) == Some(docs@),
{
    match yaml_rust::YamlLoader::load_from_str(text) {
        Ok(docs) => Some(docs.iter().map(node_of).collect()),
        Err(_) => None,
    }
}

/// Copies a `yaml_rust::Yaml` value for `load_yaml`: strings and mappings
/// keep their content, every other kind becomes `Node::Other`.
#[verifier::external_body]
fn node_of(y: &yaml_rust::Yaml) -> Node {
    match y {
        yaml_rust::Yaml::String(s) => Node::Text(s.clone()),
        yaml_rust::Yaml::Hash(h) => Node::Mapping(h.iter().map(|(k, v)| (node_of(k), node_of(v))).collect()),
        _ => Node::Other,
    }
}

pub open spec fn text_of(n: Node) -> Option<Seq<char>> {
    match n {
        Node::Text(s) => Some(s@),
        _ => None,
    }
}

/// The entries of the first document, when it is a mapping.
pub open spec fn top_entries(docs: Seq<Node>) -> Option<Seq<(Node, Node)>> {
    if docs.len() > 0 {
        match docs[0] {
            Node::Mapping(es) => Some(es@),
            _ => None,
        }
    } else {
        None
    }
}

/// The value of the last entry whose key is the string `key`.
pub open spec fn lookup(es: Seq<(Node, Node)>, key: Seq<char>) -> Option<Node>
    decreases es.len(),
{
    if es.len() == 0 {
        None
    } else if text_of(es.last().0) == Some(key) {
        Some(es.last().1)
    } else {
        lookup(es.drop_last(), key)
    }
}

/// Finds the value of the last entry whose key is the string `key`.
pub fn find<'a>(es: &'a Vec<(Node, Node)>, key: &str) -> (r: Option<&'a Node>)
    ensures
        r is None <==> lookup(es@, key@) is None,
        r matches Some(n) ==> lookup(es@, key@) == Some(*n),
{
    let mut i: usize = es.len();
    assert(es@.take(i as int) =~= es@);
    while i > 0
        invariant
            i <= es@.len(),
            lookup(es@, key@) == lookup(es@.take(i as int), key@),
        decreases i,
    {
        let ghost pre = es@.take(i as int);
        assert(pre.drop_last() =~= es@.take(i as int - 1));
        assert(pre.last() == es@[i as int - 1]);
        if let Node::Text(k) = &es[i - 1].0 {
            if same_text(k.as_str(), key) {
                return Some(&es[i - 1].1);
            }
        }
        i = i - 1;
    }
    None
}

} // verus!

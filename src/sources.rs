use crate::text::{append_str, joined, string_of};
use crate::yaml::{load_yaml, text_of, top_entries, yaml_documents_of, Node};
use vstd::prelude::*;

verus! {

/// Why a source manifest (a mapping of local directory name to repository
/// URL) could not be read.
#[derive(PartialEq, Eq, Structural)]
pub enum ManifestError {
    /// The manifest is not valid YAML.
    Syntax,
    /// The manifest's first document is missing or not a mapping.
    NotMapping,
    /// A name or a URL is not a string.
    NotText,
}

/// The (name, URL) pairs of a manifest's mapping, or `None` when an entry is
/// not a pair of strings.
pub open spec fn source_pairs(es: Seq<(Node, Node)>) -> Option<Seq<(Seq<char>, Seq<char>)>>
    decreases es.len(),
{
    if es.len() == 0 {
        Some(seq![])
    } else {
        match source_pairs(es.drop_last()) {
            None => None,
            Some(v) => match (text_of(es.last().0), text_of(es.last().1)) {
                (Some(name), Some(url)) => Some(v.push((name, url))),
                _ => None,
            },
        }
    }
}

/// What a manifest with text `text` reads as.
pub open spec fn manifest_of_text(text: Seq<char>) -> Result<
    Seq<(Seq<char>, Seq<char>)>,
    ManifestError,
> {
    match yaml_documents_of(text) {
        None => Err(ManifestError::Syntax),
        Some(docs) => match top_entries(docs) {
            None => Err(ManifestError::NotMapping),
            Some(es) => match source_pairs(es) {
                None => Err(ManifestError::NotText),
                Some(v) => Ok(v),
            },
        },
    }
}

pub open spec fn pairs_model(v: Seq<(String, String)>) -> Seq<(Seq<char>, Seq<char>)> {
    v.map_values(|p: (String, String)| (p.0@, p.1@))
}

proof fn lemma_none_persists(es: Seq<(Node, Node)>, i: int)
    requires
        0 <= i <= es.len(),
        source_pairs(es.take(i)) is None,
    ensures
        source_pairs(es) is None,
    decreases es.len() - i,
{
    if i < es.len() {
        assert(es.take(i + 1).drop_last() =~= es.take(i));
        lemma_none_persists(es, i + 1);
    } else {
        assert(es.take(i) =~= es);
    }
}

/// Reads the (name, URL) pairs of a manifest's mapping, in order.
pub fn sources_from_entries(es: &Vec<(Node, Node)>) -> (r: Option<Vec<(String, String)>>)
    ensures
        r is None <==> source_pairs(es@) is None,
        r matches Some(v) ==> source_pairs(es@) == Some(pairs_model(v@)),
{
    let mut out: Vec<(String, String)> = Vec::new();
    let mut i: usize = 0;
    assert(es@.take(0) =~= Seq::<(Node, Node)>::empty());
    assert(pairs_model(out@) =~= Seq::<(Seq<char>, Seq<char>)>::empty());
    while i < es.len()
        invariant
            i <= es@.len(),
            source_pairs(es@.take(i as int)) == Some(pairs_model(out@)),
        decreases es@.len() - i,
    {
        let ghost pre = es@.take(i as int + 1);
        assert(pre.drop_last() =~= es@.take(i as int));
        assert(pre.last() == es@[i as int]);
        match (&es[i].0, &es[i].1) {
            (Node::Text(name), Node::Text(url)) => {
                let ghost before = out@;
                out.push((string_of(name.as_str()), string_of(url.as_str())));
                assert(pairs_model(out@) =~= pairs_model(before).push((name@, url@)));
            },
            _ => {
                proof {
                    lemma_none_persists(es@, i as int + 1);
                }
                return None;
            },
        }
        i = i + 1;
    }
    assert(es@.take(es@.len() as int) =~= es@);
    Some(out)
}

/// Reads a source manifest from its text.
pub fn load_manifest(text: &str) -> (r: Result<Vec<(String, String)>, ManifestError>)
    ensures
        match (r, manifest_of_text(text@)) {
            (Ok(v), Ok(w)) => pairs_model(v@) == w,
            (Err(e), Err(f)) => e == f,
            _ => false,
        },
{
    let docs = match load_yaml(text) {
        None => {
            return Err(ManifestError::Syntax);
        },
        Some(d) => d,
    };
    if docs.len() == 0 {
        return Err(ManifestError::NotMapping);
    }
    match &docs[0] {
        Node::Mapping(es) => match sources_from_entries(es) {
            Some(v) => Ok(v),
            None => Err(ManifestError::NotText),
        },
        _ => Err(ManifestError::NotMapping),
    }
}

/// Where the repository listed under `name` is kept: `<root>/<name>`.
pub fn repo_path(root: &str, name: &str) -> (r: String)
    ensures
        r@ == root@ + "/"@ + name@,
{
    let mut p = joined(root, "/");
    append_str(&mut p, name);
    p
}

} // verus!

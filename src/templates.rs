use crate::model::Template;
use crate::text::{append_str, joined, string_of};
use crate::yaml::{find, load_yaml, lookup, text_of, top_entries, yaml_documents_of, Node};
use vstd::prelude::*;

verus! {

/// One template listed in a group's config: its name, the extension of the
/// files it renders, and the subdirectory they go to.
pub struct TemplateEntry {
    pub name: String,
    pub extension: String,
    pub output: String,
}

/// Why a template config could not be read.
pub enum ConfigError {
    /// The config is not valid YAML.
    Syntax,
    /// The config's first document is missing or not a mapping.
    NotMapping,
    /// A template name is not a string.
    NameNotText,
    /// The settings of this template are not a mapping.
    EntryNotMapping(String),
    /// This template lacks this required key.
    MissingKey(String, String),
}

pub enum ConfigFault {
    Syntax,
    NotMapping,
    NameNotText,
    EntryNotMapping(Seq<char>),
    MissingKey(Seq<char>, Seq<char>),
}

impl ConfigError {
    pub open spec fn model(&self) -> ConfigFault {
        match self {
            ConfigError::Syntax => ConfigFault::Syntax,
            ConfigError::NotMapping => ConfigFault::NotMapping,
            ConfigError::NameNotText => ConfigFault::NameNotText,
            ConfigError::EntryNotMapping(n) => ConfigFault::EntryNotMapping(n@),
            ConfigError::MissingKey(n, k) => ConfigFault::MissingKey(n@, k@),
        }
    }
}

/// Name, extension and output subdirectory of one template.
pub type EntryFields = (Seq<char>, Seq<char>, Seq<char>);

/// What one config entry says. `extension` must be present (a value that is
/// not a string counts as empty); `output` must be present and a string.
pub open spec fn entry_fields(e: (Node, Node)) -> Result<EntryFields, ConfigFault> {
    match text_of(e.0) {
        None => Err(ConfigFault::NameNotText),
        Some(name) => match e.1 {
            Node::Mapping(fields) => match lookup(fields@, "extension"@) {
                None => Err(ConfigFault::MissingKey(name, "extension"@)),
                Some(x) => match lookup(fields@, "output"@) {
                    Some(Node::Text(o)) => Ok(
                        (name, match text_of(x) {
                            Some(t) => t,
                            None => seq![],
                        }, o@),
                    ),
                    _ => Err(ConfigFault::MissingKey(name, "output"@)),
                },
            },
            _ => Err(ConfigFault::EntryNotMapping(name)),
        },
    }
}

/// What all entries of a config say; the first faulty entry is the error.
pub open spec fn config_fields(es: Seq<(Node, Node)>) -> Result<Seq<EntryFields>, ConfigFault>
    decreases es.len(),
{
    if es.len() == 0 {
        Ok(seq![])
    } else {
        match config_fields(es.drop_last()) {
            Err(f) => Err(f),
            Ok(v) => match entry_fields(es.last()) {
                Ok(t) => Ok(v.push(t)),
                Err(f) => Err(f),
            },
        }
    }
}

/// What a config file with text `text` reads as.
pub open spec fn config_of_text(text: Seq<char>) -> Result<Seq<EntryFields>, ConfigFault> {
    match yaml_documents_of(text) {
        None => Err(ConfigFault::Syntax),
        Some(docs) => match top_entries(docs) {
            None => Err(ConfigFault::NotMapping),
            Some(es) => config_fields(es),
        },
    }
}

pub open spec fn entries_model(v: Seq<TemplateEntry>) -> Seq<EntryFields> {
    v.map_values(|e: TemplateEntry| (e.name@, e.extension@, e.output@))
}

/// The config result `r` holds exactly `expected`.
pub open spec fn config_result_is(
    r: Result<Vec<TemplateEntry>, ConfigError>,
    expected: Result<Seq<EntryFields>, ConfigFault>,
) -> bool {
    match (r, expected) {
        (Ok(v), Ok(w)) => entries_model(v@) == w,
        (Err(e), Err(f)) => e.model() == f,
        _ => false,
    }
}

/// Reads one config entry.
pub fn entry_from(e: &(Node, Node)) -> (r: Result<TemplateEntry, ConfigError>)
    ensures
        match (r, entry_fields(*e)) {
            (Ok(t), Ok(f)) => (t.name@, t.extension@, t.output@) == f,
            (Err(x), Err(f)) => x.model() == f,
            _ => false,
        },
{
    let name = match &e.0 {
        Node::Text(n) => n,
        _ => {
            return Err(ConfigError::NameNotText);
        },
    };
    let fields = match &e.1 {
        Node::Mapping(f) => f,
        _ => {
            return Err(ConfigError::EntryNotMapping(string_of(name.as_str())));
        },
    };
    let extension = match find(fields, "extension") {
        None => {
            return Err(ConfigError::MissingKey(string_of(name.as_str()), string_of("extension")));
        },
        Some(Node::Text(x)) => string_of(x.as_str()),
        Some(_) => String::new(),
    };
    match find(fields, "output") {
        Some(Node::Text(o)) => Ok(
            TemplateEntry {
                name: string_of(name.as_str()),
                extension,
                output: string_of(o.as_str()),
            },
        ),
        _ => Err(ConfigError::MissingKey(string_of(name.as_str()), string_of("output"))),
    }
}

proof fn lemma_config_fault_persists(es: Seq<(Node, Node)>, i: int)
    requires
        0 <= i <= es.len(),
        config_fields(es.take(i)) is Err,
    ensures
        config_fields(es) == config_fields(es.take(i)),
    decreases es.len() - i,
{
    if i < es.len() {
        assert(es.take(i + 1).drop_last() =~= es.take(i));
        lemma_config_fault_persists(es, i + 1);
    } else {
        assert(es.take(i) =~= es);
    }
}

/// Reads the entries of a config's top mapping, in order.
pub fn config_from_entries(es: &Vec<(Node, Node)>) -> (r: Result<Vec<TemplateEntry>, ConfigError>)
    ensures
        config_result_is(r, config_fields(es@)),
{
    let mut out: Vec<TemplateEntry> = Vec::new();
    let mut i: usize = 0;
    assert(es@.take(0) =~= Seq::<(Node, Node)>::empty());
    assert(entries_model(out@) =~= Seq::<EntryFields>::empty());
    while i < es.len()
        invariant
            i <= es@.len(),
            config_fields(es@.take(i as int)) == Ok::<Seq<EntryFields>, ConfigFault>(
                entries_model(out@),
            ),
        decreases es@.len() - i,
    {
        let ghost pre = es@.take(i as int + 1);
        assert(pre.drop_last() =~= es@.take(i as int));
        assert(pre.last() == es@[i as int]);
        match entry_from(&es[i]) {
            Ok(t) => {
                let ghost before = out@;
                out.push(t);
                assert(entries_model(out@) =~= entries_model(before).push(
                    (t.name@, t.extension@, t.output@),
                ));
            },
            Err(e) => {
                proof {
                    lemma_config_fault_persists(es@, i as int + 1);
                }
                return Err(e);
            },
        }
        i = i + 1;
    }
    assert(es@.take(es@.len() as int) =~= es@);
    Ok(out)
}

/// Reads a template group's config from its text.
pub fn load_config(text: &str) -> (r: Result<Vec<TemplateEntry>, ConfigError>)
    ensures
        config_result_is(r, config_of_text(text@)),
{
    let docs = match load_yaml(text) {
        None => {
            return Err(ConfigError::Syntax);
        },
        Some(d) => d,
    };
    if docs.len() == 0 {
        return Err(ConfigError::NotMapping);
    }
    match &docs[0] {
        Node::Mapping(es) => config_from_entries(es),
        _ => Err(ConfigError::NotMapping),
    }
}

/// Where a template group's config stands.
pub fn config_path(group: &str) -> (r: String)
    ensures
        r@ == group@ + "/templates/config.yaml"@,
{
    joined(group, "/templates/config.yaml")
}

/// Where the body of template `name` of a group stands.
pub fn body_path(group: &str, name: &str) -> (r: String)
    ensures
        r@ == group@ + "/templates/"@ + name@ + ".mustache"@,
{
    let mut p = joined(group, "/templates/");
    append_str(&mut p, name);
    append_str(&mut p, ".mustache");
    p
}

/// The template of a group for a config entry and the body read for it: its
/// output directory lies under the group's directory.
pub fn template_from(group: &str, entry: &TemplateEntry, body: String) -> (r: Template)
    ensures
        r.name@ == entry.name@,
        r.body@ == body@,
        r.extension@ == entry.extension@,
        r.output@ == group@ + "/"@ + entry.output@,
{
    let mut output = joined(group, "/");
    append_str(&mut output, entry.output.as_str());
    Template {
        name: string_of(entry.name.as_str()),
        body,
        extension: string_of(entry.extension.as_str()),
        output,
    }
}

} // verus!

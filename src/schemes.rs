use crate::model::Scheme;
use crate::text::{ends_with, same_text, string_of};
use crate::yaml::{load_yaml, text_of, top_entries, yaml_documents_of, Node};
use vstd::prelude::*;
use vstd::string::*;

verus! {

/// Why a scheme file could not be read.
pub enum SchemeError {
    /// The file is not valid YAML.
    Syntax,
    /// The file's first document is missing or not a mapping.
    NotMapping,
    /// A key of the mapping is not a string.
    KeyNotText,
    /// The value under this key is not a string.
    ValueNotText(String),
}

pub enum SchemeFault {
    Syntax,
    NotMapping,
    KeyNotText,
    ValueNotText(Seq<char>),
}

impl SchemeError {
    pub open spec fn model(&self) -> SchemeFault {
        match self {
            SchemeError::Syntax => SchemeFault::Syntax,
            SchemeError::NotMapping => SchemeFault::NotMapping,
            SchemeError::KeyNotText => SchemeFault::KeyNotText,
            SchemeError::ValueNotText(k) => SchemeFault::ValueNotText(k@),
        }
    }
}

/// Name, author and color slots of a scheme.
pub type SchemeFields = (Seq<char>, Seq<char>, Seq<(Seq<char>, Seq<char>)>);

/// Slot `k` set to `v`: an existing slot `k` keeps its place and takes the new
/// value, as in a map; a new slot goes at the end.
pub open spec fn set_slot(cs: Seq<(Seq<char>, Seq<char>)>, k: Seq<char>, v: Seq<char>) -> Seq<
    (Seq<char>, Seq<char>),
> {
    if exists|m: int| 0 <= m < cs.len() && cs[m].0 == k {
        cs.update(choose|m: int| 0 <= m < cs.len() && cs[m].0 == k, (k, v))
    } else {
        cs.push((k, v))
    }
}

/// No slot name occurs twice.
pub open spec fn slots_unique(cs: Seq<(Seq<char>, Seq<char>)>) -> bool {
    forall|p: int, q: int| 0 <= p < q < cs.len() ==> #[trigger] cs[p].0 != #[trigger] cs[q].0
}

/// Sets color slot `k` to `v`, keeping slot names unique.
pub fn put_slot(colors: &mut Vec<(String, String)>, k: &str, v: &str)
    requires
        slots_unique(colors_model(old(colors)@)),
    ensures
        colors_model(final(colors)@) == set_slot(colors_model(old(colors)@), k@, v@),
        slots_unique(colors_model(final(colors)@)),
{
    let ghost before = colors_model(colors@);
    let mut m: usize = 0;
    let mut found = false;
    while !found && m < colors.len()
        invariant
            m <= colors@.len(),
            before == colors_model(colors@),
            found ==> m < colors@.len() && colors@[m as int].0@ == k@,
            !found ==> forall|h: int| 0 <= h < m ==> (#[trigger] colors@[h]).0@ != k@,
        decreases colors@.len() - m + (if found { 0int } else { 1int }),
    {
        if same_text(colors[m].0.as_str(), k) {
            found = true;
        } else {
            m = m + 1;
        }
    }
    if found {
        proof {
            assert(before[m as int].0 == k@);
            let c = choose|c: int| 0 <= c < before.len() && before[c].0 == k@;
            assert(c == m as int);
        }
        colors.set(m, (string_of(k), string_of(v)));
        assert(colors_model(colors@) =~= before.update(m as int, (k@, v@)));
    } else {
        assert forall|c: int| 0 <= c < before.len() implies before[c].0 != k@ by {
            assert(colors@[c].0@ == before[c].0);
        }
        colors.push((string_of(k), string_of(v)));
        assert(colors_model(colors@) =~= before.push((k@, v@)));
    }
}

/// What a scheme file's top mapping says: key `scheme` gives the name, key
/// `author` the author, every other key a color slot; keys and values must
/// be strings, and the first entry that breaks this is the error.
pub open spec fn scheme_fields(es: Seq<(Node, Node)>) -> Result<SchemeFields, SchemeFault>
    decreases es.len(),
{
    if es.len() == 0 {
        Ok((seq![], seq![], seq![]))
    } else {
        match scheme_fields(es.drop_last()) {
            Err(f) => Err(f),
            Ok((name, author, colors)) => match (text_of(es.last().0), text_of(es.last().1)) {
                (Some(k), Some(v)) => if k == "scheme"@ {
                    Ok((v, author, colors))
                } else if k == "author"@ {
                    Ok((name, v, colors))
                } else {
                    Ok((name, author, set_slot(colors, k, v)))
                },
                (Some(k), None) => Err(SchemeFault::ValueNotText(k)),
                (None, _) => Err(SchemeFault::KeyNotText),
            },
        }
    }
}

/// What a scheme file with text `text` reads as.
pub open spec fn scheme_of_text(text: Seq<char>) -> Result<SchemeFields, SchemeFault> {
    match yaml_documents_of(text) {
        None => Err(SchemeFault::Syntax),
        Some(docs) => match top_entries(docs) {
            None => Err(SchemeFault::NotMapping),
            Some(es) => scheme_fields(es),
        },
    }
}

pub open spec fn colors_model(cs: Seq<(String, String)>) -> Seq<(Seq<char>, Seq<char>)> {
    cs.map_values(|p: (String, String)| (p.0@, p.1@))
}

/// The scheme result `r` holds exactly `expected`, with slug `slug`.
pub open spec fn scheme_result_is(
    r: Result<Scheme, SchemeError>,
    slug: Seq<char>,
    expected: Result<SchemeFields, SchemeFault>,
) -> bool {
    match (r, expected) {
        (Ok(s), Ok((name, author, colors))) => s.slug@ == slug && s.name@ == name && s.author@
            == author && colors_model(s.colors@) == colors,
        (Err(e), Err(f)) => e.model() == f,
        _ => false,
    }
}

proof fn lemma_fault_persists(es: Seq<(Node, Node)>, i: int)
    requires
        0 <= i <= es.len(),
        scheme_fields(es.take(i)) is Err,
    ensures
        scheme_fields(es) == scheme_fields(es.take(i)),
    decreases es.len() - i,
{
    if i < es.len() {
        assert(es.take(i + 1).drop_last() =~= es.take(i));
        lemma_fault_persists(es, i + 1);
    } else {
        assert(es.take(i) =~= es);
    }
}

/// Builds a scheme with slug `slug` from the entries of its file's mapping.
pub fn scheme_from_entries(slug: &str, es: &Vec<(Node, Node)>) -> (r: Result<Scheme, SchemeError>)
    ensures
        scheme_result_is(r, slug@, scheme_fields(es@)),
        r matches Ok(s) ==> s.wf(),
{
    let mut name = String::new();
    let mut author = String::new();
    let mut colors: Vec<(String, String)> = Vec::new();
    let mut i: usize = 0;
    assert(es@.take(0) =~= Seq::<(Node, Node)>::empty());
    assert(colors_model(colors@) =~= Seq::<(Seq<char>, Seq<char>)>::empty());
    while i < es.len()
        invariant
            i <= es@.len(),
            scheme_fields(es@.take(i as int)) == Ok::<SchemeFields, SchemeFault>(
                (name@, author@, colors_model(colors@)),
            ),
            slots_unique(colors_model(colors@)),
        decreases es@.len() - i,
    {
        let ghost pre = es@.take(i as int + 1);
        assert(pre.drop_last() =~= es@.take(i as int));
        assert(pre.last() == es@[i as int]);
        match &es[i].0 {
            Node::Text(k) => match &es[i].1 {
                Node::Text(v) => {
                    if same_text(k.as_str(), "scheme") {
                        name = string_of(v.as_str());
                    } else if same_text(k.as_str(), "author") {
                        author = string_of(v.as_str());
                    } else {
                        put_slot(&mut colors, k.as_str(), v.as_str());
                    }
                },
                _ => {
                    proof {
                        lemma_fault_persists(es@, i as int + 1);
                    }
                    return Err(SchemeError::ValueNotText(string_of(k.as_str())));
                },
            },
            _ => {
                proof {
                    lemma_fault_persists(es@, i as int + 1);
                }
                return Err(SchemeError::KeyNotText);
            },
        }
        i = i + 1;
    }
    assert(es@.take(es@.len() as int) =~= es@);
    let s = Scheme { slug: string_of(slug), name, author, colors };
    assert forall|p: int, q: int| 0 <= p < q < s.colors@.len() implies #[trigger] s.colors@[p].0@
        != #[trigger] s.colors@[q].0@ by {
        assert(colors_model(s.colors@)[p].0 == s.colors@[p].0@);
        assert(colors_model(s.colors@)[q].0 == s.colors@[q].0@);
    }
    Ok(s)
}

/// Reads the scheme with slug `slug` from the text of its file.
pub fn load_scheme(slug: &str, text: &str) -> (r: Result<Scheme, SchemeError>)
    ensures
        scheme_result_is(r, slug@, scheme_of_text(text@)),
        r matches Ok(s) ==> s.wf(),
{
    let docs = match load_yaml(text) {
        None => {
            return Err(SchemeError::Syntax);
        },
        Some(d) => d,
    };
    if docs.len() == 0 {
        return Err(SchemeError::NotMapping);
    }
    match &docs[0] {
        Node::Mapping(es) => scheme_from_entries(slug, es),
        _ => Err(SchemeError::NotMapping),
    }
}

/// The slug of a scheme file: its name without the `.yaml` extension.
pub open spec fn slug_of_file(name: Seq<char>) -> Option<Seq<char>> {
    if name.len() > 5 && name.subrange(name.len() - 5, name.len() as int) == ".yaml"@ {
        Some(name.subrange(0, name.len() - 5))
    } else {
        None
    }
}

/// The slug of the scheme in file `name`, when it is a `.yaml` file (a name
/// that is nothing but the extension is no scheme file).
pub fn scheme_slug(name: &str) -> (r: Option<String>)
    ensures
        r is None <==> slug_of_file(name@) is None,
        r matches Some(s) ==> slug_of_file(name@) == Some(s@),
{
    let n = name.unicode_len();
    proof {
        reveal_strlit(".yaml");
    }
    if n > 5 && ends_with(name, ".yaml") {
        Some(string_of(name.substring_char(0, n - 5)))
    } else {
        None
    }
}

} // verus!

use crate::model::{vars_model, Value, ValueModel};
use rustache::{Render, RustacheError};
use vstd::prelude::*;
use vstd::string::*;

verus! {

/// A character that may stand in a placeholder's name.
pub open spec fn is_name_char(c: char) -> bool {
    ('a' <= c && c <= 'z') || ('A' <= c && c <= 'Z') || ('0' <= c && c <= '9') || c == '_' || c
        == '-'
}

/// Two opening braces start at `i`.
pub open spec fn opens_at(s: Seq<char>, i: int) -> bool {
    0 <= i && i + 1 < s.len() && s[i] == '{' && s[i + 1] == '{'
}

/// Padding allowed around a placeholder's name.
pub open spec fn is_blank(c: char) -> bool {
    c == ' ' || c == '\t'
}

/// A placeholder made of `{{`, blanks, a non-empty name of name characters
/// at `a .. b`, blanks and `}}`, spanning `i .. j + 2`.
pub open spec fn plain_tag_at(s: Seq<char>, i: int, a: int, b: int, j: int) -> bool {
    opens_at(s, i) && i + 2 <= a < b <= j && j + 1 < s.len() && (forall|m: int|
        i + 2 <= m < a ==> is_blank(#[trigger] s[m])) && (forall|m: int|
        a <= m < b ==> is_name_char(#[trigger] s[m])) && (forall|m: int|
        b <= m < j ==> is_blank(#[trigger] s[m])) && s[j] == '}' && s[j + 1] == '}'
}

/// Two closing braces start at `j`.
pub open spec fn closes_at(s: Seq<char>, j: int) -> bool {
    0 <= j && j + 1 < s.len() && s[j] == '}' && s[j + 1] == '}'
}

/// `j` is where the first `}}` at or after `from` starts.
pub open spec fn first_close(s: Seq<char>, from: int, j: int) -> bool {
    from <= j && closes_at(s, j) && forall|m: int| from <= m < j ==> !#[trigger] closes_at(s, m)
}

pub open spec fn is_ascii_char(c: char) -> bool {
    (c as int) < 128
}

/// What may stand between `{{` and the first `}}` after it: a variable,
/// padded or not, or an unescaped one (`{{{name}}}`, `{{& name}}`).
///
/// Refused, as the renderer cannot take them: an empty inside, or one whose
/// first or last character is not ASCII, or a lone `{` (its tag pattern then
/// slices out of bounds or off a character boundary and panics); comments
/// (`!`, whose whitespace handling can unwrap an empty node list); sections
/// (`#`, `^`, `/`), partials (`>`) and dotted names, which become sections.
pub open spec fn inner_ok(c: Seq<char>) -> bool {
    c.len() > 0 && is_ascii_char(c[0]) && is_ascii_char(c.last()) && c[0] != '!' && c[0] != '#'
        && c[0] != '^' && c[0] != '/' && c[0] != '>' && !(c[0] == '{' && c.len() < 2) && forall|
        m: int,
    | 0 <= m < c.len() ==> #[trigger] c[m] != '.'
}

/// The `{{` at `i` is closed by a later `}}`, and what stands between them
/// is a placeholder the renderer takes.
pub open spec fn is_tag(s: Seq<char>, i: int) -> bool {
    exists|j: int| #[trigger] first_close(s, i + 2, j) && inner_ok(s.subrange(i + 2, j))
}

/// Every `{{` in `s` begins a well-formed placeholder.
pub open spec fn placeholders_ok(s: Seq<char>) -> bool {
    forall|i: int| #[trigger] opens_at(s, i) ==> is_tag(s, i)
}

/// `i` is where the first `{{` that begins no well-formed placeholder stands.
pub open spec fn is_first_bad(s: Seq<char>, i: int) -> bool {
    opens_at(s, i) && !is_tag(s, i) && forall|m: int|
        0 <= m < i && #[trigger] opens_at(s, m) ==> is_tag(s, m)
}

/// `s` is one placeholder and nothing else, with its name at `a .. b`.
pub open spec fn single_tag(s: Seq<char>, a: int, b: int) -> bool {
    plain_tag_at(s, 0, a, b, s.len() - 2)
}

/// `s` is a single placeholder whose name no variable of `vars` has.
pub open spec fn lone_undefined(s: Seq<char>, vars: Seq<(Seq<char>, ValueModel)>) -> bool {
    exists|a: int, b: int| single_tag(s, a, b) && !defines(vars, s.subrange(a, b))
}

/// Some variable of `vars` is called `name`.
pub open spec fn defines(vars: Seq<(Seq<char>, ValueModel)>, name: Seq<char>) -> bool {
    exists|k: int| 0 <= k < vars.len() && vars[k].0 == name
}

/// Where the tag that opens at `p` ends: after the first `}}` past its `{{`,
/// and after one more `}` when one follows at once (the tag pattern takes it).
pub open spec fn tag_end(s: Seq<char>, p: int) -> int {
    let j = choose|j: int| #[trigger] first_close(s, p + 2, j);
    if j + 2 < s.len() && s[j + 2] == '}' {
        j + 3
    } else {
        j + 2
    }
}

/// The text of `s` from `p` on with every closed tag taken out, scanning as
/// the renderer does: text goes through, and a `{{` skips to its tag's end.
pub open spec fn without_tags(s: Seq<char>, p: int) -> Seq<char>
    decreases s.len() - p,
{
    if p < 0 || p >= s.len() {
        seq![]
    } else if opens_at(s, p) && exists|j: int| #[trigger] first_close(s, p + 2, j) {
        without_tags(s, tag_end(s, p))
    } else {
        seq![s[p]] + without_tags(s, p + 1)
    }
}

pub open spec fn ascii_text(s: Seq<char>) -> bool {
    forall|k: int| 0 <= k < s.len() ==> is_ascii_char(#[trigger] s[k])
}

/// The bytes of an ASCII text.
pub open spec fn ascii_bytes(s: Seq<char>) -> Seq<u8> {
    Seq::new(s.len(), |k: int| s[k] as u8)
}

/// What the logic-less renderer writes for `body` with variables `vars`.
pub uninterp spec fn rendered_of(body: Seq<char>, vars: Seq<(Seq<char>, ValueModel)>) -> Seq<u8>;

#[verifier::external_type_specification]
#[verifier::external_body]
pub struct ExRustacheError(rustache::RustacheError);

/// Relies on rustache's `HashBuilder::insert` and `Render::render`. When every
/// `{{` is closed and its inside passes `inner_ok`, the tag pattern captures
/// that inside (plus one `}` when a third follows) and makes it a variable or
/// an unescaped variable, with no section, partial or comment; the template
/// compiles to text and (unescaped) value nodes, which render without error
/// into a `Vec`. Text is written as it stands; a value node whose name has no
/// value writes nothing.
#[verifier::external_body]
fn render_mustache(body: &str, vars: &Vec<(String, Value)>) -> (r: Result<Vec<u8>, RustacheError>)
    requires
        placeholders_ok(body@),
    ensures
        r is Ok,
        r matches Ok(b) ==> b@ == rendered_of(body@, vars_model(vars@)),
        r matches Ok(out) ==> (lone_undefined(body@, vars_model(vars@)) ==> out@ == Seq::<
            u8,
        >::empty()),
        r matches Ok(out) ==> (vars@.len() == 0 && ascii_text(body@) ==> out@ == ascii_bytes(
            without_tags(body@, 0),
        )),
{
    let mut data = rustache::HashBuilder::new();
    for (name, value) in vars.iter() {
        data = match value {
            Value::Text(s) => data.insert(name.as_str(), s.as_str()),
            Value::Integer(n) => data.insert(name.as_str(), *n),
        };
    }
    let mut out: Vec<u8> = Vec::new();
    match data.render(body, &mut out) {
        Ok(()) => Ok(out),
        Err(e) => Err(e),
    }
}

/// A template whose `{{` at character `position` begins no well-formed
/// placeholder: it is unterminated, or what it holds fails `inner_ok`
/// (empty, non-ASCII at either end, a comment, a section, a partial or a
/// dotted name).
pub struct RenderError {
    pub position: usize,
}

proof fn lemma_first_close_unique(s: Seq<char>, from: int, j1: int, j2: int)
    requires
        first_close(s, from, j1),
        first_close(s, from, j2),
    ensures
        j1 == j2,
{
    if j1 < j2 {
        assert(!closes_at(s, j1));
    } else if j2 < j1 {
        assert(!closes_at(s, j2));
    }
}

/// Whether the `{{` at `i` begins a well-formed placeholder.
fn tag_ok(s: &str, i: usize) -> (r: bool)
    requires
        opens_at(s@, i as int),
    ensures
        r == is_tag(s@, i as int),
{
    let n = s.unicode_len();
    let from: usize = i + 2;
    let mut j: usize = from;
    while j < n && !(n - j > 1 && s.get_char(j) == '}' && s.get_char(j + 1) == '}')
        invariant
            n == s@.len(),
            from == i + 2,
            from <= j <= n,
            forall|m: int| from <= m < j ==> !#[trigger] closes_at(s@, m),
        decreases n - j,
    {
        j = j + 1;
    }
    if j == n {
        assert forall|k: int| !first_close(s@, from as int, k) by {
            if first_close(s@, from as int, k) {
                assert(!closes_at(s@, k));
            }
        }
        return false;
    }
    assert(first_close(s@, from as int, j as int));
    let ghost c = s@.subrange(from as int, j as int);
    proof {
        assert forall|k: int| first_close(s@, from as int, k) implies k == j by {
            lemma_first_close_unique(s@, from as int, k, j as int);
        }
    }
    if j == from {
        return false;
    }
    let c0 = s.get_char(from);
    let cl = s.get_char(j - 1);
    assert(c[0] == c0 && c.last() == cl);
    if (c0 as u32) >= 128 || (cl as u32) >= 128 || c0 == '!' || c0 == '#' || c0 == '^' || c0
        == '/' || c0 == '>' || (c0 == '{' && j - from < 2) {
        return false;
    }
    let mut m: usize = from;
    while m < j
        invariant
            from <= m <= j,
            j < n,
            n == s@.len(),
            c == s@.subrange(from as int, j as int),
            from == i + 2,
            first_close(s@, from as int, j as int),
            forall|h: int| 0 <= h < m - from ==> #[trigger] c[h] != '.',
        decreases j - m,
    {
        if s.get_char(m) == '.' {
            assert(c[m - from] == '.');
            assert(!inner_ok(c));
            assert(!is_tag(s@, i as int)) by {
                if is_tag(s@, i as int) {
                    let k = choose|k: int|
                        #[trigger] first_close(s@, i + 2, k) && inner_ok(s@.subrange(i + 2, k));
                    lemma_first_close_unique(s@, from as int, k, j as int);
                }
            }
            return false;
        }
        m = m + 1;
    }
    assert(inner_ok(c));
    true
}

/// Where the first `{{` that begins no well-formed placeholder stands, if any.
pub fn first_bad_placeholder(body: &str) -> (r: Option<usize>)
    ensures
        r is None <==> placeholders_ok(body@),
        r matches Some(i) ==> is_first_bad(body@, i as int),
{
    let n = body.unicode_len();
    let mut i: usize = 0;
    while n > 0 && i < n - 1
        invariant
            n == body@.len(),
            i <= n,
            forall|m: int| 0 <= m < i && #[trigger] opens_at(body@, m) ==> is_tag(body@, m),
        decreases n - i,
    {
        if body.get_char(i) == '{' && body.get_char(i + 1) == '{' {
            if !tag_ok(body, i) {
                assert(opens_at(body@, i as int));
                return Some(i);
            }
        }
        i = i + 1;
    }
    None
}

/// Renders `body` with `vars`: each `{{name}}` (blanks around the name are
/// allowed) becomes the HTML-escaped value of `name`, `{{{name}}}` and
/// `{{& name}}` its value as it is, and nothing where `name` has none.
/// A `{{` that begins no well-formed placeholder is an error; which variables
/// exist never is.
pub fn render(body: &str, vars: &Vec<(String, Value)>) -> (r: Result<Vec<u8>, RenderError>)
    ensures
        r is Ok <==> placeholders_ok(body@),
        r matches Ok(b) ==> b@ == rendered_of(body@, vars_model(vars@)),
        r matches Err(e) ==> is_first_bad(body@, e.position as int),
        r matches Ok(out) ==> (lone_undefined(body@, vars_model(vars@)) ==> out@ == Seq::<
            u8,
        >::empty()),
        r matches Ok(out) ==> (vars@.len() == 0 && ascii_text(body@) ==> out@ == ascii_bytes(
            without_tags(body@, 0),
        )),
{
    match first_bad_placeholder(body) {
        Some(i) => Err(RenderError { position: i }),
        None => match render_mustache(body, vars) {
            Ok(b) => Ok(b),
            Err(_) => Err(RenderError { position: 0 }),
        },
    }
}

} // verus!

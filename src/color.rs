use crate::model::{vars_model, Scheme, Value, ValueModel};
use crate::text::{joined, string_of};
use vstd::prelude::*;
use vstd::string::*;

verus! {

pub open spec fn is_hex_digit(c: char) -> bool {
    ('0' <= c && c <= '9') || ('a' <= c && c <= 'f') || ('A' <= c && c <= 'F')
}

pub open spec fn hex_digit_value(c: char) -> int {
    if '0' <= c && c <= '9' {
        c as int - '0' as int
    } else if 'a' <= c && c <= 'f' {
        c as int - 'a' as int + 10
    } else {
        c as int - 'A' as int + 10
    }
}

/// Exactly six hexadecimal digits: `RRGGBB`.
pub open spec fn is_hex_color(s: Seq<char>) -> bool {
    s.len() == 6 && forall|i: int| 0 <= i < 6 ==> #[trigger] is_hex_digit(s[i])
}

/// The two digits of channel `k` (0 red, 1 green, 2 blue).
pub open spec fn channel_hex(s: Seq<char>, k: int) -> Seq<char> {
    s.subrange(2 * k, 2 * k + 2)
}

/// The base-16 value of channel `k`.
pub open spec fn channel_value(s: Seq<char>, k: int) -> int {
    16 * hex_digit_value(s[2 * k]) + hex_digit_value(s[2 * k + 1])
}

/// The variables derived from one color slot, in the order they are produced.
pub open spec fn color_vars(base: Seq<char>, hex: Seq<char>) -> Seq<(Seq<char>, ValueModel)> {
    seq![
        (base + "-hex"@, ValueModel::Text(hex)),
        (base + "-hex-r"@, ValueModel::Text(channel_hex(hex, 0))),
        (base + "-rgb-r"@, ValueModel::Integer(channel_value(hex, 0))),
        (base + "-dec-r"@, ValueModel::Integer(channel_value(hex, 0) / 255)),
        (base + "-hex-g"@, ValueModel::Text(channel_hex(hex, 1))),
        (base + "-rgb-g"@, ValueModel::Integer(channel_value(hex, 1))),
        (base + "-dec-g"@, ValueModel::Integer(channel_value(hex, 1) / 255)),
        (base + "-hex-b"@, ValueModel::Text(channel_hex(hex, 2))),
        (base + "-rgb-b"@, ValueModel::Integer(channel_value(hex, 2))),
        (base + "-dec-b"@, ValueModel::Integer(channel_value(hex, 2) / 255)),
        (base + "-hex-bgr"@, ValueModel::Text(
            channel_hex(hex, 2) + channel_hex(hex, 1) + channel_hex(hex, 0),
        )),
    ]
}

/// The variables of a list of color slots, slot after slot.
pub open spec fn colors_vars(cs: Seq<(String, String)>) -> Seq<(Seq<char>, ValueModel)>
    decreases cs.len(),
{
    if cs.len() == 0 {
        seq![]
    } else {
        colors_vars(cs.drop_last()) + color_vars(cs.last().0@, cs.last().1@)
    }
}

/// The fixed entries naming the scheme.
pub open spec fn scheme_header(s: &Scheme) -> Seq<(Seq<char>, ValueModel)> {
    seq![
        ("scheme-slug"@, ValueModel::Text(s.slug@)),
        ("scheme-name"@, ValueModel::Text(s.name@)),
        ("scheme-author"@, ValueModel::Text(s.author@)),
    ]
}

/// Every variable a template sees for scheme `s`.
pub open spec fn scheme_vars(s: &Scheme) -> Seq<(Seq<char>, ValueModel)> {
    scheme_header(s) + colors_vars(s.colors@)
}

/// Slot `k` holds the first color value that is not six hex digits.
pub open spec fn is_first_invalid(cs: Seq<(String, String)>, k: int) -> bool {
    0 <= k < cs.len() && !is_hex_color(cs[k].1@) && forall|j: int|
        0 <= j < k ==> is_hex_color(#[trigger] cs[j].1@)
}

pub open spec fn colors_valid(cs: Seq<(String, String)>) -> bool {
    forall|k: int| 0 <= k < cs.len() ==> is_hex_color(#[trigger] cs[k].1@)
}

/// `e` names the scheme and the first of its slots that holds no valid color.
pub open spec fn reports_first_invalid(e: InvalidColor, s: &Scheme) -> bool {
    exists|k: int|
        is_first_invalid(s.colors@, k) && e.slot@ == s.colors@[k].0@ && e.value@ == s.colors@[k].1@
            && e.slug@ == s.slug@
}

/// A color slot whose value is not six hexadecimal digits.
pub struct InvalidColor {
    pub slug: String,
    pub slot: String,
    pub value: String,
}

/// The value of one hexadecimal digit, if `c` is one.
pub fn hex_digit(c: char) -> (r: Option<u8>)
    ensures
        r == (if is_hex_digit(c) {
            Some(hex_digit_value(c) as u8)
        } else {
            None::<u8>
        }),
{
    if '0' <= c && c <= '9' {
        Some(((c as u32) - ('0' as u32)) as u8)
    } else if 'a' <= c && c <= 'f' {
        Some(((c as u32) - ('a' as u32) + 10) as u8)
    } else if 'A' <= c && c <= 'F' {
        Some(((c as u32) - ('A' as u32) + 10) as u8)
    } else {
        None
    }
}

/// Whether `s` is exactly six hexadecimal digits.
pub fn is_color(s: &str) -> (r: bool)
    ensures
        r == is_hex_color(s@),
{
    if s.unicode_len() != 6 {
        return false;
    }
    let mut i: usize = 0;
    while i < 6
        invariant
            s@.len() == 6,
            i <= 6,
            forall|j: int| 0 <= j < i ==> #[trigger] is_hex_digit(s@[j]),
        decreases 6 - i,
    {
        if hex_digit(s.get_char(i)).is_none() {
            return false;
        }
        i = i + 1;
    }
    true
}

/// The integer value (0 to 255) of channel `k` of a valid color.
pub fn channel(s: &str, k: usize) -> (r: i32)
    requires
        is_hex_color(s@),
        k < 3,
    ensures
        r == channel_value(s@, k as int),
        0 <= r <= 255,
{
    let hi = hex_digit(s.get_char(2 * k));
    let lo = hex_digit(s.get_char(2 * k + 1));
    assert(is_hex_digit(s@[2 * k as int]));
    assert(is_hex_digit(s@[2 * k as int + 1]));
    let h = hi.unwrap() as i32;
    let l = lo.unwrap() as i32;
    16 * h + l
}

/// The `dec` form of a channel value: truncating division by 255.
pub fn decimal(v: i32) -> (r: i32)
    requires
        0 <= v <= 255,
    ensures
        r == v / 255,
{
    v / 255
}

/// The two digits of channel `k` of a valid color.
pub fn channel_digits(s: &str, k: usize) -> (r: String)
    requires
        is_hex_color(s@),
        k < 3,
    ensures
        r@ == channel_hex(s@, k as int),
{
    string_of(s.substring_char(2 * k, 2 * k + 2))
}

fn push_var(vars: &mut Vec<(String, Value)>, name: String, value: Value)
    ensures
        vars_model(final(vars)@) == vars_model(old(vars)@).push((name@, value.model())),
{
    let ghost before = vars@;
    vars.push((name, value));
    assert(vars_model(vars@) =~= vars_model(before).push((name@, value.model())));
}

/// Appends the variables derived from color slot `base` with value `hex`.
pub fn push_color_vars(vars: &mut Vec<(String, Value)>, base: &str, hex: &str)
    requires
        is_hex_color(hex@),
    ensures
        vars_model(final(vars)@) == vars_model(old(vars)@) + color_vars(base@, hex@),
{
    let ghost start = vars_model(vars@);
    let red = channel_digits(hex, 0);
    let green = channel_digits(hex, 1);
    let blue = channel_digits(hex, 2);
    let r = channel(hex, 0);
    let g = channel(hex, 1);
    let b = channel(hex, 2);
    let bg = joined(blue.as_str(), green.as_str());
    let bgr = joined(bg.as_str(), red.as_str());
    push_var(vars, joined(base, "-hex"), Value::Text(string_of(hex)));
    push_var(vars, joined(base, "-hex-r"), Value::Text(red));
    push_var(vars, joined(base, "-rgb-r"), Value::Integer(r));
    push_var(vars, joined(base, "-dec-r"), Value::Integer(decimal(r)));
    push_var(vars, joined(base, "-hex-g"), Value::Text(green));
    push_var(vars, joined(base, "-rgb-g"), Value::Integer(g));
    push_var(vars, joined(base, "-dec-g"), Value::Integer(decimal(g)));
    push_var(vars, joined(base, "-hex-b"), Value::Text(blue));
    push_var(vars, joined(base, "-rgb-b"), Value::Integer(b));
    push_var(vars, joined(base, "-dec-b"), Value::Integer(decimal(b)));
    push_var(vars, joined(base, "-hex-bgr"), Value::Text(bgr));
    assert(vars_model(vars@) =~= start + color_vars(base@, hex@));
}

/// The first color slot whose value is not six hex digits, if any.
pub fn first_invalid_color(cs: &Vec<(String, String)>) -> (r: Option<usize>)
    ensures
        r is None <==> colors_valid(cs@),
        r matches Some(k) ==> is_first_invalid(cs@, k as int),
{
    let mut i: usize = 0;
    while i < cs.len()
        invariant
            i <= cs@.len(),
            forall|j: int| 0 <= j < i ==> is_hex_color(#[trigger] cs@[j].1@),
        decreases cs@.len() - i,
    {
        if !is_color(cs[i].1.as_str()) {
            return Some(i);
        }
        i = i + 1;
    }
    None
}

/// Expands a scheme into the variables that templates see: the three naming
/// entries, then eleven entries per color slot. Fails on the first slot whose
/// value is not six hexadecimal digits.
pub fn expand(scheme: &Scheme) -> (r: Result<Vec<(String, Value)>, InvalidColor>)
    ensures
        r is Ok <==> colors_valid(scheme.colors@),
        r matches Ok(vars) ==> vars_model(vars@) == scheme_vars(scheme),
        r matches Err(e) ==> reports_first_invalid(e, scheme),
{
    let cs = &scheme.colors;
    if let Some(k) = first_invalid_color(cs) {
        return Err(
            InvalidColor {
                slug: string_of(scheme.slug.as_str()),
                slot: string_of(cs[k].0.as_str()),
                value: string_of(cs[k].1.as_str()),
            },
        );
    }
    let mut vars: Vec<(String, Value)> = Vec::new();
    push_var(&mut vars, string_of("scheme-slug"), Value::Text(string_of(scheme.slug.as_str())));
    push_var(&mut vars, string_of("scheme-name"), Value::Text(string_of(scheme.name.as_str())));
    push_var(
        &mut vars,
        string_of("scheme-author"),
        Value::Text(string_of(scheme.author.as_str())),
    );
    assert(vars_model(vars@) =~= scheme_header(scheme));
    let mut i: usize = 0;
    while i < cs.len()
        invariant
            i <= cs@.len(),
            colors_valid(cs@),
            cs == &scheme.colors,
            vars_model(vars@) == scheme_header(scheme) + colors_vars(cs@.take(i as int)),
        decreases cs@.len() - i,
    {
        assert(is_hex_color(cs@[i as int].1@));
        push_color_vars(&mut vars, cs[i].0.as_str(), cs[i].1.as_str());
        assert(cs@.take(i as int + 1).drop_last() =~= cs@.take(i as int));
        assert(scheme_header(scheme) + colors_vars(cs@.take(i as int)) + color_vars(
            cs@[i as int].0@,
            cs@[i as int].1@,
        ) =~= scheme_header(scheme) + colors_vars(cs@.take(i as int + 1)));
        i = i + 1;
    }
    assert(cs@.take(cs@.len() as int) =~= cs@);
    Ok(vars)
}

/// Splitting a color into its three channels and joining them again gives
/// the color back.
pub proof fn lemma_channels_rejoin(hex: Seq<char>)
    requires
        is_hex_color(hex),
    ensures
        channel_hex(hex, 0) + channel_hex(hex, 1) + channel_hex(hex, 2) == hex,
{
    assert(channel_hex(hex, 0) + channel_hex(hex, 1) + channel_hex(hex, 2) =~= hex);
}

/// Each channel value lies in 0..=255, and its `dec` form is 1 exactly when
/// the value is 255, else 0.
pub proof fn lemma_channel_range(hex: Seq<char>, k: int)
    requires
        is_hex_color(hex),
        0 <= k < 3,
    ensures
        0 <= channel_value(hex, k) <= 255,
        channel_value(hex, k) / 255 == (if channel_value(hex, k) == 255 {
            1int
        } else {
            0int
        }),
{
    assert(is_hex_digit(hex[2 * k]));
    assert(is_hex_digit(hex[2 * k + 1]));
}

} // verus!

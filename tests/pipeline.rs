use base16_builder::builder::{output_path, path_groups, plan, selects, slugify, underscore_spaces, Job, PairError, PathSet};
use base16_builder::color::{channel, channel_digits, decimal, expand, hex_digit, is_color};
use base16_builder::model::{Scheme, Template, Value};
use base16_builder::sources::{load_manifest, repo_path, ManifestError};
use base16_builder::render::{first_bad_placeholder, render};
use base16_builder::templates::{body_path, config_path, load_config, template_from, ConfigError};
use base16_builder::text::{ends_with, same_text};
use base16_builder::schemes::{load_scheme, scheme_from_entries, scheme_slug, SchemeError};
use base16_builder::yaml::Node;

fn scheme(slug: &str, name: &str, colors: &[(&str, &str)]) -> Scheme {
    Scheme {
        slug: slug.to_string(),
        name: name.to_string(),
        author: "A".to_string(),
        colors: colors.iter().map(|(k, v)| (k.to_string(), v.to_string())).collect(),
    }
}

fn template(body: &str, output: &str, extension: &str) -> Template {
    Template {
        name: "default".to_string(),
        body: body.to_string(),
        output: output.to_string(),
        extension: extension.to_string(),
    }
}

fn text_var<'a>(vars: &'a [(String, Value)], name: &str) -> Option<&'a str> {
    vars.iter().find(|(k, _)| k == name).and_then(|(_, v)| match v {
        Value::Text(s) => Some(s.as_str()),
        Value::Integer(_) => None,
    })
}

fn int_var(vars: &[(String, Value)], name: &str) -> Option<i32> {
    vars.iter().find(|(k, _)| k == name).and_then(|(_, v)| match v {
        Value::Integer(n) => Some(*n),
        Value::Text(_) => None,
    })
}

fn rendered(job: &Job) -> String {
    match &job.output {
        Ok(b) => String::from_utf8(b.clone()).unwrap(),
        Err(_) => panic!("job did not render"),
    }
}

#[test]
fn hex_digits_and_colors() {
    assert_eq!(hex_digit('0'), Some(0));
    assert_eq!(hex_digit('9'), Some(9));
    assert_eq!(hex_digit('a'), Some(10));
    assert_eq!(hex_digit('F'), Some(15));
    assert_eq!(hex_digit('g'), None);
    assert!(is_color("1a2B3c"));
    assert!(!is_color("1a2B3"));
    assert!(!is_color("1a2B3g"));
    assert!(!is_color("#1a2b3"));
}

#[test]
fn channels_split_and_rejoin() {
    let hex = "c0ffee";
    let r = channel_digits(hex, 0);
    let g = channel_digits(hex, 1);
    let b = channel_digits(hex, 2);
    assert_eq!((r.as_str(), g.as_str(), b.as_str()), ("c0", "ff", "ee"));
    assert_eq!(format!("{}{}{}", r, g, b), hex);
    assert_eq!(channel(hex, 0), 192);
    assert_eq!(channel(hex, 1), 255);
    assert_eq!(channel(hex, 2), 238);
}

#[test]
fn dec_is_truncating_division() {
    assert_eq!(decimal(0), 0);
    assert_eq!(decimal(128), 0);
    assert_eq!(decimal(254), 0);
    assert_eq!(decimal(255), 1);
}

#[test]
fn expand_derives_every_variable() {
    let s = scheme("test", "Test", &[("base00", "000000"), ("base01", "ff8001")]);
    let vars = match expand(&s) {
        Ok(v) => v,
        Err(_) => panic!("valid colors rejected"),
    };
    assert_eq!(vars.len(), 3 + 2 * 11);
    assert_eq!(text_var(&vars, "scheme-slug"), Some("test"));
    assert_eq!(text_var(&vars, "scheme-name"), Some("Test"));
    assert_eq!(text_var(&vars, "scheme-author"), Some("A"));
    assert_eq!(text_var(&vars, "base01-hex"), Some("ff8001"));
    assert_eq!(text_var(&vars, "base01-hex-r"), Some("ff"));
    assert_eq!(text_var(&vars, "base01-hex-g"), Some("80"));
    assert_eq!(text_var(&vars, "base01-hex-b"), Some("01"));
    assert_eq!(int_var(&vars, "base01-rgb-r"), Some(255));
    assert_eq!(int_var(&vars, "base01-rgb-g"), Some(128));
    assert_eq!(int_var(&vars, "base01-rgb-b"), Some(1));
    assert_eq!(int_var(&vars, "base01-dec-r"), Some(1));
    assert_eq!(int_var(&vars, "base01-dec-g"), Some(0));
    assert_eq!(int_var(&vars, "base01-dec-b"), Some(0));
    assert_eq!(text_var(&vars, "base01-hex-bgr"), Some("0180ff"));
    assert_eq!(int_var(&vars, "base00-rgb-r"), Some(0));
}

#[test]
fn expand_rejects_invalid_color() {
    let s = scheme("bad", "Bad", &[("base00", "000000"), ("base01", "12345"), ("base02", "zzzzzz")]);
    match expand(&s) {
        Err(e) => {
            assert_eq!(e.slug, "bad");
            assert_eq!(e.slot, "base01");
            assert_eq!(e.value, "12345");
        }
        Ok(_) => panic!("invalid color accepted"),
    }
}

#[test]
fn slug_lowercases_and_underscores() {
    assert_eq!(slugify("Solarized Light"), "solarized_light");
    assert_eq!(slugify("A-b.C d"), "a-b.c_d");
    assert_eq!(underscore_spaces("a b  c"), "a_b__c");
    let t = template("", "vim/colors", ".vim");
    assert_eq!(output_path(&t, "Solarized Light"), "vim/colors/base16-solarized_light.vim");
}

#[test]
fn undefined_placeholder_renders_empty() {
    let vars = vec![("known".to_string(), Value::Text("x".to_string()))];
    match render("a{{missing}}b{{known}}", &vars) {
        Ok(b) => assert_eq!(b, b"abx".to_vec()),
        Err(_) => panic!("render failed"),
    }
}

#[test]
fn padded_placeholders_render() {
    let vars = vec![("known".to_string(), Value::Text("x".to_string()))];
    match render("<{{ known }}|{{\tknown\t}}|{{  missing }}>", &vars) {
        Ok(b) => assert_eq!(b, b"<x|x|>".to_vec()),
        Err(_) => panic!("padded placeholder rejected"),
    }
    match render("{{ nothing }}", &vars) {
        Ok(b) => assert!(b.is_empty()),
        Err(_) => panic!("lone undefined placeholder rejected"),
    }
    assert!(render("{{known}}}", &vars).is_ok());
}

#[test]
fn tags_without_variables_leave_the_text() {
    let vars: Vec<(String, Value)> = Vec::new();
    match render("a{{x}}b{{{y}}}c{{ z }}}d {{& w}}\n", &vars) {
        Ok(b) => assert_eq!(String::from_utf8(b).unwrap(), "abcd \n"),
        Err(_) => panic!("placeholders rejected"),
    }
}

#[test]
fn unescaped_and_unusual_placeholders_render() {
    let vars = vec![
        ("x".to_string(), Value::Text("<a&b>".to_string())),
        ("n".to_string(), Value::Integer(42)),
    ];
    match render("{{x}}|{{{x}}}|{{& x}}|{{\nn\n}}|{{a b}}|{{a:b}}|{{ }}", &vars) {
        Ok(b) => assert_eq!(String::from_utf8(b).unwrap(), "&lt;a&amp;b&gt;|<a&b>|<a&b>|42|||"),
        Err(_) => panic!("placeholder rejected"),
    }
}

#[test]
fn unterminated_placeholder_is_error() {
    let vars: Vec<(String, Value)> = Vec::new();
    match render("ab{{name", &vars) {
        Err(e) => assert_eq!(e.position, 2),
        Ok(_) => panic!("unterminated placeholder accepted"),
    }
    assert_eq!(first_bad_placeholder("{{}}"), Some(0));
    assert_eq!(first_bad_placeholder("x {{a}} {{#s}}"), Some(8));
    assert_eq!(first_bad_placeholder("{{/s}}"), Some(0));
    assert_eq!(first_bad_placeholder("{{^s}}"), Some(0));
    assert_eq!(first_bad_placeholder("{{>p}}"), Some(0));
    assert_eq!(first_bad_placeholder("{{! note }}"), Some(0));
    assert_eq!(first_bad_placeholder("{{a.b}}"), Some(0));
    assert_eq!(first_bad_placeholder("{{é}}"), Some(0));
    assert_eq!(first_bad_placeholder("{{aé}}"), Some(0));
    assert_eq!(first_bad_placeholder("{{{}}"), Some(0));
    assert_eq!(first_bad_placeholder("{{ }}"), None);
    assert_eq!(first_bad_placeholder("{{a b}}"), None);
    assert_eq!(first_bad_placeholder("{{a:b}}"), None);
    assert_eq!(first_bad_placeholder("{{{a}}}"), None);
    assert_eq!(first_bad_placeholder("{{& a}}"), None);
    assert_eq!(first_bad_placeholder("{{a}}}"), None);
    assert_eq!(first_bad_placeholder("{a} }} {{b-c_1}} {{ \td }}"), None);
}

#[test]
fn end_to_end_scheme_renders() {
    let text = "scheme: \"Test\"\nauthor: \"A\"\nbase00: \"000000\"\nbase01: \"ffffff\"\n";
    let s = match load_scheme("test", text) {
        Ok(s) => s,
        Err(_) => panic!("scheme rejected"),
    };
    assert_eq!(s.name, "Test");
    assert_eq!(s.author, "A");
    assert_eq!(s.colors.len(), 2);
    let templates = vec![template("{{scheme-name}}-{{base00-hex}}-{{base01-rgb-r}}", "out", ".txt")];
    let jobs = plan(&vec![s], &templates, None);
    assert_eq!(jobs.len(), 1);
    assert_eq!(rendered(&jobs[0]), "Test-000000-255");
    assert_eq!(jobs[0].path, "out/base16-test.txt");
    assert_eq!(jobs[0].directory, "out");
    assert!(!jobs[0].overwrites);
}

#[test]
fn colliding_paths_warn_once() {
    let schemes = vec![scheme("one", "One", &[("base00", "010203")])];
    let templates = vec![
        template("first {{base00-hex}}", "out", ".conf"),
        template("second {{base00-hex}}", "out", ".conf"),
        template("third", "elsewhere", ".conf"),
    ];
    let jobs = plan(&schemes, &templates, None);
    assert_eq!(jobs.len(), 3);
    assert_eq!(jobs.iter().filter(|j| j.overwrites).count(), 1);
    assert!(!jobs[0].overwrites);
    assert!(jobs[1].overwrites);
    assert_eq!(jobs[0].path, jobs[1].path);
    assert_eq!(rendered(&jobs[1]), "second 010203");
}

#[test]
fn unmatched_filter_builds_nothing() {
    let schemes = vec![scheme("one", "One", &[]), scheme("two", "Two", &[])];
    let templates = vec![template("x", "out", ".x")];
    assert_eq!(plan(&schemes, &templates, Some("three")).len(), 0);
    let picked = plan(&schemes, &templates, Some("tWO"));
    assert_eq!(picked.len(), 1);
    assert_eq!(picked[0].scheme, 1);
    assert_eq!(plan(&schemes, &templates, None).len(), 2);
    assert!(selects(Some("SOLARIZED light"), "Solarized Light"));
    assert!(!selects(Some("Solarized"), "Solarized Light"));
}

#[test]
fn building_twice_gives_same_files() {
    let schemes = vec![
        scheme("a b", "A B", &[("base00", "abcdef"), ("base05", "ffffff")]),
        scheme("c", "C", &[("base00", "000000"), ("base05", "7f7f7f")]),
    ];
    let templates = vec![
        template("{{scheme-slug}} {{base05-dec-r}} {{base00-hex-bgr}}", "out", ".a"),
        template("{{base05-rgb-g}}", "out", ".b"),
    ];
    let first = plan(&schemes, &templates, None);
    let second = plan(&schemes, &templates, None);
    assert_eq!(first.len(), 4);
    for (x, y) in first.iter().zip(second.iter()) {
        assert_eq!(x.path, y.path);
        assert_eq!(rendered(x), rendered(y));
    }
    assert_eq!(rendered(&first[0]), "a b 1 efcdab");
    assert_eq!(first[0].path, "out/base16-a_b.a");
    assert_eq!(rendered(&first[3]), "127");
}

#[test]
fn pair_errors_are_reported() {
    let schemes = vec![scheme("bad", "Bad", &[("base00", "xyz")]), scheme("ok", "Ok", &[])];
    let templates = vec![template("{{", "out", ".x")];
    let jobs = plan(&schemes, &templates, None);
    assert!(matches!(&jobs[0].output, Err(PairError::Color(e)) if e.slot == "base00"));
    assert!(matches!(&jobs[1].output, Err(PairError::Render(e)) if e.position == 0));
}

#[test]
fn path_set_checks_and_inserts() {
    let mut set = PathSet::new();
    assert!(!set.insert_if_absent("a/b"));
    assert!(set.insert_if_absent("a/b"));
    assert!(!set.insert_if_absent("a/c"));
    assert!(set.contains("a/c"));
    assert!(!set.contains("a"));
}

#[test]
fn scheme_file_errors() {
    assert!(matches!(load_scheme("s", "a: [unclosed"), Err(SchemeError::Syntax)));
    assert!(matches!(load_scheme("s", "- a\n- b\n"), Err(SchemeError::NotMapping)));
    assert!(matches!(load_scheme("s", ""), Err(SchemeError::NotMapping)));
    assert!(matches!(load_scheme("s", "scheme: X\nbase00: 123\n"), Err(SchemeError::ValueNotText(k)) if k == "base00"));
    assert!(matches!(load_scheme("s", "[1]: x\n"), Err(SchemeError::KeyNotText)));
    match load_scheme("s", "base00: \"aaaaaa\"\n") {
        Ok(s) => {
            assert_eq!(s.name, "");
            assert_eq!(s.author, "");
            assert_eq!(s.slug, "s");
            assert_eq!(s.colors, vec![("base00".to_string(), "aaaaaa".to_string())]);
        }
        Err(_) => panic!("scheme without name rejected"),
    }
}

#[test]
fn scheme_file_names() {
    assert_eq!(scheme_slug("solarized-light.yaml"), Some("solarized-light".to_string()));
    assert_eq!(scheme_slug("a.b.yaml"), Some("a.b".to_string()));
    assert_eq!(scheme_slug(".yaml"), None);
    assert_eq!(scheme_slug("x.yml"), None);
    assert_eq!(scheme_slug("README.md"), None);
}

#[test]
fn template_config_reads_entries() {
    let text = "default:\n  extension: .vim\n  output: colors\nplain:\n  extension: ~\n  output: other\n";
    let entries = match load_config(text) {
        Ok(e) => e,
        Err(_) => panic!("config rejected"),
    };
    assert_eq!(entries.len(), 2);
    assert_eq!(entries[0].name, "default");
    assert_eq!(entries[0].extension, ".vim");
    assert_eq!(entries[0].output, "colors");
    assert_eq!(entries[1].extension, "");
    let t = template_from("templates/vim", &entries[0], "body".to_string());
    assert_eq!(t.output, "templates/vim/colors");
    assert_eq!(t.name, "default");
    assert_eq!(t.extension, ".vim");
    assert_eq!(t.body, "body");
    assert_eq!(config_path("templates/vim"), "templates/vim/templates/config.yaml");
    assert_eq!(body_path("templates/vim", "default"), "templates/vim/templates/default.mustache");
}

#[test]
fn template_config_errors() {
    assert!(matches!(load_config("a: {"), Err(ConfigError::Syntax)));
    assert!(matches!(load_config("just text"), Err(ConfigError::NotMapping)));
    assert!(matches!(load_config("default: 3\n"), Err(ConfigError::EntryNotMapping(n)) if n == "default"));
    assert!(matches!(load_config("default:\n  output: o\n"),
        Err(ConfigError::MissingKey(n, k)) if n == "default" && k == "extension"));
    assert!(matches!(load_config("default:\n  extension: .x\n"),
        Err(ConfigError::MissingKey(n, k)) if n == "default" && k == "output"));
}

#[test]
fn text_helpers() {
    assert_eq!(slugify("ÀBc É"), "àbc_é");
    assert!(same_text("abc", "abc"));
    assert!(!same_text("abc", "abd"));
    assert!(!same_text("abc", "ab"));
    assert!(ends_with("abc.yaml", ".yaml"));
    assert!(!ends_with("yaml", ".yaml"));
}

#[test]
fn jobs_group_by_path() {
    let schemes = vec![scheme("one", "One", &[]), scheme("two", "Two", &[])];
    let templates = vec![
        template("a", "out", ".x"),
        template("b", "out", ".x"),
        template("c", "out", ".y"),
    ];
    let jobs = plan(&schemes, &templates, None);
    let (ids, count) = path_groups(&jobs);
    assert_eq!(count, 4);
    assert_eq!(ids, vec![0, 0, 1, 2, 2, 3]);
    assert!(jobs[1].overwrites);
    assert!(jobs[4].overwrites);
    assert!(!jobs[3].overwrites);
}

#[test]
fn source_manifests() {
    match load_manifest("default: https://example.com/a.git
extra: \"https://example.com/b\"\n") {
        Ok(v) => assert_eq!(
            v,
            vec![
                ("default".to_string(), "https://example.com/a.git".to_string()),
                ("extra".to_string(), "https://example.com/b".to_string()),
            ]
        ),
        Err(_) => panic!("manifest rejected"),
    }
    assert!(matches!(load_manifest("a: ["), Err(ManifestError::Syntax)));
    assert!(matches!(load_manifest("- a"), Err(ManifestError::NotMapping)));
    assert!(matches!(load_manifest("a: 1"), Err(ManifestError::NotText)));
    assert_eq!(repo_path("schemes", "default"), "schemes/default");
}

#[test]
fn repeated_slot_keeps_one_entry() {
    let text = |s: &str| Node::Text(s.to_string());
    let entries = vec![
        (text("base00"), text("111111")),
        (text("scheme"), text("Dup")),
        (text("base01"), text("333333")),
        (text("base00"), text("222222")),
    ];
    match scheme_from_entries("dup", &entries) {
        Ok(s) => {
            assert_eq!(s.name, "Dup");
            assert_eq!(
                s.colors,
                vec![
                    ("base00".to_string(), "222222".to_string()),
                    ("base01".to_string(), "333333".to_string()),
                ]
            );
        }
        Err(_) => panic!("scheme rejected"),
    }
}

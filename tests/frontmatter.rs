use mdbook_frntmtr::frontmatter::{extract, substitute, Metadata};
use mdbook_frntmtr::preprocessor::Frntmtr;

fn meta_of(pairs: &[(&str, &str)]) -> Metadata {
    let mut m = Metadata::new();
    for (k, v) in pairs {
        m.insert(k.to_string(), v.to_string());
    }
    m
}

#[test]
fn extract_two_delimiters() {
    let (m, body) = extract("---\ntitle: Hello\nurl: http://x\n---\nBody\nmore").unwrap();
    assert_eq!(m.get("title"), Some("Hello".to_string()));
    assert_eq!(m.get("url"), Some("http://x".to_string()));
    assert_eq!(m.get("missing"), None);
    assert_eq!(body, "Body\nmore");
}

#[test]
fn extract_absent_without_delimiters() {
    assert!(extract("# Title\n\nno frontmatter here").is_none());
    assert!(extract("").is_none());
}

#[test]
fn extract_absent_with_one_delimiter() {
    assert!(extract("---\ntitle: x\nbody").is_none());
    assert!(extract("text\n  ---  \nmore").is_none());
}

#[test]
fn extract_empty_block() {
    let (m, body) = extract("---\n---\nbody").unwrap();
    assert_eq!(m.get("title"), None);
    assert_eq!(body, "body");
}

#[test]
fn extract_delimiter_must_fill_its_line() {
    assert!(extract("a --- b\n---x\n").is_none());
}

#[test]
fn extract_whitespace_around_delimiters() {
    let (m, body) = extract("  ---  \r\nk :  v  \r\n\t---\r\nrest").unwrap();
    assert_eq!(m.get("k"), Some("v".to_string()));
    assert_eq!(body, "rest");
}

#[test]
fn extract_drops_preamble_and_keeps_later_delimiters() {
    let (m, body) = extract("intro\n---\na: b\n---\none\n---\ntwo").unwrap();
    assert_eq!(m.get("a"), Some("b".to_string()));
    assert_eq!(m.get("intro"), None);
    assert_eq!(body, "one\n---\ntwo");
}

#[test]
fn extract_last_duplicate_wins() {
    let (m, _) = extract("---\nk: 1\nno colon line\nk: 2\n---\n").unwrap();
    assert_eq!(m.get("k"), Some("2".to_string()));
}

#[test]
fn substitute_colon_in_value() {
    let m = meta_of(&[("title", "A: B")]);
    assert_eq!(substitute("{{ page.title }}!", &m), "A: B!");
}

#[test]
fn substitute_through_extract_keeps_first_colon_split() {
    let (m, body) = extract("---\ntitle: A: B\n---\n{{ page.title }}!").unwrap();
    assert_eq!(m.get("title"), Some("A: B".to_string()));
    assert_eq!(substitute(&body, &m), "A: B!");
}

#[test]
fn substitute_spacing_variants() {
    let m = meta_of(&[("name", "X")]);
    assert_eq!(substitute("{{page.name}} {{   page.name   }} {{ page.name}}", &m), "X X X");
}

#[test]
fn substitute_leaves_unknown_keys() {
    let m = meta_of(&[("a", "1")]);
    assert_eq!(substitute("{{ page.b }} and {{ page.a }}", &m), "{{ page.b }} and 1");
}

#[test]
fn substitute_key_is_literal() {
    let m = meta_of(&[("a.b", "dot"), ("a+", "plus")]);
    assert_eq!(substitute("{{ page.a.b }} {{ page.axb }} {{ page.a+ }}", &m), "dot {{ page.axb }} plus");
}

#[test]
fn substitute_inserts_values_once() {
    let m = meta_of(&[("a", "{{ page.b }}"), ("b", "B")]);
    assert_eq!(substitute("{{ page.a }}", &m), "{{ page.b }}");
}

#[test]
fn substitute_twice_is_once() {
    let m = meta_of(&[("title", "Hello"), ("author", "Ann")]);
    let once = substitute("{{ page.title }} by {{page.author}} {{ page.none }}", &m);
    assert_eq!(once, "Hello by Ann {{ page.none }}");
    assert_eq!(substitute(&once, &m), once);
}

#[test]
fn metadata_insert_replaces() {
    let m = meta_of(&[("k", "1"), ("k", "2")]);
    assert_eq!(m.get("k"), Some("2".to_string()));
}

#[test]
fn chapter_rewritten_and_renamed() {
    let p = Frntmtr::new();
    let u = p.process_chapter("---\ntitle: Intro\nauthor: Ann\n---\n# {{ page.title }} by {{ page.author }}").unwrap();
    assert_eq!(u.content, "# Intro by Ann");
    assert_eq!(u.name, Some("Intro".to_string()));
}

#[test]
fn chapter_without_title_keeps_name() {
    let p = Frntmtr::new();
    let u = p.process_chapter("---\nauthor: Ann\n---\nbody").unwrap();
    assert_eq!(u.content, "body");
    assert_eq!(u.name, None);
}

#[test]
fn chapter_without_block_untouched() {
    let p = Frntmtr::new();
    assert!(p.process_chapter("# Plain\n\n{{ page.title }}").is_none());
}

#[test]
fn preprocessor_name_and_renderers() {
    let p = Frntmtr::new();
    assert_eq!(p.name(), "frntmtr");
    assert!(p.supports_renderer("html"));
    assert!(!p.supports_renderer("unknown"));
}

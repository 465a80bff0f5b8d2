use diag_migrate::{append_to_string, serialize_entries, Entry, Parser};

fn lines(text: &str) -> Vec<String> {
    text.lines().map(|s| s.to_string()).collect()
}

fn parse(text: &str) -> Parser {
    let mut p = Parser::new();
    p.parse_lines(lines(text)).expect("no duplicate slugs");
    p
}

#[test]
fn entry_with_one_child() {
    let p = parse("greeting = Hello\n.name = World");
    assert_eq!(p.entries.len(), 1);
    assert_eq!(p.entries[0].slug, "greeting");
    assert_eq!(p.entries[0].value, "Hello");
    assert_eq!(p.entries[0].childs, vec![(".name".to_string(), "World".to_string())]);
}

#[test]
fn empty_input_gives_no_entries() {
    let p = parse("");
    assert!(p.entries.is_empty());
}

#[test]
fn entry_without_children() {
    let p = parse("a = one\n\nb = two\n");
    assert_eq!(p.entries.len(), 2);
    assert!(p.entries[0].childs.is_empty());
    assert_eq!(p.entries[1].slug, "b");
    assert_eq!(p.entries[1].value, "two");
}

#[test]
fn continuation_lines_join_values() {
    let p = parse("msg = first\n    second\n.note = a\n  b\n");
    assert_eq!(p.entries[0].value, "first\nsecond");
    assert_eq!(p.entries[0].childs, vec![(".note".to_string(), "a\nb".to_string())]);
}

#[test]
fn key_on_its_own_line() {
    let p = parse("long_key =\n    the value\n");
    assert_eq!(p.entries.len(), 1);
    assert_eq!(p.entries[0].slug, "long_key");
    assert_eq!(p.entries[0].value, "the value");
}

#[test]
fn top_level_key_closes_previous_entry() {
    let p = parse("a = 1\n.x = 2\nb = 3");
    assert_eq!(p.entries.len(), 2);
    assert_eq!(p.entries[0].childs.len(), 1);
    assert_eq!(p.entries[1].slug, "b");
}

#[test]
fn duplicate_slug_is_rejected() {
    let mut p = Parser::new();
    let r = p.parse_lines(lines("dup = one\n\ndup = two\n"));
    assert_eq!(r.unwrap_err().slug, "dup");
}

#[test]
fn duplicate_slug_without_blank_line_is_rejected() {
    let mut p = Parser::new();
    let r = p.parse_lines(lines("dup = one\n.a = x\ndup = two"));
    assert!(r.is_err());
}

#[test]
fn serialized_entries_parse_back() {
    let mut a = Entry::new("first".to_string(), "Hello there".to_string());
    a.add_child(".label".to_string(), "a label".to_string());
    a.add_child(".note".to_string(), "a note".to_string());
    let b = Entry::new("second".to_string(), "Bye".to_string());
    let text = serialize_entries(&vec![a.clone(), b.clone()]);
    let mut p = Parser::new();
    p.parse_lines(text).unwrap();
    assert_eq!(p.entries.len(), 2);
    assert_eq!(p.entries[0].slug, a.slug);
    assert_eq!(p.entries[0].value, a.value);
    assert_eq!(p.entries[0].childs, a.childs);
    assert_eq!(p.entries[1].slug, b.slug);
    assert_eq!(p.entries[1].childs, b.childs);
}

#[test]
fn append_joins_with_newline() {
    assert_eq!(append_to_string("", "x"), "x");
    assert_eq!(append_to_string("a", "b"), "a\nb");
}

#[test]
fn lookup_by_own_slug_quotes_value() {
    let e = Entry::new("greeting".to_string(), "Hello".to_string());
    assert_eq!(e.get_value_from_slug("greeting"), Some("\"Hello\"".to_string()));
    assert_eq!(e.get_value_from_slug("other"), None);
}

#[test]
fn lookup_of_child_variants() {
    let mut e = Entry::new("parse_thing".to_string(), "Thing".to_string());
    e.add_child(".label".to_string(), "the label".to_string());
    e.add_child(".suggestion_remove".to_string(), "remove it".to_string());
    assert_eq!(e.get_value_from_slug(".label"), Some("\"the label\"".to_string()));
    assert_eq!(e.get_value_from_slug("label"), Some("\"the label\"".to_string()));
    assert_eq!(
        e.get_value_from_slug("parse_suggestion_remove"),
        Some("\"remove it\"".to_string())
    );
    assert_eq!(e.get_value_from_slug("parse_missing"), None);
}

#[test]
fn literal_escapes_quotes_and_braces() {
    let e = Entry::new("s".to_string(), "  say \"hi\" {\"{\"}x{\"}\"}  ".to_string());
    assert_eq!(e.get_value_from_slug("s"), Some("\"say \\\"hi\\\" {x}\"".to_string()));
}

#[test]
fn first_matching_child_wins() {
    let mut e = Entry::new("a".to_string(), "A".to_string());
    e.add_child(".k".to_string(), "one".to_string());
    e.add_child("k".to_string(), "two".to_string());
    assert_eq!(e.get_value_from_slug("k"), Some("\"one\"".to_string()));
}

use diag_migrate::{Entry, ErrorStruct, Parser, SynVisitor};

fn record(name: &str, slug: Option<&str>, source: &str) -> ErrorStruct {
    ErrorStruct {
        slug: slug.map(|s| s.to_string()),
        attrs: vec![],
        field_labels: vec![],
        sub_diags: vec![],
        diag_type: "Diagnostic".to_string(),
        diag_name: name.to_string(),
        parent_diag: None,
        source: source.to_string(),
    }
}

fn entries(text: &str) -> Vec<Entry> {
    let mut p = Parser::new();
    p.parse_lines(text.lines().map(|s| s.to_string()).collect()).unwrap();
    p.entries
}

fn visitor(text: &str, resource: &str, records: Vec<ErrorStruct>) -> SynVisitor {
    let mut v = SynVisitor::new(text.to_string());
    v.errors = records;
    v.set_parent_diag();
    v.set_fluent_source(&entries(resource));
    v
}

#[test]
fn own_slug_resolves_to_own_value() {
    let v = visitor("", "greeting = Hello", vec![record("S", Some("greeting"), "")]);
    let r = v.errors[0].clone();
    assert_eq!(v.get_value(&r, "greeting"), Some("\"Hello\"".to_string()));
}

#[test]
fn resolution_is_repeatable() {
    let v = visitor("", "greeting = Hello\n.label = L", vec![record("S", Some("greeting"), "")]);
    let r = v.errors[0].clone();
    assert_eq!(v.get_value(&r, ".label"), v.get_value(&r, ".label"));
    assert_eq!(v.get_value(&r, "nothing"), None);
}

#[test]
fn placeholder_attribute_resolves_and_rewrites() {
    let source = "#[diag(greeting)]\n#[note]\npub struct S {}";
    let mut r = record("S", Some("greeting"), source);
    r.field_labels = vec![
        ("diag".to_string(), "greeting".to_string()),
        ("note".to_string(), "_".to_string()),
    ];
    let text = format!("// head\n{}\n", source);
    let v = visitor(&text, "greeting = Hello\n.note = Be careful", vec![r]);
    let rec = v.errors[0].clone();
    assert_eq!(v.get_value(&rec, ".note"), Some("\"Be careful\"".to_string()));
    assert_eq!(
        v.gen_source_code(),
        "// head\n#[diag(label = \"Hello\")]\n#[note(\"Be careful\")]\npub struct S {}\n"
    );
}

#[test]
fn parent_entry_answers_for_child_record() {
    let mut outer = record("Outer", Some("outer_msg"), "");
    outer.sub_diags = vec!["Inner".to_string()];
    let inner = record("Inner", Some("not_there"), "");
    let v = visitor("", "outer_msg = Outer\n.label = From outer", vec![outer, inner]);
    assert_eq!(v.errors[1].parent_diag, Some("Outer".to_string()));
    assert_eq!(v.errors[0].parent_diag, None);
    let rec = v.errors[1].clone();
    assert_eq!(v.get_value(&rec, ".label"), Some("\"From outer\"".to_string()));
}

#[test]
fn unknown_sub_diagnostic_is_ignored() {
    let mut outer = record("Outer", None, "");
    outer.sub_diags = vec!["Missing".to_string()];
    let v = visitor("", "", vec![outer, record("Other", None, "")]);
    assert_eq!(v.errors[0].parent_diag, None);
    assert_eq!(v.errors[1].parent_diag, None);
}

#[test]
fn last_claimant_becomes_parent() {
    let mut a = record("A", None, "");
    a.sub_diags = vec!["C".to_string()];
    let mut b = record("B", None, "");
    b.sub_diags = vec!["C".to_string()];
    let v = visitor("", "", vec![a, b, record("C", None, "")]);
    assert_eq!(v.errors[2].parent_diag, Some("B".to_string()));
}

#[test]
fn references_are_filled_in() {
    let v = visitor("", "msg = Hi {name}\n\nname = Bob", vec![]);
    assert_eq!(v.fluent_source[0].value, "Hi Bob");
    let root = v.fluent_source.last().unwrap();
    assert_eq!(root.slug, "*root*");
    assert_eq!(root.childs[0], ("msg".to_string(), "Hi Bob".to_string()));
    assert_eq!(root.childs[1], ("name".to_string(), "Bob".to_string()));
}

#[test]
fn unknown_references_stay() {
    let v = visitor("", "msg = Hi {who} and {name}\n.x = {name}!\n\nname = Bob", vec![]);
    assert_eq!(v.fluent_source[0].value, "Hi {who} and Bob");
    assert_eq!(v.fluent_source[0].childs[0].1, "Bob!");
}

#[test]
fn root_answers_when_owner_does_not() {
    let v = visitor(
        "",
        "greeting = Hello\n\nother = Other text",
        vec![record("S", Some("greeting"), "")],
    );
    let rec = v.errors[0].clone();
    assert_eq!(v.get_value(&rec, "other"), Some("\"Other text\"".to_string()));
}

#[test]
fn record_without_slug_uses_root() {
    let v = visitor("", "shared = Shared", vec![record("S", None, "")]);
    let rec = v.errors[0].clone();
    assert_eq!(v.get_value(&rec, "shared"), Some("\"Shared\"".to_string()));
}

#[test]
fn second_rewrite_changes_nothing() {
    let source = "#[diag(greeting)]\n#[note]\npub struct S {}";
    let mut r = record("S", Some("greeting"), source);
    r.field_labels = vec![
        ("diag".to_string(), "greeting".to_string()),
        ("note".to_string(), "_".to_string()),
    ];
    let mut v = visitor(source, "greeting = Hello\n.note = Careful", vec![r]);
    let once = v.gen_source_code();
    assert_ne!(once, source);
    v.file_source_code = once.clone();
    assert_eq!(v.gen_source_code(), once);
}

#[test]
fn longer_literal_is_patched_first() {
    let source = "#[label(short)]\n#[help(long)]\nstruct S {}";
    let mut r = record("S", None, source);
    r.field_labels = vec![
        ("label".to_string(), "short".to_string()),
        ("help".to_string(), "long".to_string()),
    ];
    let v = visitor(source, "short = s\n\nlong = a long message", vec![r]);
    assert_eq!(
        v.gen_source_code(),
        "#[label(\"s\")]\n#[help(\"a long message\")]\nstruct S {}"
    );
}

#[test]
fn main_slug_with_code_is_rewritten() {
    let source = "#[diag(x, code = \"E1\")]\npub struct S {}";
    let mut r = record("S", Some("x"), source);
    r.field_labels = vec![("diag".to_string(), "x".to_string())];
    let text = format!("{}\n", source);
    let v = visitor(&text, "x = No end", vec![r]);
    assert_eq!(
        v.gen_source_code(),
        "#[diag(label = \"No end\" , code = \"E1\")]\npub struct S {}\n"
    );
}

#[test]
fn unresolved_keys_are_listed() {
    let mut r = record("S", Some("greeting"), "");
    r.field_labels = vec![
        ("help".to_string(), "_".to_string()),
        ("label".to_string(), "missing_slug".to_string()),
        ("note".to_string(), "_".to_string()),
    ];
    let v = visitor("", "greeting = Hello\n.note = N", vec![r]);
    let rec = v.errors[0].clone();
    assert_eq!(v.unresolved_keys(&rec), vec![".help".to_string(), "missing_slug".to_string()]);
}

use diag_migrate::{
    get_diag_type, get_ty_path, replace_attr_name, replace_slug, AttrInfo, FieldInfo, ItemInfo,
    ItemKind, SynVisitor, TypeShape, VariantInfo,
};

#[test]
fn main_slug_becomes_label() {
    assert_eq!(
        replace_slug("#[diag(parse_x)]", "diag", "parse_x", "\"X\""),
        "#[diag(label = \"X\")]"
    );
}

#[test]
fn parenthesized_slug_becomes_literal() {
    assert_eq!(
        replace_slug("#[label(parse_y)]", "label", "parse_y", "\"Y\""),
        "#[label(\"Y\")]"
    );
}

#[test]
fn bare_slug_gets_label_prefix() {
    assert_eq!(
        replace_slug("#[suggestion(parse_z, code = \"..\")]", "suggestion", "parse_z", "\"Z\""),
        "#[suggestion(label = \"Z\" , code = \"..\")]"
    );
}

#[test]
fn bare_marker_gets_literal() {
    assert_eq!(replace_attr_name("#[note]", "note", "\"N\""), "#[note(\"N\")]");
}

#[test]
fn marker_with_arguments_gets_label() {
    assert_eq!(
        replace_attr_name("#[suggestion(code = \"x\")]", "suggestion", "\"S\""),
        "#[suggestion(label = \"S\", code = \"x\")]"
    );
}

fn word(ident: &str) -> AttrInfo {
    AttrInfo { ident: Some(ident.to_string()), tokens: None, nested: vec![] }
}

fn list(ident: &str, tokens: &str, nested: &[&str]) -> AttrInfo {
    AttrInfo {
        ident: Some(ident.to_string()),
        tokens: Some(tokens.to_string()),
        nested: nested.iter().map(|s| s.to_string()).collect(),
    }
}

fn path_type(first: &str, arg: Option<&str>) -> TypeShape {
    TypeShape { path_first: Some(first.to_string()), first_arg: arg.map(|s| s.to_string()) }
}

#[test]
fn type_names() {
    assert_eq!(get_ty_path(&path_type("Inner", None)), "Inner");
    assert_eq!(get_ty_path(&path_type("Option", Some("Inner"))), "Inner");
    assert_eq!(get_ty_path(&path_type("Option", None)), "");
    assert_eq!(get_ty_path(&TypeShape { path_first: None, first_arg: None }), "");
}

#[test]
fn diag_type_is_list_tokens() {
    assert_eq!(get_diag_type(&list("derive", "Diagnostic", &[])), Some("Diagnostic".to_string()));
    assert_eq!(get_diag_type(&word("note")), None);
}

fn sample_struct() -> ItemInfo {
    ItemInfo {
        kind: ItemKind::Struct,
        name: "Outer".to_string(),
        attrs: vec![
            list("derive", "Diagnostic", &["Diagnostic"]),
            list("diag", "parse_outer", &["parse_outer"]),
            word("note"),
        ],
        fields: vec![
            FieldInfo {
                attrs: vec![word("label")],
                ty: path_type("Span", None),
            },
            FieldInfo {
                attrs: vec![list("suggestion", "code = \"x\"", &["code"])],
                ty: path_type("Span", None),
            },
            FieldInfo {
                attrs: vec![word("subdiagnostic")],
                ty: path_type("Option", Some("Inner")),
            },
        ],
        variants: vec![],
        source: "struct Outer".to_string(),
    }
}

#[test]
fn struct_record_is_extracted() {
    let mut v = SynVisitor::new(String::new());
    v.init_with_syntax(&vec![sample_struct()]);
    assert_eq!(v.errors.len(), 1);
    let r = &v.errors[0];
    assert_eq!(r.diag_name, "Outer");
    assert_eq!(r.diag_type, "Diagnostic");
    assert_eq!(r.slug, Some("parse_outer".to_string()));
    assert_eq!(r.sub_diags, vec!["Inner".to_string()]);
    assert_eq!(
        r.field_labels,
        vec![
            ("diag".to_string(), "parse_outer".to_string()),
            ("label".to_string(), "_".to_string()),
            ("note".to_string(), "_".to_string()),
            ("suggestion".to_string(), "_".to_string()),
        ]
    );
}

#[test]
fn enum_variants_come_before_the_enum() {
    let e = ItemInfo {
        kind: ItemKind::Enum,
        name: "Inner".to_string(),
        attrs: vec![list("derive", "Subdiagnostic", &["Subdiagnostic"])],
        fields: vec![],
        variants: vec![
            VariantInfo {
                name: "A".to_string(),
                attrs: vec![list("label", "parse_a", &["parse_a"])],
                fields: vec![],
                source: "A".to_string(),
            },
            VariantInfo {
                name: "B".to_string(),
                attrs: vec![word("note")],
                fields: vec![],
                source: "B".to_string(),
            },
        ],
        source: "enum Inner".to_string(),
    };
    let mut v = SynVisitor::new(String::new());
    v.init_with_syntax(&vec![sample_struct(), e]);
    let names: Vec<String> = v.errors.iter().map(|r| r.diag_name.clone()).collect();
    assert_eq!(names, vec!["Outer", "Inner::A", "Inner"]);
    assert_eq!(v.errors[1].field_labels, vec![("label".to_string(), "parse_a".to_string())]);
    assert_eq!(v.errors[1].slug, None);
    assert_eq!(v.errors[2].parent_diag, Some("Outer".to_string()));
}

#[test]
fn message_paths_become_literals() {
    let mut p = diag_migrate::Parser::new();
    p.parse_lines(vec![
        "parse_a = First".to_string(),
        ".label = A label".to_string(),
        "".to_string(),
        "parse_b = Second".to_string(),
    ])
    .unwrap();
    let mut v = SynVisitor::new(String::new());
    v.set_fluent_source(&p.entries);
    let text = "x(fluent::parse_a); y(fluent::label); z(fluent::parse_b); w(fluent::a::b); q(fluent::none)".to_string();
    let paths = vec![
        "fluent::parse_a".to_string(),
        "fluent::label".to_string(),
        "fluent::parse_b".to_string(),
        "fluent::a::b".to_string(),
        "fluent::none".to_string(),
    ];
    assert_eq!(
        v.replace_message_paths(&text, &paths),
        "x(DiagnosticMessage::Str(Cow::from(\"First\"))); y(DiagnosticMessage::Str(Cow::from(\"A label\"))); z(DiagnosticMessage::Str(Cow::from(\"Second\"))); w(fluent::a::b); q(fluent::none)"
    );
}

#[test]
fn main_slug_with_arguments_gets_label() {
    assert_eq!(
        replace_slug("#[diag(x, code = \"E1\")]", "diag", "x", "\"X\""),
        "#[diag(label = \"X\" , code = \"E1\")]"
    );
}

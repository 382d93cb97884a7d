use astdisplay::doc::BuildError;
use astdisplay::rule::{
    Attrs, FieldKind, FieldSpec, NodeSpec, RecordSpec, UnionSpec, UnnamedFieldSpec, VariantFieldsSpec,
    VariantSpec, build_node_descriptor, resolve_field_rule,
};

fn opt(name: &str, value: &str) -> (String, String) {
    (String::from(name), String::from(value))
}

#[test]
fn attrs_remove_takes_the_option_out() {
    let mut attrs = Attrs::new(vec![opt("rename", "X"), opt("prefix", "(")]);
    assert_eq!(attrs.remove("rename"), Some(String::from("X")));
    assert_eq!(attrs.remove("rename"), None);
    assert_eq!(attrs.remove("prefix"), Some(String::from("(")));
    assert!(attrs.finish().is_ok());
}

#[test]
fn attrs_remove_takes_the_first_of_duplicates() {
    let mut attrs = Attrs::new(vec![opt("rename", "first"), opt("rename", "second")]);
    assert_eq!(attrs.remove("rename"), Some(String::from("first")));
    // every duplicate is gone with it
    assert_eq!(attrs.remove("rename"), None);
    assert!(attrs.finish().is_ok());
}

#[test]
fn attrs_rename_falls_back_to_the_default() {
    let mut attrs = Attrs::new(vec![]);
    assert_eq!(attrs.rename("DEFAULT"), "DEFAULT");
    let mut attrs = Attrs::new(vec![opt("rename", "CHOSEN")]);
    assert_eq!(attrs.rename("DEFAULT"), "CHOSEN");
}

#[test]
fn attrs_finish_flags_unknown_options() {
    let attrs = Attrs::new(vec![opt("frobnicate", "")]);
    assert_eq!(attrs.finish(), Err(BuildError::UnknownOption(String::from("frobnicate"))));
}

#[test]
fn attrs_finish_flags_recognised_but_unconsumed_options() {
    let attrs = Attrs::new(vec![opt("prefix", "(")]);
    assert_eq!(attrs.finish(), Err(BuildError::MalformedOption(String::from("prefix"))));
}

#[test]
fn field_rule_defaults() {
    let rule = resolve_field_rule(FieldKind::Repeated, true, "LIST", vec![]).unwrap();
    assert_eq!(rule.display_name, Some(String::from("LIST")));
    assert!(rule.show_name);
    assert_eq!(rule.separator, (String::from(","), true));
    assert!(rule.suppress_when_empty);
    assert!(!rule.ignored);
    assert_eq!(rule.custom_converter, None);
    assert_eq!(rule.prefix, None);
    assert_eq!(rule.suffix, None);
    assert_eq!(rule.nest_wrap, None);
    assert_eq!(rule.fallback_text, None);
}

#[test]
fn field_rule_applies_options() {
    let rule = resolve_field_rule(
        FieldKind::Repeated,
        true,
        "LIST",
        vec![
            opt("rename", "ITEMS"),
            opt("no_name", ""),
            opt("separator", "."),
            opt("separator_noline", ""),
            opt("show_empty", ""),
            opt("prefix", "["),
            opt("suffix", "]"),
        ],
    )
    .unwrap();
    assert_eq!(rule.display_name, Some(String::from("ITEMS")));
    assert!(!rule.show_name);
    assert_eq!(rule.separator, (String::from("."), false));
    assert!(!rule.suppress_when_empty);
    assert_eq!(rule.prefix, Some(String::from("[")));
    assert_eq!(rule.suffix, Some(String::from("]")));
}

#[test]
fn field_rule_nest_pair() {
    let rule = resolve_field_rule(
        FieldKind::Scalar,
        true,
        "X",
        vec![opt("nest", "CASE"), opt("nest_suffix", "END")],
    )
    .unwrap();
    assert_eq!(rule.nest_wrap, Some((String::from("CASE"), Some(String::from("END")))));
}

#[test]
fn nest_suffix_without_nest_is_malformed() {
    let r = resolve_field_rule(FieldKind::Scalar, true, "X", vec![opt("nest_suffix", "END")]);
    assert_eq!(r.err(), Some(BuildError::MalformedOption(String::from("nest_suffix"))));
}

#[test]
fn no_name_on_a_flag_is_malformed() {
    let r = resolve_field_rule(FieldKind::Flag, true, "X", vec![opt("no_name", "")]);
    assert_eq!(r.err(), Some(BuildError::MalformedOption(String::from("no_name"))));
}

#[test]
fn separator_on_an_optional_is_malformed() {
    let r = resolve_field_rule(FieldKind::Optional, true, "X", vec![opt("separator", ".")]);
    assert_eq!(r.err(), Some(BuildError::MalformedOption(String::from("separator"))));
}

#[test]
fn unknown_option_names_the_offender() {
    let r = resolve_field_rule(FieldKind::Scalar, true, "X", vec![opt("frobnicate", "1")]);
    assert_eq!(r.err(), Some(BuildError::UnknownOption(String::from("frobnicate"))));
}

#[test]
fn doc_fn_takes_the_field_over() {
    let rule = resolve_field_rule(FieldKind::Scalar, true, "X", vec![opt("doc_fn", "my_doc")])
        .unwrap();
    assert_eq!(rule.custom_converter, Some(String::from("my_doc")));
}

#[test]
fn doc_fn_tolerates_only_ignore() {
    let rule = resolve_field_rule(
        FieldKind::Scalar,
        true,
        "X",
        vec![opt("doc_fn", "my_doc"), opt("ignore", "")],
    )
    .unwrap();
    assert!(rule.ignored);
    let r = resolve_field_rule(
        FieldKind::Scalar,
        true,
        "X",
        vec![opt("doc_fn", "my_doc"), opt("prefix", "(")],
    );
    assert_eq!(r.err(), Some(BuildError::MalformedOption(String::from("prefix"))));
}

#[test]
fn ignore_on_an_unnamed_field_is_malformed() {
    let r = resolve_field_rule(FieldKind::Scalar, false, "X", vec![opt("ignore", "")]);
    assert_eq!(r.err(), Some(BuildError::MalformedOption(String::from("ignore"))));
}

#[test]
fn union_variant_with_two_unnamed_fields_is_unsupported() {
    let spec = NodeSpec::Union(UnionSpec {
        variants: vec![VariantSpec {
            name: String::from("Pair"),
            options: vec![],
            fields: VariantFieldsSpec::Unnamed(vec![
                UnnamedFieldSpec { kind: FieldKind::Scalar, options: vec![] },
                UnnamedFieldSpec { kind: FieldKind::Scalar, options: vec![] },
            ]),
        }],
    });
    assert_eq!(build_node_descriptor(spec).err(), Some(BuildError::UnsupportedShape));
}

#[test]
fn record_build_reports_the_field_error() {
    let spec = NodeSpec::Record(RecordSpec {
        name: String::from("Thing"),
        options: vec![],
        fields: vec![FieldSpec {
            name: String::from("bad"),
            kind: FieldKind::Scalar,
            options: vec![opt("wat", "")],
        }],
    });
    assert_eq!(
        build_node_descriptor(spec).err(),
        Some(BuildError::UnknownOption(String::from("wat")))
    );
}

#[test]
fn record_level_unnamed_suppresses_the_header() {
    let spec = NodeSpec::Record(RecordSpec {
        name: String::from("Select"),
        options: vec![opt("unnamed", "")],
        fields: vec![],
    });
    assert!(build_node_descriptor(spec).is_ok());
}

#[test]
fn descriptor_build_is_deterministic() {
    let make = || {
        NodeSpec::Record(RecordSpec {
            name: String::from("DropRolesStatement"),
            options: vec![],
            fields: vec![
                FieldSpec {
                    name: String::from("if_exists"),
                    kind: FieldKind::Flag,
                    options: vec![],
                },
                FieldSpec {
                    name: String::from("names"),
                    kind: FieldKind::Repeated,
                    options: vec![],
                },
            ],
        })
    };
    let d1 = build_node_descriptor(make()).unwrap();
    let d2 = build_node_descriptor(make()).unwrap();
    let values = |label: &str| {
        vec![
            astdisplay::builder::FieldValue::Flag(true),
            astdisplay::builder::FieldValue::Repeated(vec![
                astdisplay::doc::Doc::text(String::from(label)).unwrap(),
            ]),
        ]
    };
    let doc1 = astdisplay::builder::node_doc(&d1, 0, values("one")).unwrap();
    let doc2 = astdisplay::builder::node_doc(&d2, 0, values("one")).unwrap();
    for w in 1..=40usize {
        assert_eq!(astdisplay::render::render(&doc1, w), astdisplay::render::render(&doc2, w));
    }
}

#[test]
fn descriptor_build_errors_are_deterministic() {
    let make = || {
        NodeSpec::Record(RecordSpec {
            name: String::from("Thing"),
            options: vec![opt("nonsense", "")],
            fields: vec![],
        })
    };
    let e1 = build_node_descriptor(make()).err().unwrap();
    let e2 = build_node_descriptor(make()).err().unwrap();
    assert_eq!(e1, e2);
}

use astdisplay::builder::{FieldValue, field_doc, node_doc};
use astdisplay::doc::Doc;
use astdisplay::render::{count_newlines, render};
use astdisplay::rule::{
    FieldKind, FieldRule, FieldSpec, NodeSpec, RecordSpec, UnionSpec, UnnamedFieldSpec,
    VariantFieldsSpec, VariantSpec, build_node_descriptor,
};

fn txt(s: &str) -> Doc {
    Doc::text(String::from(s)).unwrap()
}

fn opt(name: &str, value: &str) -> (String, String) {
    (String::from(name), String::from(value))
}

fn plain_rule() -> FieldRule {
    FieldRule {
        display_name: Some(String::from("NAME")),
        show_name: true,
        prefix: None,
        suffix: None,
        nest_wrap: None,
        separator: (String::from(","), true),
        fallback_text: None,
        suppress_when_empty: true,
        ignored: false,
        custom_converter: None,
    }
}

#[test]
fn flag_emits_its_name_when_true() {
    let rule = plain_rule();
    let d = field_doc(&rule, FieldValue::Flag(true)).unwrap();
    assert_eq!(render(&d, 80), "NAME");
    assert!(field_doc(&rule, FieldValue::Flag(false)).is_none());
}

#[test]
fn flag_falls_back_when_false() {
    let mut rule = plain_rule();
    rule.display_name = Some(String::from("ILIKE"));
    rule.fallback_text = Some(String::from("LIKE"));
    let on = field_doc(&rule, FieldValue::Flag(true)).unwrap();
    let off = field_doc(&rule, FieldValue::Flag(false)).unwrap();
    assert_eq!(render(&on, 80), "ILIKE");
    assert_eq!(render(&off, 80), "LIKE");
}

#[test]
fn optional_introduces_its_name() {
    let rule = plain_rule();
    let d = field_doc(&rule, FieldValue::Optional(Some(txt("x")))).unwrap();
    assert_eq!(render(&d, 80), "NAME\n    x");
    let grouped = Doc::group(field_doc(&rule, FieldValue::Optional(Some(txt("x")))).unwrap());
    assert_eq!(render(&grouped, 80), "NAME x");
    assert_eq!(render(&grouped, 3), "NAME\n    x");
}

#[test]
fn absent_optional_without_fallback_vanishes() {
    let rule = plain_rule();
    assert!(field_doc(&rule, FieldValue::Optional(None)).is_none());
}

#[test]
fn absent_optional_with_fallback_emits_it() {
    let mut rule = plain_rule();
    rule.fallback_text = Some(String::from("NONE"));
    let d = field_doc(&rule, FieldValue::Optional(None)).unwrap();
    assert_eq!(render(&d, 80), "NONE");
}

#[test]
fn repeated_intersperses_with_its_separator() {
    let mut rule = plain_rule();
    rule.show_name = false;
    let d = field_doc(&rule, FieldValue::Repeated(vec![txt("A"), txt("B")])).unwrap();
    assert_eq!(render(&d, 80), "A, B");
    assert_eq!(render(&d, 2), "A,\nB");
}

#[test]
fn repeated_separator_without_line_never_breaks() {
    let mut rule = plain_rule();
    rule.show_name = false;
    rule.separator = (String::from("."), false);
    let d = field_doc(&rule, FieldValue::Repeated(vec![txt("db"), txt("tbl")])).unwrap();
    assert_eq!(render(&d, 80), "db.tbl");
    assert_eq!(render(&d, 1), "db.tbl");
}

#[test]
fn empty_repeated_vanishes_by_default() {
    let rule = plain_rule();
    assert!(field_doc(&rule, FieldValue::Repeated(vec![])).is_none());
}

#[test]
fn empty_repeated_with_show_empty_leaves_a_marker() {
    let mut rule = plain_rule();
    rule.show_name = false;
    rule.suppress_when_empty = false;
    rule.prefix = Some(String::from("LIST["));
    rule.suffix = Some(String::from("]"));
    let d = field_doc(&rule, FieldValue::Repeated(vec![])).unwrap();
    assert_eq!(render(&d, 80), "LIST[]");
}

#[test]
fn prefix_and_suffix_wrap_the_value() {
    let mut rule = plain_rule();
    rule.prefix = Some(String::from("$"));
    let d = field_doc(&rule, FieldValue::Scalar(txt("7"))).unwrap();
    assert_eq!(render(&d, 80), "$7");
}

#[test]
fn nest_wrap_collapses_and_breaks() {
    let mut rule = plain_rule();
    rule.nest_wrap = Some((String::from("CASE"), Some(String::from("END"))));
    let d = field_doc(&rule, FieldValue::Scalar(txt("x"))).unwrap();
    assert_eq!(render(&d, 80), "CASE x END");
    assert_eq!(render(&d, 9), "CASE x\nEND");
    assert_eq!(render(&d, 5), "CASE\n    x\nEND");
}

#[test]
fn nest_wrap_without_close_keyword() {
    let mut rule = plain_rule();
    rule.nest_wrap = Some((String::from("WHEN"), None));
    let d = field_doc(&rule, FieldValue::Scalar(txt("cond"))).unwrap();
    assert_eq!(render(&d, 80), "WHEN cond");
    assert_eq!(render(&d, 6), "WHEN\n    cond");
}

#[test]
fn pipeline_keeps_prefix_inside_the_wrapper() {
    // prefix and keyword wrapper together: the prefix must appear inside
    // the wrapped block, after the keyword's break point
    let mut rule = plain_rule();
    rule.prefix = Some(String::from("("));
    rule.nest_wrap = Some((String::from("WHEN"), None));
    let d = field_doc(&rule, FieldValue::Scalar(txt("x"))).unwrap();
    assert_eq!(render(&d, 80), "WHEN (x");
    assert_eq!(render(&d, 3), "WHEN\n    (x");
}

#[test]
fn custom_converter_output_is_untouched() {
    let mut rule = plain_rule();
    rule.custom_converter = Some(String::from("my_doc"));
    rule.prefix = Some(String::from("IGNORED"));
    let d = field_doc(&rule, FieldValue::Scalar(txt("raw"))).unwrap();
    assert_eq!(render(&d, 80), "raw");
}

#[test]
fn record_renders_bare_name_when_nothing_contributes() {
    let spec = NodeSpec::Record(RecordSpec {
        name: String::from("DiscardStatement"),
        options: vec![],
        fields: vec![FieldSpec {
            name: String::from("target"),
            kind: FieldKind::Optional,
            options: vec![],
        }],
    });
    let desc = build_node_descriptor(spec).unwrap();
    let doc = node_doc(&desc, 0, vec![FieldValue::Optional(None)]).unwrap();
    assert_eq!(render(&doc, 80), "DISCARD");
}

#[test]
fn record_with_flag_and_scalar() {
    let spec = NodeSpec::Record(RecordSpec {
        name: String::from("DropDatabaseStatement"),
        options: vec![],
        fields: vec![
            FieldSpec { name: String::from("if_exists"), kind: FieldKind::Flag, options: vec![] },
            FieldSpec { name: String::from("name"), kind: FieldKind::Scalar, options: vec![] },
            FieldSpec { name: String::from("restrict"), kind: FieldKind::Flag, options: vec![] },
        ],
    });
    let desc = build_node_descriptor(spec).unwrap();
    let values = vec![
        FieldValue::Flag(true),
        FieldValue::Scalar(txt("db")),
        FieldValue::Flag(true),
    ];
    let doc = node_doc(&desc, 0, values).unwrap();
    assert_eq!(render(&doc, 80), "DROP DATABASE IF EXISTS db RESTRICT");
}

#[test]
fn union_unit_variant_renders_its_name() {
    let spec = NodeSpec::Union(UnionSpec {
        variants: vec![
            VariantSpec {
                name: String::from("Plans"),
                options: vec![],
                fields: VariantFieldsSpec::Unit,
            },
            VariantSpec {
                name: String::from("AllOfThem"),
                options: vec![],
                fields: VariantFieldsSpec::Unit,
            },
        ],
    });
    let desc = build_node_descriptor(spec).unwrap();
    let d0 = node_doc(&desc, 0, vec![]).unwrap();
    let d1 = node_doc(&desc, 1, vec![]).unwrap();
    assert_eq!(render(&d0, 80), "PLANS");
    assert_eq!(render(&d1, 80), "ALL OF THEM");
    assert!(node_doc(&desc, 2, vec![]).is_none());
}

#[test]
fn union_single_field_variant_uses_the_variant_name() {
    // a wrapped scalar: the field's default display name is the variant's
    let spec = NodeSpec::Union(UnionSpec {
        variants: vec![VariantSpec {
            name: String::from("Parameter"),
            options: vec![],
            fields: VariantFieldsSpec::Unnamed(vec![UnnamedFieldSpec {
                kind: FieldKind::Scalar,
                options: vec![opt("prefix", "$")],
            }]),
        }],
    });
    let desc = build_node_descriptor(spec).unwrap();
    let doc = node_doc(&desc, 0, vec![FieldValue::Scalar(txt("3"))]).unwrap();
    assert_eq!(render(&doc, 80), "$3");
}

#[test]
fn union_named_fields_render_like_a_record_body() {
    let spec = NodeSpec::Union(UnionSpec {
        variants: vec![VariantSpec {
            name: String::from("Like"),
            options: vec![],
            fields: VariantFieldsSpec::Named(vec![
                FieldSpec {
                    name: String::from("negated"),
                    kind: FieldKind::Flag,
                    options: vec![opt("rename", "NOT")],
                },
                FieldSpec {
                    name: String::from("case_insensitive"),
                    kind: FieldKind::Flag,
                    options: vec![opt("rename", "ILIKE"), opt("else", "LIKE")],
                },
                FieldSpec {
                    name: String::from("pattern"),
                    kind: FieldKind::Scalar,
                    options: vec![],
                },
            ]),
        }],
    });
    let desc = build_node_descriptor(spec).unwrap();
    let mk = |neg: bool, ci: bool| {
        vec![FieldValue::Flag(neg), FieldValue::Flag(ci), FieldValue::Scalar(txt("'a%'"))]
    };
    let d = node_doc(&desc, 0, mk(true, false)).unwrap();
    assert_eq!(render(&d, 80), "NOT LIKE 'a%'");
    let d = node_doc(&desc, 0, mk(false, true)).unwrap();
    assert_eq!(render(&d, 80), "ILIKE 'a%'");
}

#[test]
fn ignored_field_is_structurally_present_but_never_rendered() {
    let spec = NodeSpec::Record(RecordSpec {
        name: String::from("Select"),
        options: vec![opt("no_name", "")],
        fields: vec![
            FieldSpec { name: String::from("projection"), kind: FieldKind::Scalar, options: vec![] },
            FieldSpec {
                name: String::from("having"),
                kind: FieldKind::Optional,
                options: vec![opt("ignore", "")],
            },
            FieldSpec { name: String::from("selection"), kind: FieldKind::Scalar, options: vec![] },
        ],
    });
    let desc = build_node_descriptor(spec).unwrap();
    // one value per declared field, the ignored one included
    let values = vec![
        FieldValue::Scalar(txt("a")),
        FieldValue::Optional(Some(txt("IGNORED"))),
        FieldValue::Scalar(txt("b")),
    ];
    let doc = node_doc(&desc, 0, values).unwrap();
    assert_eq!(render(&doc, 80), "a b");
}

#[test]
fn sibling_separators_follow_contributing_fields_only() {
    // an absent optional in the middle: the two contributors join with a
    // single separator, not two
    let spec = NodeSpec::Record(RecordSpec {
        name: String::from("Pair"),
        options: vec![opt("no_name", "")],
        fields: vec![
            FieldSpec { name: String::from("a"), kind: FieldKind::Scalar, options: vec![] },
            FieldSpec { name: String::from("b"), kind: FieldKind::Optional, options: vec![] },
            FieldSpec { name: String::from("c"), kind: FieldKind::Scalar, options: vec![] },
        ],
    });
    let desc = build_node_descriptor(spec).unwrap();
    let values = vec![
        FieldValue::Scalar(txt("X")),
        FieldValue::Optional(None),
        FieldValue::Scalar(txt("Y")),
    ];
    let doc = node_doc(&desc, 0, values).unwrap();
    let flat = render(&doc, 80);
    assert_eq!(flat, "X Y");
    // broken, the two contributors sit on two lines: one break
    assert_eq!(count_newlines(&render(&doc, 1)), 1);
}

#[test]
fn empty_suppressed_repeated_leaves_no_artifacts() {
    let spec = NodeSpec::Record(RecordSpec {
        name: String::from("Select"),
        options: vec![opt("no_name", "")],
        fields: vec![
            FieldSpec { name: String::from("projection"), kind: FieldKind::Scalar, options: vec![] },
            FieldSpec { name: String::from("group_by"), kind: FieldKind::Repeated, options: vec![] },
            FieldSpec { name: String::from("selection"), kind: FieldKind::Scalar, options: vec![] },
        ],
    });
    let desc = build_node_descriptor(spec).unwrap();
    let values = vec![
        FieldValue::Scalar(txt("p")),
        FieldValue::Repeated(vec![]),
        FieldValue::Scalar(txt("s")),
    ];
    let doc = node_doc(&desc, 0, values).unwrap();
    assert_eq!(render(&doc, 80), "p s");
}

use astdisplay::builder::{FieldValue, node_doc};
use astdisplay::doc::Doc;
use astdisplay::render::{count_newlines, render};
use astdisplay::rule::{
    FieldKind, FieldSpec, NodeSpec, RecordSpec, UnionSpec, VariantFieldsSpec, VariantSpec,
    build_node_descriptor,
};

fn txt(s: &str) -> Doc {
    Doc::text(String::from(s)).unwrap()
}

fn opt(name: &str, value: &str) -> (String, String) {
    (String::from(name), String::from(value))
}

/// A record with a flag and a two-element list, wide and narrow: wide it
/// flattens to one line, narrow it breaks into a name-indented block
/// with the separator keeping its break point.
#[test]
fn record_flag_and_list_at_two_widths() {
    let spec = NodeSpec::Record(RecordSpec {
        name: String::from("Name"),
        options: vec![],
        fields: vec![
            FieldSpec {
                name: String::from("flag"),
                kind: FieldKind::Flag,
                options: vec![opt("ignore", "")],
            },
            FieldSpec {
                name: String::from("list"),
                kind: FieldKind::Repeated,
                options: vec![opt("no_name", "")],
            },
        ],
    });
    let desc = build_node_descriptor(spec).unwrap();
    let values = vec![
        FieldValue::Flag(true),
        FieldValue::Repeated(vec![txt("A"), txt("B")]),
    ];
    let doc = node_doc(&desc, 0, values).unwrap();
    assert_eq!(render(&doc, 80), "NAME A, B");
    assert_eq!(render(&doc, 3), "NAME\n    A,\n    B");
}

/// The same shape with the flag rendered instead of the record header.
#[test]
fn record_visible_flag_and_list() {
    let spec = NodeSpec::Record(RecordSpec {
        name: String::from("Name"),
        options: vec![opt("no_name", "")],
        fields: vec![
            FieldSpec {
                name: String::from("name"),
                kind: FieldKind::Flag,
                options: vec![],
            },
            FieldSpec {
                name: String::from("list"),
                kind: FieldKind::Repeated,
                options: vec![opt("no_name", "")],
            },
        ],
    });
    let desc = build_node_descriptor(spec).unwrap();
    let values = vec![
        FieldValue::Flag(true),
        FieldValue::Repeated(vec![txt("A"), txt("B")]),
    ];
    let doc = node_doc(&desc, 0, values).unwrap();
    assert_eq!(render(&doc, 80), "NAME A, B");
    assert_eq!(render(&doc, 2), "NAME\nA,\nB");
}

/// A unit variant renamed to `*` renders as exactly `*` at any width.
#[test]
fn wildcard_variant_renders_star_at_any_width() {
    let spec = NodeSpec::Union(UnionSpec {
        variants: vec![
            VariantSpec {
                name: String::from("Wildcard"),
                options: vec![opt("rename", "*")],
                fields: VariantFieldsSpec::Unit,
            },
        ],
    });
    let desc = build_node_descriptor(spec).unwrap();
    let doc = node_doc(&desc, 0, vec![]).unwrap();
    for w in [0usize, 1, 2, 10, 200] {
        assert_eq!(render(&doc, w), "*");
    }
}

/// An absent optional with `show_name` contributes nothing: the sibling
/// separator count equals contributing fields minus one.
#[test]
fn absent_optional_leaves_no_separator() {
    let spec = NodeSpec::Record(RecordSpec {
        name: String::from("Select"),
        options: vec![opt("no_name", "")],
        fields: vec![
            FieldSpec {
                name: String::from("projection"),
                kind: FieldKind::Repeated,
                options: vec![opt("rename", "SELECT")],
            },
            FieldSpec {
                name: String::from("selection"),
                kind: FieldKind::Optional,
                options: vec![opt("rename", "WHERE")],
            },
            FieldSpec {
                name: String::from("group_by"),
                kind: FieldKind::Repeated,
                options: vec![],
            },
        ],
    });
    let desc = build_node_descriptor(spec).unwrap();
    let values = vec![
        FieldValue::Repeated(vec![txt("a"), txt("b")]),
        FieldValue::Optional(None),
        FieldValue::Repeated(vec![]),
    ];
    let doc = node_doc(&desc, 0, values).unwrap();
    let flat = render(&doc, 200);
    // one contributing field: no separator breaks at all when broken
    assert_eq!(flat, "SELECT a, b");
    let narrow = render(&doc, 6);
    assert_eq!(narrow, "SELECT\n    a,\n    b");
}

/// The select example in full: present and absent parts, wide and
/// narrow.
#[test]
fn select_statement_end_to_end() {
    let spec = NodeSpec::Record(RecordSpec {
        name: String::from("Select"),
        options: vec![opt("no_name", "")],
        fields: vec![
            FieldSpec {
                name: String::from("projection"),
                kind: FieldKind::Repeated,
                options: vec![opt("rename", "SELECT")],
            },
            FieldSpec {
                name: String::from("selection"),
                kind: FieldKind::Optional,
                options: vec![opt("rename", "WHERE")],
            },
        ],
    });
    let desc = build_node_descriptor(spec).unwrap();
    let values = vec![
        FieldValue::Repeated(vec![txt("x"), txt("y")]),
        FieldValue::Optional(Some(txt("x > 1"))),
    ];
    let doc = node_doc(&desc, 0, values).unwrap();
    assert_eq!(render(&doc, 80), "SELECT x, y WHERE x > 1");
    let narrow = render(&doc, 10);
    assert_eq!(narrow, "SELECT\n    x, y\nWHERE\n    x > 1");
}

/// Sweeping the width from narrow to wide never adds line breaks for
/// these documents.
#[test]
fn width_sweep_is_monotonic_on_the_examples() {
    let mk = || {
        let spec = NodeSpec::Record(RecordSpec {
            name: String::from("Name"),
            options: vec![],
            fields: vec![FieldSpec {
                name: String::from("list"),
                kind: FieldKind::Repeated,
                options: vec![opt("no_name", "")],
            }],
        });
        let desc = build_node_descriptor(spec).unwrap();
        let values = vec![FieldValue::Repeated(vec![
            txt("alpha"),
            txt("beta"),
            txt("gamma"),
        ])];
        node_doc(&desc, 0, values).unwrap()
    };
    let doc = mk();
    let mut prev = usize::MAX;
    for w in 1..=80usize {
        let breaks = count_newlines(&render(&doc, w));
        assert!(breaks <= prev, "breaks grew from {} to {} at width {}", prev, breaks, w);
        prev = breaks;
    }
}

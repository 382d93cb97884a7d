//! Assembles one record or tagged-union variant into a single document.
//!
//! A field value arrives already lowered to documents: a flag as its
//! truth value, an optional as the present value's document, a repeated
//! field as its element documents, a scalar as its own document. For each
//! field the pipeline runs in a fixed order: the kind-specific base
//! document first, then the name introduction, then the fallback text,
//! then prefix and suffix, and the keyword wrapper last, so that every
//! later stage wraps everything the earlier stages built. A field that
//! produced nothing vanishes entirely: it joins no separator and leaves
//! no blank segment behind.
//!
//! A field resolved with a custom converter bypasses the pipeline: the
//! caller hands the converter's output in as a `Scalar` value and it is
//! emitted untouched.

use crate::doc::Doc;
use crate::doc::NEST;
use crate::rule::FieldKind;
use crate::rule::FieldRule;
use crate::rule::NodeDescriptor;
use crate::rule::RecordDescriptor;
use crate::rule::UnionDescriptor;
use crate::rule::VariantDescriptor;
use crate::rule::VariantShape;
use vstd::prelude::*;

verus! {

/// The value of one field, lowered to documents by the host type's own
/// `to_document` machinery.
pub enum FieldValue {
    /// A boolean field.
    Flag(bool),
    /// An optional field: the present value's document, or nothing.
    Optional(Option<Doc>),
    /// A repeated field: one document per element.
    Repeated(Vec<Doc>),
    /// A single value's own document; also carries the output of a
    /// custom converter.
    Scalar(Doc),
}

/// The separator document: its text, followed by a break point unless
/// the rule suppressed it.
pub open spec fn sep_doc(sep: (String, bool)) -> Doc {
    if sep.1 {
        Doc::Append(Box::new(Doc::Text(sep.0)), Box::new(Doc::Line))
    } else {
        Doc::Text(sep.0)
    }
}

/// Stage 2: when the field shows its name and a document was produced,
/// the name and a break point introduce it, nested one unit deeper.
pub open spec fn apply_name(rule: FieldRule, base: Option<Doc>) -> Option<Doc> {
    match base {
        Some(d) => if rule.show_name {
            match rule.display_name {
                Some(n) => Some(
                    Doc::Nest(
                        NEST,
                        Box::new(
                            Doc::Append(
                                Box::new(
                                    Doc::Append(Box::new(Doc::Text(n)), Box::new(Doc::Line)),
                                ),
                                Box::new(d),
                            ),
                        ),
                    ),
                ),
                None => Some(d),
            }
        } else {
            Some(d)
        },
        None => None,
    }
}

/// The fallback text stands in when no document was produced.
pub open spec fn apply_fallback(rule: FieldRule, base: Option<Doc>) -> Option<Doc> {
    match base {
        Some(d) => Some(d),
        None => match rule.fallback_text {
            Some(t) => Some(Doc::Text(t)),
            None => None,
        },
    }
}

/// Stage 3a: prefix text prepended to the document, if one exists.
pub open spec fn apply_prefix(p: Option<String>, base: Option<Doc>) -> Option<Doc> {
    match base {
        Some(d) => match p {
            Some(t) => Some(Doc::Append(Box::new(Doc::Text(t)), Box::new(d))),
            None => Some(d),
        },
        None => None,
    }
}

/// Stage 3b: suffix text appended to the document, if one exists.
pub open spec fn apply_suffix(s: Option<String>, base: Option<Doc>) -> Option<Doc> {
    match base {
        Some(d) => match s {
            Some(t) => Some(Doc::Append(Box::new(d), Box::new(Doc::Text(t)))),
            None => Some(d),
        },
        None => None,
    }
}

/// Stage 4, applied last: the opening keyword introduces the whole
/// document built so far as a nested, flattening-candidate block, and
/// the closing keyword, if any, follows on a break point of its own.
pub open spec fn apply_nest_wrap(
    nw: Option<(String, Option<String>)>,
    base: Option<Doc>,
) -> Option<Doc> {
    match base {
        Some(d) => match nw {
            Some(pair) => {
                let opened = Doc::Group(
                    Box::new(
                        Doc::Nest(
                            NEST,
                            Box::new(
                                Doc::Append(
                                    Box::new(
                                        Doc::Append(
                                            Box::new(Doc::Text(pair.0)),
                                            Box::new(Doc::Line),
                                        ),
                                    ),
                                    Box::new(d),
                                ),
                            ),
                        ),
                    ),
                );
                match pair.1 {
                    Some(c) => Some(
                        Doc::Group(
                            Box::new(
                                Doc::Append(
                                    Box::new(
                                        Doc::Append(Box::new(opened), Box::new(Doc::Line)),
                                    ),
                                    Box::new(Doc::Text(c)),
                                ),
                            ),
                        ),
                    ),
                    None => Some(opened),
                }
            },
            None => Some(d),
        },
        None => None,
    }
}

/// Stage 1 with name and fallback: the kind-specific base document.
///
/// A true flag emits its display name; a false one falls back. A present
/// optional emits its value's document, name-introduced; an absent one
/// falls back. A non-empty repeated field emits its elements
/// interspersed with the separator inside one group, name-introduced; an
/// empty one vanishes, unless the rule asks for an explicit empty
/// marker. A scalar emits its own document untouched.
pub open spec fn spec_core_doc(rule: FieldRule, value: FieldValue) -> Option<Doc> {
    match value {
        FieldValue::Flag(b) => {
            let base = if b {
                match rule.display_name {
                    Some(n) => Some(Doc::Text(n)),
                    None => None,
                }
            } else {
                None
            };
            apply_fallback(rule, base)
        },
        FieldValue::Optional(o) => apply_fallback(rule, apply_name(rule, o)),
        FieldValue::Repeated(items) => {
            let base = if items@.len() == 0 {
                None
            } else {
                Some(
                    Doc::Group(
                        Box::new(
                            Doc::Intersperse(items, Box::new(sep_doc(rule.separator))),
                        ),
                    ),
                )
            };
            let named = apply_name(rule, base);
            if named is None && !rule.suppress_when_empty {
                Some(Doc::Nil)
            } else {
                named
            }
        },
        FieldValue::Scalar(d) => Some(d),
    }
}

/// The full per-field pipeline: base, name, fallback, prefix, suffix,
/// keyword wrapper — or the custom converter's output untouched.
pub open spec fn spec_field_doc(rule: FieldRule, value: FieldValue) -> Option<Doc> {
    if rule.custom_converter is Some {
        match value {
            FieldValue::Scalar(d) => Some(d),
            _ => None,
        }
    } else {
        apply_nest_wrap(
            rule.nest_wrap,
            apply_suffix(rule.suffix, apply_prefix(rule.prefix, spec_core_doc(rule, value))),
        )
    }
}

/// The documents the fields of a node contribute, in order: ignored
/// fields and fields that produced nothing are left out entirely.
pub open spec fn docs_list(fields: Seq<(FieldKind, FieldRule)>, vals: Seq<FieldValue>) -> Seq<
    Doc,
>
    decreases fields.len(),
{
    if fields.len() == 0 || vals.len() == 0 {
        Seq::empty()
    } else {
        (if fields[0].1.ignored {
            Seq::empty()
        } else {
            match spec_field_doc(fields[0].1, vals[0]) {
                Some(d) => seq![d],
                None => Seq::empty(),
            }
        }) + docs_list(
            fields.subrange(1, fields.len() as int),
            vals.subrange(1, vals.len() as int),
        )
    }
}

/// Whether `d` is the given documents interspersed with `sep`, inside
/// one group.
pub open spec fn is_intersperse_group(d: Doc, docs: Seq<Doc>, sep: Doc) -> bool {
    &&& d matches Doc::Group(b)
    &&& *b matches Doc::Intersperse(items, s)
    &&& items@ == docs
    &&& *s == sep
}

/// Whether `d` is the record body, name-introduced when the record shows
/// its name.
pub open spec fn record_named_is(desc: RecordDescriptor, docs: Seq<Doc>, d: Doc) -> bool {
    if desc.show_name {
        &&& d matches Doc::Nest(k, body)
        &&& k == NEST
        &&& *body matches Doc::Append(hd, b2)
        &&& *hd == Doc::Append(Box::new(Doc::Text(desc.display_name)), Box::new(Doc::Line))
        &&& is_intersperse_group(*b2, docs, sep_doc(desc.separator))
    } else {
        is_intersperse_group(d, docs, sep_doc(desc.separator))
    }
}

/// Whether `d` is the name-introduced body with the record suffix
/// appended.
pub open spec fn record_suffixed_is(desc: RecordDescriptor, docs: Seq<Doc>, d: Doc) -> bool {
    match desc.suffix {
        Some(sfx) => {
            &&& d matches Doc::Append(n, t)
            &&& *t == Doc::Text(sfx)
            &&& record_named_is(desc, docs, *n)
        },
        None => record_named_is(desc, docs, d),
    }
}

/// What `record_doc` returns: when no field contributes, the bare type
/// name; otherwise the contributing documents interspersed with the
/// record separator, name-introduced and suffixed, all inside one group.
pub open spec fn record_doc_is(desc: RecordDescriptor, vals: Seq<FieldValue>, r: Doc) -> bool {
    let docs = docs_list(desc.fields@, vals);
    if docs.len() == 0 {
        r == Doc::Group(Box::new(Doc::Text(desc.name)))
    } else {
        &&& r matches Doc::Group(inner)
        &&& record_suffixed_is(desc, docs, *inner)
    }
}

/// The undecorated document of the selected variant: its display name
/// for a unit shape, the single field's pipeline for a single shape, the
/// record-style body for named fields.
pub open spec fn variant_core_is(
    vd: VariantDescriptor,
    vals: Seq<FieldValue>,
    r: Option<Doc>,
) -> bool {
    match vd.shape {
        VariantShape::Unit => r == Some(Doc::Text(vd.display_name)),
        VariantShape::Single(_k, rule) => if vals.len() >= 1 {
            r == spec_field_doc(rule, vals[0])
        } else {
            r is None
        },
        VariantShape::Named(fields) => {
            let docs = docs_list(fields@, vals);
            if docs.len() == 0 {
                r is None
            } else {
                &&& r matches Some(d)
                &&& is_intersperse_group(d, docs, sep_doc(vd.separator))
            }
        },
    }
}

/// A missing document becomes the empty document.
pub open spec fn unwrap_nil(o: Option<Doc>) -> Doc {
    match o {
        Some(d) => d,
        None => Doc::Nil,
    }
}

/// What `union_doc` returns for the selected variant: the variant core,
/// decorated with the variant's prefix, suffix and keyword wrapper, or
/// the empty document when nothing was produced.
pub open spec fn variant_doc_is(vd: VariantDescriptor, vals: Seq<FieldValue>, r: Doc) -> bool {
    exists|core: Option<Doc>|
        #[trigger] variant_core_is(vd, vals, core) && r == unwrap_nil(
            apply_nest_wrap(vd.nest_wrap, apply_suffix(vd.suffix, apply_prefix(vd.prefix, core))),
        )
}

fn sep_doc_exec(sep: &(String, bool)) -> (r: Doc)
    ensures
        r == sep_doc(*sep),
{
    let txt = Doc::Text(sep.0.clone());
    if sep.1 {
        Doc::Append(Box::new(txt), Box::new(Doc::Line))
    } else {
        txt
    }
}

/// Builds one field's document from its rule and its value, running the
/// decoration pipeline in its fixed order. `None` means the field
/// contributes nothing and joins no separator.
pub fn field_doc(rule: &FieldRule, value: FieldValue) -> (r: Option<Doc>)
    ensures
        r == spec_field_doc(*rule, value),
{
    if rule.custom_converter.is_some() {
        return match value {
            FieldValue::Scalar(d) => Some(d),
            _ => None,
        };
    }
    let core = core_doc(rule, value);
    let prefixed = match core {
        Some(d) => match &rule.prefix {
            Some(t) => Some(Doc::Append(Box::new(Doc::Text(t.clone())), Box::new(d))),
            None => Some(d),
        },
        None => None,
    };
    let suffixed = match prefixed {
        Some(d) => match &rule.suffix {
            Some(t) => Some(Doc::Append(Box::new(d), Box::new(Doc::Text(t.clone())))),
            None => Some(d),
        },
        None => None,
    };
    match suffixed {
        Some(d) => match &rule.nest_wrap {
            Some(pair) => {
                let opened = Doc::Group(
                    Box::new(
                        Doc::Nest(
                            NEST,
                            Box::new(
                                Doc::Append(
                                    Box::new(
                                        Doc::Append(
                                            Box::new(Doc::Text(pair.0.clone())),
                                            Box::new(Doc::Line),
                                        ),
                                    ),
                                    Box::new(d),
                                ),
                            ),
                        ),
                    ),
                );
                match &pair.1 {
                    Some(c) => Some(
                        Doc::Group(
                            Box::new(
                                Doc::Append(
                                    Box::new(
                                        Doc::Append(Box::new(opened), Box::new(Doc::Line)),
                                    ),
                                    Box::new(Doc::Text(c.clone())),
                                ),
                            ),
                        ),
                    ),
                    None => Some(opened),
                }
            },
            None => Some(d),
        },
        None => None,
    }
}

fn core_doc(rule: &FieldRule, value: FieldValue) -> (r: Option<Doc>)
    ensures
        r == spec_core_doc(*rule, value),
{
    match value {
        FieldValue::Flag(b) => {
            let base = if b {
                match &rule.display_name {
                    Some(n) => Some(Doc::Text(n.clone())),
                    None => None,
                }
            } else {
                None
            };
            fallback_doc(rule, base)
        },
        FieldValue::Optional(o) => {
            let named = name_doc(rule, o);
            fallback_doc(rule, named)
        },
        FieldValue::Repeated(items) => {
            let base = if items.len() == 0 {
                None
            } else {
                let sep = sep_doc_exec(&rule.separator);
                Some(Doc::Group(Box::new(Doc::Intersperse(items, Box::new(sep)))))
            };
            let named = name_doc(rule, base);
            if named.is_none() && !rule.suppress_when_empty {
                Some(Doc::Nil)
            } else {
                named
            }
        },
        FieldValue::Scalar(d) => Some(d),
    }
}

fn name_doc(rule: &FieldRule, base: Option<Doc>) -> (r: Option<Doc>)
    ensures
        r == apply_name(*rule, base),
{
    match base {
        Some(d) => if rule.show_name {
            match &rule.display_name {
                Some(n) => Some(
                    Doc::Nest(
                        NEST,
                        Box::new(
                            Doc::Append(
                                Box::new(
                                    Doc::Append(
                                        Box::new(Doc::Text(n.clone())),
                                        Box::new(Doc::Line),
                                    ),
                                ),
                                Box::new(d),
                            ),
                        ),
                    ),
                ),
                None => Some(d),
            }
        } else {
            Some(d)
        },
        None => None,
    }
}

fn fallback_doc(rule: &FieldRule, base: Option<Doc>) -> (r: Option<Doc>)
    ensures
        r == apply_fallback(*rule, base),
{
    match base {
        Some(d) => Some(d),
        None => match &rule.fallback_text {
            Some(t) => Some(Doc::Text(t.clone())),
            None => None,
        },
    }
}

fn collect_docs(fields: &Vec<(FieldKind, FieldRule)>, values: Vec<FieldValue>) -> (r: Vec<Doc>)
    ensures
        r@ == docs_list(fields@, values@),
{
    let mut vals = values;
    let mut docs: Vec<Doc> = Vec::new();
    let mut idx: usize = 0;
    proof {
        assert(docs@ + docs_list(fields@.subrange(0, fields@.len() as int), vals@) =~= docs_list(
            fields@,
            values@,
        )) by {
            assert(fields@.subrange(0, fields@.len() as int) =~= fields@);
        }
    }
    while idx < fields.len() && vals.len() > 0
        invariant
            idx <= fields@.len(),
            docs@ + docs_list(fields@.subrange(idx as int, fields@.len() as int), vals@)
                == docs_list(fields@, values@),
        decreases fields@.len() - idx,
    {
        let ghost fsuf = fields@.subrange(idx as int, fields@.len() as int);
        let ghost vpre = vals@;
        let v = vals.remove(0);
        proof {
            assert(vals@ =~= vpre.subrange(1, vpre.len() as int));
            assert(fsuf[0] == fields@[idx as int]);
            assert(fsuf.subrange(1, fsuf.len() as int) =~= fields@.subrange(
                idx as int + 1,
                fields@.len() as int,
            ));
        }
        if fields[idx].1.ignored {
        } else {
            match field_doc(&fields[idx].1, v) {
                Some(d) => {
                    let ghost docs_pre = docs@;
                    docs.push(d);
                    proof {
                        assert(docs@ =~= docs_pre + seq![d]);
                        assert(docs@ + docs_list(
                            fields@.subrange(idx as int + 1, fields@.len() as int),
                            vals@,
                        ) =~= docs_pre + (seq![d] + docs_list(
                            fields@.subrange(idx as int + 1, fields@.len() as int),
                            vals@,
                        )));
                    }
                },
                None => {},
            }
        }
        idx = idx + 1;
    }
    proof {
        if idx < fields@.len() {
            assert(vals@.len() == 0);
            assert(docs_list(fields@.subrange(idx as int, fields@.len() as int), vals@)
                =~= Seq::<Doc>::empty());
        } else {
            assert(fields@.subrange(idx as int, fields@.len() as int) =~= Seq::<(
                FieldKind,
                FieldRule,
            )>::empty());
        }
        assert(docs@ + Seq::<Doc>::empty() =~= docs@);
    }
    docs
}

/// Builds the document of one record node from its descriptor and its
/// field values, one value per declared field, ignored fields included.
///
/// Every contributing field joins the record body, interspersed with the
/// record separator inside one group; fields that contribute nothing are
/// skipped entirely and leave no separator behind. When nothing
/// contributes, the record renders as its bare type name.
pub fn record_doc(desc: &RecordDescriptor, values: Vec<FieldValue>) -> (r: Doc)
    ensures
        record_doc_is(*desc, values@, r),
{
    let docs = collect_docs(&desc.fields, values);
    if docs.len() == 0 {
        Doc::Group(Box::new(Doc::Text(desc.name.clone())))
    } else {
        let sep = sep_doc_exec(&desc.separator);
        let body = Doc::Group(Box::new(Doc::Intersperse(docs, Box::new(sep))));
        let named = if desc.show_name {
            Doc::Nest(
                NEST,
                Box::new(
                    Doc::Append(
                        Box::new(
                            Doc::Append(
                                Box::new(Doc::Text(desc.display_name.clone())),
                                Box::new(Doc::Line),
                            ),
                        ),
                        Box::new(body),
                    ),
                ),
            )
        } else {
            body
        };
        let suffixed = match &desc.suffix {
            Some(sfx) => Doc::Append(Box::new(named), Box::new(Doc::Text(sfx.clone()))),
            None => named,
        };
        Doc::Group(Box::new(suffixed))
    }
}

/// Builds the document of the selected variant of a tagged union.
///
/// Returns `None` exactly when `tag` names no variant. The variant's
/// fields are assembled like a record body; a unit variant renders as
/// its display name, and a variant whose fields all vanish renders as
/// the empty document.
pub fn union_doc(desc: &UnionDescriptor, tag: usize, values: Vec<FieldValue>) -> (r: Option<Doc>)
    ensures
        r is Some <==> (tag as int) < desc.variants@.len(),
        (tag as int) < desc.variants@.len() ==> variant_doc_is(
            desc.variants@[tag as int],
            values@,
            r->0,
        ),
{
    if tag >= desc.variants.len() {
        return None;
    }
    let vd = &desc.variants[tag];
    let core: Option<Doc> = match &vd.shape {
        VariantShape::Unit => Some(Doc::Text(vd.display_name.clone())),
        VariantShape::Single(_k, rule) => {
            let mut vals = values;
            if vals.len() == 0 {
                None
            } else {
                let v = vals.remove(0);
                proof {
                    assert(v == values@[0]);
                }
                field_doc(rule, v)
            }
        },
        VariantShape::Named(fields) => {
            let docs = collect_docs(fields, values);
            if docs.len() == 0 {
                None
            } else {
                let sep = sep_doc_exec(&vd.separator);
                Some(Doc::Group(Box::new(Doc::Intersperse(docs, Box::new(sep)))))
            }
        },
    };
    let ghost core_g = core;
    proof {
        assert(variant_core_is(desc.variants@[tag as int], values@, core_g));
    }
    let prefixed = match core {
        Some(d) => match &vd.prefix {
            Some(t) => Some(Doc::Append(Box::new(Doc::Text(t.clone())), Box::new(d))),
            None => Some(d),
        },
        None => None,
    };
    let suffixed = match prefixed {
        Some(d) => match &vd.suffix {
            Some(t) => Some(Doc::Append(Box::new(d), Box::new(Doc::Text(t.clone())))),
            None => Some(d),
        },
        None => None,
    };
    let wrapped = match suffixed {
        Some(d) => match &vd.nest_wrap {
            Some(pair) => {
                let opened = Doc::Group(
                    Box::new(
                        Doc::Nest(
                            NEST,
                            Box::new(
                                Doc::Append(
                                    Box::new(
                                        Doc::Append(
                                            Box::new(Doc::Text(pair.0.clone())),
                                            Box::new(Doc::Line),
                                        ),
                                    ),
                                    Box::new(d),
                                ),
                            ),
                        ),
                    ),
                );
                match &pair.1 {
                    Some(c) => Some(
                        Doc::Group(
                            Box::new(
                                Doc::Append(
                                    Box::new(
                                        Doc::Append(Box::new(opened), Box::new(Doc::Line)),
                                    ),
                                    Box::new(Doc::Text(c.clone())),
                                ),
                            ),
                        ),
                    ),
                    None => Some(opened),
                }
            },
            None => Some(d),
        },
        None => None,
    };
    let r = match wrapped {
        Some(d) => d,
        None => Doc::Nil,
    };
    proof {
        let vd_g = desc.variants@[tag as int];
        assert(r == unwrap_nil(
            apply_nest_wrap(
                vd_g.nest_wrap,
                apply_suffix(vd_g.suffix, apply_prefix(vd_g.prefix, core_g)),
            ),
        ));
    }
    Some(r)
}

/// Builds the document of one node: a record ignores the tag, a tagged
/// union selects the variant it names.
pub fn node_doc(desc: &NodeDescriptor, tag: usize, values: Vec<FieldValue>) -> (r: Option<Doc>)
    ensures
        match desc {
            NodeDescriptor::Record(rd) => r matches Some(d) && record_doc_is(*rd, values@, d),
            NodeDescriptor::Union(ud) => {
                &&& (r is Some <==> (tag as int) < ud.variants@.len())
                &&& (tag as int) < ud.variants@.len() ==> variant_doc_is(
                    ud.variants@[tag as int],
                    values@,
                    r->0,
                )
            },
        },
{
    match desc {
        NodeDescriptor::Record(rd) => Some(record_doc(rd, values)),
        NodeDescriptor::Union(ud) => union_doc(ud, tag, values),
    }
}

} // verus!

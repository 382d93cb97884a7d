//! Per-field formatting rules and the resolver that builds them.
//!
//! A field or node carries a set of named options, each optionally with a
//! string value (an absent value is the empty string). `Attrs` holds such
//! a set; the resolver consumes every option it recognises in the given
//! position and `Attrs::finish` then rejects whatever is left: a
//! recognised option that cannot apply where it was given is a
//! `MalformedOption`, anything else an `UnknownOption`. Resolution runs
//! once per type, before any value is rendered, and never silently drops
//! an option.

use crate::doc::BuildError;
use crate::doc::BuildErrorV;
use crate::names::str_eq;
use vstd::prelude::*;
use vstd::string::StringExecFns;

verus! {

/// A set of named options at view level.
pub type OptsV = Seq<(Seq<char>, Seq<char>)>;

/// The value of the first option named `key`.
pub open spec fn lookup(es: OptsV, key: Seq<char>) -> Option<Seq<char>>
    decreases es.len(),
{
    if es.len() == 0 {
        None
    } else if es[0].0 == key {
        Some(es[0].1)
    } else {
        lookup(es.subrange(1, es.len() as int), key)
    }
}

/// The set with every option named `key` removed.
pub open spec fn without_key(es: OptsV, key: Seq<char>) -> OptsV
    decreases es.len(),
{
    if es.len() == 0 {
        Seq::empty()
    } else if es[0].0 == key {
        without_key(es.subrange(1, es.len() as int), key)
    } else {
        seq![es[0]] + without_key(es.subrange(1, es.len() as int), key)
    }
}

/// The option names the resolver knows anywhere.
pub open spec fn recognized(k: Seq<char>) -> bool {
    ||| k == "rename"@
    ||| k == "no_name"@
    ||| k == "prefix"@
    ||| k == "suffix"@
    ||| k == "nest"@
    ||| k == "nest_suffix"@
    ||| k == "else"@
    ||| k == "show_empty"@
    ||| k == "separator"@
    ||| k == "separator_noline"@
    ||| k == "ignore"@
    ||| k == "doc_fn"@
    ||| k == "unnamed"@
}

/// What closing a set of options yields: the first option still in the
/// set decides the error.
pub open spec fn finish_result(es: OptsV) -> Result<(), BuildErrorV> {
    if es.len() == 0 {
        Ok(())
    } else if recognized(es[0].0) {
        Err(BuildErrorV::MalformedOption(es[0].0))
    } else {
        Err(BuildErrorV::UnknownOption(es[0].0))
    }
}

/// An unordered set of named configuration options, consumed one option
/// at a time while a rule is resolved.
#[derive(Debug)]
pub struct Attrs {
    entries: Vec<(String, String)>,
}

impl View for Attrs {
    type V = OptsV;

    closed spec fn view(&self) -> OptsV {
        self.entries.deep_view()
    }
}

impl Attrs {
    /// Wraps a list of `(name, value)` options; an option without a value
    /// carries the empty string.
    pub fn new(entries: Vec<(String, String)>) -> (r: Attrs)
        ensures
            r@ == entries.deep_view(),
    {
        Attrs { entries }
    }

    /// Takes every option named `key` out of the set and returns the
    /// value of the first one, if any was there.
    pub fn remove(&mut self, key: &str) -> (r: Option<String>)
        ensures
            final(self)@ == without_key(old(self)@, key@),
            match r {
                Some(v) => lookup(old(self)@, key@) == Some(v@),
                None => lookup(old(self)@, key@) is None,
            },
    {
        let ghost all = self@;
        let n = self.entries.len();
        let mut kept: Vec<(String, String)> = Vec::new();
        let mut found: Option<String> = None;
        let mut idx: usize = 0;
        proof {
            assert(all.subrange(0, n as int) =~= all);
            assert(kept.deep_view() =~= Seq::<(Seq<char>, Seq<char>)>::empty());
            assert(kept.deep_view() + without_key(all.subrange(0, n as int), key@)
                =~= without_key(all, key@));
        }
        while idx < n
            invariant
                self@ == all,
                n == self.entries@.len(),
                idx <= n,
                kept.deep_view() + without_key(all.subrange(idx as int, n as int), key@)
                    =~= without_key(all, key@),
                match found {
                    Some(v) => lookup(all, key@) == Some(v@),
                    None => lookup(all, key@) == lookup(
                        all.subrange(idx as int, n as int),
                        key@,
                    ),
                },
            decreases n - idx,
        {
            let e0: String = self.entries[idx].0.clone();
            let e1: String = self.entries[idx].1.clone();
            proof {
                assert(all[idx as int] == (self.entries@[idx as int].0@,
                self.entries@[idx as int].1@));
                let sfx = all.subrange(idx as int, n as int);
                assert(sfx[0] == all[idx as int]);
                assert(sfx.subrange(1, sfx.len() as int) =~= all.subrange(
                    idx as int + 1,
                    n as int,
                ));
            }
            if str_eq(e0.as_str(), key) {
                if found.is_none() {
                    found = Some(e1);
                }
            } else {
                let ghost kept_pre = kept.deep_view();
                kept.push((e0, e1));
                proof {
                    assert(kept.deep_view() =~= kept_pre.push((e0@, e1@)));
                    assert(kept_pre.push((e0@, e1@)) =~= kept_pre + seq![all[idx as int]]);
                    assert(kept.deep_view() + without_key(
                        all.subrange(idx as int + 1, n as int),
                        key@,
                    ) =~= kept_pre + (seq![all[idx as int]] + without_key(
                        all.subrange(idx as int + 1, n as int),
                        key@,
                    )));
                }
            }
            idx = idx + 1;
        }
        proof {
            assert(all.subrange(n as int, n as int) =~= Seq::<(Seq<char>, Seq<char>)>::empty());
            assert(without_key(Seq::<(Seq<char>, Seq<char>)>::empty(), key@)
                =~= Seq::<(Seq<char>, Seq<char>)>::empty());
            assert(kept.deep_view() =~= without_key(all, key@));
        }
        self.entries = kept;
        found
    }

    /// The display name of a field: the value of `rename` if that option
    /// is in the set, the given default otherwise.
    pub fn rename(&mut self, name: &str) -> (r: String)
        ensures
            final(self)@ == without_key(old(self)@, "rename"@),
            match lookup(old(self)@, "rename"@) {
                Some(v) => r@ == v,
                None => r@ == name@,
            },
    {
        match self.remove("rename") {
            Some(v) => v,
            None => name.to_owned(),
        }
    }

    /// Closes the set: every option must have been consumed by now, and
    /// the first one left decides the error.
    pub fn finish(self) -> (r: Result<(), BuildError>)
        ensures
            match r {
                Ok(_u) => finish_result(self@) is Ok,
                Err(e) => finish_result(self@) == Err::<(), BuildErrorV>(e@),
            },
    {
        if self.entries.len() == 0 {
            return Ok(());
        }
        let k: String = self.entries[0].0.clone();
        proof {
            assert(self@[0] == (self.entries@[0].0@, self.entries@[0].1@));
        }
        if is_recognized(k.as_str()) {
            Err(BuildError::MalformedOption(k))
        } else {
            Err(BuildError::UnknownOption(k))
        }
    }
}

fn is_recognized(k: &str) -> (b: bool)
    ensures
        b == recognized(k@),
{
    str_eq(k, "rename") || str_eq(k, "no_name") || str_eq(k, "prefix") || str_eq(k, "suffix")
        || str_eq(k, "nest") || str_eq(k, "nest_suffix") || str_eq(k, "else") || str_eq(
        k,
        "show_empty",
    ) || str_eq(k, "separator") || str_eq(k, "separator_noline") || str_eq(k, "ignore") || str_eq(
        k,
        "doc_fn",
    ) || str_eq(k, "unnamed")
}

/// The shape a field's value takes, decided from its declared type.
#[derive(Debug, Clone, Copy, PartialEq, Eq, Structural)]
pub enum FieldKind {
    /// A boolean: its display name is emitted when it is true.
    Flag,
    /// An optional value: nothing is emitted when it is absent.
    Optional,
    /// A list of values, interspersed with the field's separator.
    Repeated,
    /// A single value whose own document is emitted.
    Scalar,
}

/// Resolved, immutable per-field formatting configuration.
pub struct FieldRule {
    /// The name emitted for the field; resolved from `rename` or derived
    /// from the field identifier.
    pub display_name: Option<String>,
    /// Whether the name introduces the field's document.
    pub show_name: bool,
    /// Text prepended to the field's document.
    pub prefix: Option<String>,
    /// Text appended to the field's document.
    pub suffix: Option<String>,
    /// Opening keyword, and optional closing keyword, wrapped around the
    /// whole document last.
    pub nest_wrap: Option<(String, Option<String>)>,
    /// Separator text for repeated fields, and whether a break point
    /// follows each separator.
    pub separator: (String, bool),
    /// Emitted in place of a false flag or an absent optional.
    pub fallback_text: Option<String>,
    /// Whether an empty repeated field vanishes entirely.
    pub suppress_when_empty: bool,
    /// The field stays in the node's shape but is never rendered.
    pub ignored: bool,
    /// Name of a converter that produces the field's document wholesale,
    /// bypassing the stages above.
    pub custom_converter: Option<String>,
}

/// Ghost mirror of `FieldRule`, with strings abstracted to their views.
pub struct RuleV {
    pub display_name: Option<Seq<char>>,
    pub show_name: bool,
    pub prefix: Option<Seq<char>>,
    pub suffix: Option<Seq<char>>,
    pub nest_wrap: Option<(Seq<char>, Option<Seq<char>>)>,
    pub separator: (Seq<char>, bool),
    pub fallback_text: Option<Seq<char>>,
    pub suppress_when_empty: bool,
    pub ignored: bool,
    pub custom_converter: Option<Seq<char>>,
}

impl View for FieldRule {
    type V = RuleV;

    open spec fn view(&self) -> RuleV {
        RuleV {
            display_name: self.display_name.deep_view(),
            show_name: self.show_name,
            prefix: self.prefix.deep_view(),
            suffix: self.suffix.deep_view(),
            nest_wrap: match self.nest_wrap {
                Some(nw) => Some((nw.0@, nw.1.deep_view())),
                None => None,
            },
            separator: (self.separator.0@, self.separator.1),
            fallback_text: self.fallback_text.deep_view(),
            suppress_when_empty: self.suppress_when_empty,
            ignored: self.ignored,
            custom_converter: self.custom_converter.deep_view(),
        }
    }
}

/// The rule that resolving `opts` for a field of kind `kind` yields.
/// `named` says whether the field sits in a named field list, where
/// `ignore` applies; `default_name` is the name derived from the field's
/// identifier. Mirrors `resolve_field_rule` step for step.
pub open spec fn resolve_field_rule_v(
    kind: FieldKind,
    named: bool,
    default_name: Seq<char>,
    opts: OptsV,
) -> Result<RuleV, BuildErrorV> {
    let docfn = lookup(opts, "doc_fn"@);
    let o1 = without_key(opts, "doc_fn"@);
    if docfn is Some {
        let ignored = named && lookup(o1, "ignore"@) is Some;
        let o2 = if named {
            without_key(o1, "ignore"@)
        } else {
            o1
        };
        if finish_result(o2) is Err {
            Err(finish_result(o2)->Err_0)
        } else {
            Ok(
                RuleV {
                    display_name: None,
                    show_name: true,
                    prefix: None,
                    suffix: None,
                    nest_wrap: None,
                    separator: (","@, true),
                    fallback_text: None,
                    suppress_when_empty: true,
                    ignored,
                    custom_converter: docfn,
                },
            )
        }
    } else {
        let display = match lookup(o1, "rename"@) {
            Some(v) => v,
            None => default_name,
        };
        let o2 = without_key(o1, "rename"@);
        let named_kind = kind is Optional || kind is Repeated;
        let show_name = if named_kind {
            lookup(o2, "no_name"@) is None
        } else {
            true
        };
        let o3 = if named_kind {
            without_key(o2, "no_name"@)
        } else {
            o2
        };
        let with_fallback = kind is Flag || kind is Optional;
        let fallback = if with_fallback {
            lookup(o3, "else"@)
        } else {
            None
        };
        let o4 = if with_fallback {
            without_key(o3, "else"@)
        } else {
            o3
        };
        let sep_txt = if kind is Repeated {
            match lookup(o4, "separator"@) {
                Some(v) => v,
                None => ","@,
            }
        } else {
            ","@
        };
        let o5 = if kind is Repeated {
            without_key(o4, "separator"@)
        } else {
            o4
        };
        let sep_line = if kind is Repeated {
            lookup(o5, "separator_noline"@) is None
        } else {
            true
        };
        let o6 = if kind is Repeated {
            without_key(o5, "separator_noline"@)
        } else {
            o5
        };
        let suppress = if kind is Repeated {
            lookup(o6, "show_empty"@) is None
        } else {
            true
        };
        let o7 = if kind is Repeated {
            without_key(o6, "show_empty"@)
        } else {
            o6
        };
        let prefix = lookup(o7, "prefix"@);
        let o8 = without_key(o7, "prefix"@);
        let suffix = lookup(o8, "suffix"@);
        let o9 = without_key(o8, "suffix"@);
        let nest_opt = lookup(o9, "nest"@);
        let o10 = without_key(o9, "nest"@);
        let nw = match nest_opt {
            Some(op) => Some((op, lookup(o10, "nest_suffix"@))),
            None => None,
        };
        let o11 = if nest_opt is Some {
            without_key(o10, "nest_suffix"@)
        } else {
            o10
        };
        let ignored = named && lookup(o11, "ignore"@) is Some;
        let o12 = if named {
            without_key(o11, "ignore"@)
        } else {
            o11
        };
        if finish_result(o12) is Err {
            Err(finish_result(o12)->Err_0)
        } else {
            Ok(
                RuleV {
                    display_name: Some(display),
                    show_name,
                    prefix,
                    suffix,
                    nest_wrap: nw,
                    separator: (sep_txt, sep_line),
                    fallback_text: fallback,
                    suppress_when_empty: suppress,
                    ignored,
                    custom_converter: None,
                },
            )
        }
    }
}

/// Resolves the options of one field into its rule.
///
/// Every option that applies to a field of this kind in this position is
/// consumed; anything left afterwards is a build-time error naming the
/// offending option. With `doc_fn` present only `ignore` may accompany
/// it: the converter bypasses all other stages.
pub fn resolve_field_rule(
    kind: FieldKind,
    named: bool,
    default_name: &str,
    options: Vec<(String, String)>,
) -> (r: Result<FieldRule, BuildError>)
    ensures
        match r {
            Ok(rule) => resolve_field_rule_v(kind, named, default_name@, options.deep_view())
                == Ok::<RuleV, BuildErrorV>(rule@),
            Err(e) => resolve_field_rule_v(kind, named, default_name@, options.deep_view())
                == Err::<RuleV, BuildErrorV>(e@),
        },
{
    let mut attrs = Attrs::new(options);
    let docfn = attrs.remove("doc_fn");
    if docfn.is_some() {
        let ignored = if named {
            attrs.remove("ignore").is_some()
        } else {
            false
        };
        match attrs.finish() {
            Err(e) => {
                return Err(e);
            },
            Ok(_u) => {},
        }
        return Ok(
            FieldRule {
                display_name: None,
                show_name: true,
                prefix: None,
                suffix: None,
                nest_wrap: None,
                separator: (String::from_str(","), true),
                fallback_text: None,
                suppress_when_empty: true,
                ignored,
                custom_converter: docfn,
            },
        );
    }
    let display = attrs.rename(default_name);
    let named_kind = match kind {
        FieldKind::Optional => true,
        FieldKind::Repeated => true,
        _ => false,
    };
    let show_name = if named_kind {
        attrs.remove("no_name").is_none()
    } else {
        true
    };
    let with_fallback = match kind {
        FieldKind::Flag => true,
        FieldKind::Optional => true,
        _ => false,
    };
    let fallback = if with_fallback {
        attrs.remove("else")
    } else {
        None
    };
    let is_repeated = match kind {
        FieldKind::Repeated => true,
        _ => false,
    };
    let sep_txt = if is_repeated {
        match attrs.remove("separator") {
            Some(v) => v,
            None => String::from_str(","),
        }
    } else {
        String::from_str(",")
    };
    let sep_line = if is_repeated {
        attrs.remove("separator_noline").is_none()
    } else {
        true
    };
    let suppress = if is_repeated {
        attrs.remove("show_empty").is_none()
    } else {
        true
    };
    let prefix = attrs.remove("prefix");
    let suffix = attrs.remove("suffix");
    let nest_opt = attrs.remove("nest");
    let nw = match nest_opt {
        Some(op) => Some((op, attrs.remove("nest_suffix"))),
        None => None,
    };
    let ignored = if named {
        attrs.remove("ignore").is_some()
    } else {
        false
    };
    match attrs.finish() {
        Err(e) => {
            return Err(e);
        },
        Ok(_u) => {},
    }
    Ok(
        FieldRule {
            display_name: Some(display),
            show_name,
            prefix,
            suffix,
            nest_wrap: nw,
            separator: (sep_txt, sep_line),
            fallback_text: fallback,
            suppress_when_empty: suppress,
            ignored,
            custom_converter: None,
        },
    )
}

impl DeepView for FieldRule {
    type V = RuleV;

    open spec fn deep_view(&self) -> RuleV {
        self.view()
    }
}

impl DeepView for FieldKind {
    type V = FieldKind;

    open spec fn deep_view(&self) -> FieldKind {
        *self
    }
}

/// One named field of a record or variant: its identifier, its declared
/// shape, and its formatting options.
pub struct FieldSpec {
    pub name: String,
    pub kind: FieldKind,
    pub options: Vec<(String, String)>,
}

pub struct FieldSpecV {
    pub name: Seq<char>,
    pub kind: FieldKind,
    pub options: OptsV,
}

impl DeepView for FieldSpec {
    type V = FieldSpecV;

    open spec fn deep_view(&self) -> FieldSpecV {
        FieldSpecV { name: self.name@, kind: self.kind, options: self.options.deep_view() }
    }
}

/// One unnamed (positional) field of a variant.
pub struct UnnamedFieldSpec {
    pub kind: FieldKind,
    pub options: Vec<(String, String)>,
}

pub struct UnnamedFieldSpecV {
    pub kind: FieldKind,
    pub options: OptsV,
}

impl DeepView for UnnamedFieldSpec {
    type V = UnnamedFieldSpecV;

    open spec fn deep_view(&self) -> UnnamedFieldSpecV {
        UnnamedFieldSpecV { kind: self.kind, options: self.options.deep_view() }
    }
}

/// The field list of one tagged-union variant.
pub enum VariantFieldsSpec {
    Unit,
    Unnamed(Vec<UnnamedFieldSpec>),
    Named(Vec<FieldSpec>),
}

pub enum VariantFieldsSpecV {
    Unit,
    Unnamed(Seq<UnnamedFieldSpecV>),
    Named(Seq<FieldSpecV>),
}

impl DeepView for VariantFieldsSpec {
    type V = VariantFieldsSpecV;

    open spec fn deep_view(&self) -> VariantFieldsSpecV {
        match self {
            VariantFieldsSpec::Unit => VariantFieldsSpecV::Unit,
            VariantFieldsSpec::Unnamed(fs) => VariantFieldsSpecV::Unnamed(fs.deep_view()),
            VariantFieldsSpec::Named(fs) => VariantFieldsSpecV::Named(fs.deep_view()),
        }
    }
}

/// A record type to build a descriptor for.
pub struct RecordSpec {
    pub name: String,
    pub options: Vec<(String, String)>,
    pub fields: Vec<FieldSpec>,
}

pub struct RecordSpecV {
    pub name: Seq<char>,
    pub options: OptsV,
    pub fields: Seq<FieldSpecV>,
}

impl DeepView for RecordSpec {
    type V = RecordSpecV;

    open spec fn deep_view(&self) -> RecordSpecV {
        RecordSpecV {
            name: self.name@,
            options: self.options.deep_view(),
            fields: self.fields.deep_view(),
        }
    }
}

/// One variant of a tagged union.
pub struct VariantSpec {
    pub name: String,
    pub options: Vec<(String, String)>,
    pub fields: VariantFieldsSpec,
}

pub struct VariantSpecV {
    pub name: Seq<char>,
    pub options: OptsV,
    pub fields: VariantFieldsSpecV,
}

impl DeepView for VariantSpec {
    type V = VariantSpecV;

    open spec fn deep_view(&self) -> VariantSpecV {
        VariantSpecV {
            name: self.name@,
            options: self.options.deep_view(),
            fields: self.fields.deep_view(),
        }
    }
}

/// A tagged union to build a descriptor for. The union itself carries no
/// options; each variant carries its own.
pub struct UnionSpec {
    pub variants: Vec<VariantSpec>,
}

pub struct UnionSpecV {
    pub variants: Seq<VariantSpecV>,
}

impl DeepView for UnionSpec {
    type V = UnionSpecV;

    open spec fn deep_view(&self) -> UnionSpecV {
        UnionSpecV { variants: self.variants.deep_view() }
    }
}

/// What a node descriptor is built from: one record or one tagged union.
pub enum NodeSpec {
    Record(RecordSpec),
    Union(UnionSpec),
}

pub enum NodeSpecV {
    Record(RecordSpecV),
    Union(UnionSpecV),
}

impl DeepView for NodeSpec {
    type V = NodeSpecV;

    open spec fn deep_view(&self) -> NodeSpecV {
        match self {
            NodeSpec::Record(s) => NodeSpecV::Record(s.deep_view()),
            NodeSpec::Union(s) => NodeSpecV::Union(s.deep_view()),
        }
    }
}

/// The resolved, immutable descriptor of a record type.
pub struct RecordDescriptor {
    /// The name derived from the type identifier; the fallback text when
    /// no field contributes a document.
    pub name: String,
    /// The name the header emits, after `rename`.
    pub display_name: String,
    /// Whether the header is emitted at all.
    pub show_name: bool,
    /// Text appended to the whole record document.
    pub suffix: Option<String>,
    /// Separator between field documents.
    pub separator: (String, bool),
    /// The ordered field shapes and rules.
    pub fields: Vec<(FieldKind, FieldRule)>,
}

pub struct RecordDescV {
    pub name: Seq<char>,
    pub display_name: Seq<char>,
    pub show_name: bool,
    pub suffix: Option<Seq<char>>,
    pub separator: (Seq<char>, bool),
    pub fields: Seq<(FieldKind, RuleV)>,
}

impl DeepView for RecordDescriptor {
    type V = RecordDescV;

    open spec fn deep_view(&self) -> RecordDescV {
        RecordDescV {
            name: self.name@,
            display_name: self.display_name@,
            show_name: self.show_name,
            suffix: self.suffix.deep_view(),
            separator: (self.separator.0@, self.separator.1),
            fields: self.fields.deep_view(),
        }
    }
}

/// The resolved shape of one variant's fields.
pub enum VariantShape {
    /// No fields: the variant renders as its display name.
    Unit,
    /// Exactly one positional field.
    Single(FieldKind, FieldRule),
    /// Named fields, rendered like a record body.
    Named(Vec<(FieldKind, FieldRule)>),
}

pub enum VariantShapeV {
    Unit,
    Single(FieldKind, RuleV),
    Named(Seq<(FieldKind, RuleV)>),
}

impl DeepView for VariantShape {
    type V = VariantShapeV;

    open spec fn deep_view(&self) -> VariantShapeV {
        match self {
            VariantShape::Unit => VariantShapeV::Unit,
            VariantShape::Single(k, r) => VariantShapeV::Single(*k, r.view()),
            VariantShape::Named(fs) => VariantShapeV::Named(fs.deep_view()),
        }
    }
}

/// The resolved, immutable descriptor of one variant.
pub struct VariantDescriptor {
    pub display_name: String,
    pub prefix: Option<String>,
    pub suffix: Option<String>,
    pub nest_wrap: Option<(String, Option<String>)>,
    pub separator: (String, bool),
    pub shape: VariantShape,
}

pub struct VariantDescV {
    pub display_name: Seq<char>,
    pub prefix: Option<Seq<char>>,
    pub suffix: Option<Seq<char>>,
    pub nest_wrap: Option<(Seq<char>, Option<Seq<char>>)>,
    pub separator: (Seq<char>, bool),
    pub shape: VariantShapeV,
}

impl DeepView for VariantDescriptor {
    type V = VariantDescV;

    open spec fn deep_view(&self) -> VariantDescV {
        VariantDescV {
            display_name: self.display_name@,
            prefix: self.prefix.deep_view(),
            suffix: self.suffix.deep_view(),
            nest_wrap: match self.nest_wrap {
                Some(nw) => Some((nw.0@, nw.1.deep_view())),
                None => None,
            },
            separator: (self.separator.0@, self.separator.1),
            shape: self.shape.deep_view(),
        }
    }
}

/// The resolved, immutable descriptor of a tagged union: one variant
/// descriptor per variant, selected by tag at render time.
pub struct UnionDescriptor {
    pub variants: Vec<VariantDescriptor>,
}

pub struct UnionDescV {
    pub variants: Seq<VariantDescV>,
}

impl DeepView for UnionDescriptor {
    type V = UnionDescV;

    open spec fn deep_view(&self) -> UnionDescV {
        UnionDescV { variants: self.variants.deep_view() }
    }
}

/// A node descriptor: everything needed to turn one node's values into a
/// document. Built once per type and immutable thereafter.
pub enum NodeDescriptor {
    Record(RecordDescriptor),
    Union(UnionDescriptor),
}

pub enum NodeDescV {
    Record(RecordDescV),
    Union(UnionDescV),
}

impl DeepView for NodeDescriptor {
    type V = NodeDescV;

    open spec fn deep_view(&self) -> NodeDescV {
        match self {
            NodeDescriptor::Record(d) => NodeDescV::Record(d.deep_view()),
            NodeDescriptor::Union(d) => NodeDescV::Union(d.deep_view()),
        }
    }
}

/// The rules of a named field list, resolved in order; the first failing
/// field decides the error.
pub open spec fn resolve_fields_v(fs: Seq<FieldSpecV>) -> Result<
    Seq<(FieldKind, RuleV)>,
    BuildErrorV,
>
    decreases fs.len(),
{
    if fs.len() == 0 {
        Ok(Seq::empty())
    } else {
        match resolve_field_rule_v(
            fs[0].kind,
            true,
            crate::names::fmt_ident_spec(fs[0].name),
            fs[0].options,
        ) {
            Err(e) => Err(e),
            Ok(rule) => match resolve_fields_v(fs.subrange(1, fs.len() as int)) {
                Err(e) => Err(e),
                Ok(rest) => Ok(seq![(fs[0].kind, rule)] + rest),
            },
        }
    }
}

/// What building a record descriptor yields.
pub open spec fn resolve_record_v(s: RecordSpecV) -> Result<RecordDescV, BuildErrorV> {
    let name = crate::names::fmt_ident_spec(s.name);
    let display = match lookup(s.options, "rename"@) {
        Some(v) => v,
        None => name,
    };
    let o1 = without_key(s.options, "rename"@);
    let no_name = lookup(o1, "no_name"@) is Some;
    let o2 = without_key(o1, "no_name"@);
    let unnamed = lookup(o2, "unnamed"@) is Some;
    let o3 = without_key(o2, "unnamed"@);
    let suffix = lookup(o3, "suffix"@);
    let o4 = without_key(o3, "suffix"@);
    let sep_txt = match lookup(o4, "separator"@) {
        Some(v) => v,
        None => ""@,
    };
    let o5 = without_key(o4, "separator"@);
    let sep_line = lookup(o5, "separator_noline"@) is None;
    let o6 = without_key(o5, "separator_noline"@);
    if finish_result(o6) is Err {
        Err(finish_result(o6)->Err_0)
    } else {
        match resolve_fields_v(s.fields) {
            Err(e) => Err(e),
            Ok(fields) => Ok(
                RecordDescV {
                    name,
                    display_name: display,
                    show_name: !no_name && !unnamed,
                    suffix,
                    separator: (sep_txt, sep_line),
                    fields,
                },
            ),
        }
    }
}

/// What the positional fields of a variant resolve to: none is a unit
/// shape, one is a single field named after the variant, more are not
/// supported.
pub open spec fn resolve_unnamed_v(display: Seq<char>, fs: Seq<UnnamedFieldSpecV>) -> Result<
    VariantShapeV,
    BuildErrorV,
> {
    if fs.len() == 0 {
        Ok(VariantShapeV::Unit)
    } else if fs.len() == 1 {
        match resolve_field_rule_v(fs[0].kind, false, display, fs[0].options) {
            Err(e) => Err(e),
            Ok(rule) => Ok(VariantShapeV::Single(fs[0].kind, rule)),
        }
    } else {
        Err(BuildErrorV::UnsupportedShape)
    }
}

/// What building one variant descriptor yields.
pub open spec fn resolve_variant_v(s: VariantSpecV) -> Result<VariantDescV, BuildErrorV> {
    let display = match lookup(s.options, "rename"@) {
        Some(v) => v,
        None => crate::names::fmt_ident_spec(s.name),
    };
    let o1 = without_key(s.options, "rename"@);
    let sep_txt = match lookup(o1, "separator"@) {
        Some(v) => v,
        None => ""@,
    };
    let o2 = without_key(o1, "separator"@);
    let sep_line = lookup(o2, "separator_noline"@) is None;
    let o3 = without_key(o2, "separator_noline"@);
    let prefix = lookup(o3, "prefix"@);
    let o4 = without_key(o3, "prefix"@);
    let suffix = lookup(o4, "suffix"@);
    let o5 = without_key(o4, "suffix"@);
    let nest_opt = lookup(o5, "nest"@);
    let o6 = without_key(o5, "nest"@);
    let nw = match nest_opt {
        Some(op) => Some((op, lookup(o6, "nest_suffix"@))),
        None => None,
    };
    let o7 = if nest_opt is Some {
        without_key(o6, "nest_suffix"@)
    } else {
        o6
    };
    if finish_result(o7) is Err {
        Err(finish_result(o7)->Err_0)
    } else {
        let shape = match s.fields {
            VariantFieldsSpecV::Unit => Ok(VariantShapeV::Unit),
            VariantFieldsSpecV::Unnamed(fs) => resolve_unnamed_v(display, fs),
            VariantFieldsSpecV::Named(fs) => match resolve_fields_v(fs) {
                Err(e) => Err(e),
                Ok(fields) => Ok(VariantShapeV::Named(fields)),
            },
        };
        match shape {
            Err(e) => Err(e),
            Ok(sh) => Ok(
                VariantDescV {
                    display_name: display,
                    prefix,
                    suffix,
                    nest_wrap: nw,
                    separator: (sep_txt, sep_line),
                    shape: sh,
                },
            ),
        }
    }
}

/// The descriptors of a union's variants, in order.
pub open spec fn resolve_variants_v(vs: Seq<VariantSpecV>) -> Result<
    Seq<VariantDescV>,
    BuildErrorV,
>
    decreases vs.len(),
{
    if vs.len() == 0 {
        Ok(Seq::empty())
    } else {
        match resolve_variant_v(vs[0]) {
            Err(e) => Err(e),
            Ok(d) => match resolve_variants_v(vs.subrange(1, vs.len() as int)) {
                Err(e) => Err(e),
                Ok(rest) => Ok(seq![d] + rest),
            },
        }
    }
}

/// What building a node descriptor yields, for records and unions alike.
pub open spec fn build_node_descriptor_v(s: NodeSpecV) -> Result<NodeDescV, BuildErrorV> {
    match s {
        NodeSpecV::Record(r) => match resolve_record_v(r) {
            Err(e) => Err(e),
            Ok(d) => Ok(NodeDescV::Record(d)),
        },
        NodeSpecV::Union(u) => match resolve_variants_v(u.variants) {
            Err(e) => Err(e),
            Ok(ds) => Ok(NodeDescV::Union(UnionDescV { variants: ds })),
        },
    }
}

fn resolve_fields(fields: Vec<FieldSpec>) -> (r: Result<Vec<(FieldKind, FieldRule)>, BuildError>)
    ensures
        match r {
            Ok(rules) => resolve_fields_v(fields.deep_view()) == Ok::<_, BuildErrorV>(
                rules.deep_view(),
            ),
            Err(e) => resolve_fields_v(fields.deep_view()) == Err::<Seq<(FieldKind, RuleV)>, _>(
                e@,
            ),
        },
{
    let ghost all = fields.deep_view();
    let mut rest = fields;
    let mut acc: Vec<(FieldKind, FieldRule)> = Vec::new();
    proof {
        assert(acc.deep_view() =~= Seq::<(FieldKind, RuleV)>::empty());
    }
    while rest.len() > 0
        invariant
            all == fields.deep_view(),
            match resolve_fields_v(rest.deep_view()) {
                Ok(tail) => resolve_fields_v(all) == Ok::<_, BuildErrorV>(
                    acc.deep_view() + tail,
                ),
                Err(e) => resolve_fields_v(all) == Err::<Seq<(FieldKind, RuleV)>, _>(e),
            },
        decreases rest.len(),
    {
        let ghost pre = rest.deep_view();
        let fs = rest.remove(0);
        proof {
            assert(rest.deep_view() =~= pre.subrange(1, pre.len() as int));
            assert(pre[0] == fs.deep_view());
        }
        let default_name = crate::names::fmt_ident(fs.name.as_str());
        match resolve_field_rule(fs.kind, true, default_name.as_str(), fs.options) {
            Err(e) => {
                return Err(e);
            },
            Ok(rule) => {
                let ghost acc_pre = acc.deep_view();
                acc.push((fs.kind, rule));
                proof {
                    assert(acc.deep_view() =~= acc_pre.push((fs.kind, rule@)));
                    assert(acc_pre.push((fs.kind, rule@)) =~= acc_pre + seq![(fs.kind, rule@)]);
                    if resolve_fields_v(rest.deep_view()) is Ok {
                        assert(acc.deep_view() + resolve_fields_v(rest.deep_view())->Ok_0
                            =~= acc_pre + (seq![(fs.kind, rule@)] + resolve_fields_v(
                            rest.deep_view(),
                        )->Ok_0));
                    }
                }
            },
        }
    }
    proof {
        assert(rest.deep_view() =~= Seq::<FieldSpecV>::empty());
        assert(acc.deep_view() + Seq::<(FieldKind, RuleV)>::empty() =~= acc.deep_view());
    }
    Ok(acc)
}

fn resolve_record(s: RecordSpec) -> (r: Result<RecordDescriptor, BuildError>)
    ensures
        match r {
            Ok(d) => resolve_record_v(s.deep_view()) == Ok::<_, BuildErrorV>(d.deep_view()),
            Err(e) => resolve_record_v(s.deep_view()) == Err::<RecordDescV, _>(e@),
        },
{
    let name = crate::names::fmt_ident(s.name.as_str());
    let mut attrs = Attrs::new(s.options);
    let display = attrs.rename(name.as_str());
    let no_name = attrs.remove("no_name").is_some();
    let unnamed = attrs.remove("unnamed").is_some();
    let suffix = attrs.remove("suffix");
    let sep_txt = match attrs.remove("separator") {
        Some(v) => v,
        None => String::new(),
    };
    proof {
        reveal_strlit("");
        assert(""@ =~= Seq::<char>::empty());
    }
    let sep_line = attrs.remove("separator_noline").is_none();
    match attrs.finish() {
        Err(e) => {
            return Err(e);
        },
        Ok(_u) => {},
    }
    match resolve_fields(s.fields) {
        Err(e) => Err(e),
        Ok(fields) => Ok(
            RecordDescriptor {
                name,
                display_name: display,
                show_name: !no_name && !unnamed,
                suffix,
                separator: (sep_txt, sep_line),
                fields,
            },
        ),
    }
}

fn resolve_variant(s: VariantSpec) -> (r: Result<VariantDescriptor, BuildError>)
    ensures
        match r {
            Ok(d) => resolve_variant_v(s.deep_view()) == Ok::<_, BuildErrorV>(d.deep_view()),
            Err(e) => resolve_variant_v(s.deep_view()) == Err::<VariantDescV, _>(e@),
        },
{
    let mut attrs = Attrs::new(s.options);
    let display = match attrs.remove("rename") {
        Some(v) => v,
        None => crate::names::fmt_ident(s.name.as_str()),
    };
    let sep_txt = match attrs.remove("separator") {
        Some(v) => v,
        None => String::new(),
    };
    proof {
        reveal_strlit("");
        assert(""@ =~= Seq::<char>::empty());
    }
    let sep_line = attrs.remove("separator_noline").is_none();
    let prefix = attrs.remove("prefix");
    let suffix = attrs.remove("suffix");
    let nest_opt = attrs.remove("nest");
    let nw = match nest_opt {
        Some(op) => Some((op, attrs.remove("nest_suffix"))),
        None => None,
    };
    match attrs.finish() {
        Err(e) => {
            return Err(e);
        },
        Ok(_u) => {},
    }
    let shape = match s.fields {
        VariantFieldsSpec::Unit => VariantShape::Unit,
        VariantFieldsSpec::Unnamed(mut fs) => {
            if fs.len() == 0 {
                VariantShape::Unit
            } else if fs.len() == 1 {
                let f0 = fs.remove(0);
                proof {
                    assert(fs.deep_view() =~= Seq::<UnnamedFieldSpecV>::empty());
                }
                match resolve_field_rule(f0.kind, false, display.as_str(), f0.options) {
                    Err(e) => {
                        return Err(e);
                    },
                    Ok(rule) => VariantShape::Single(f0.kind, rule),
                }
            } else {
                return Err(BuildError::UnsupportedShape);
            }
        },
        VariantFieldsSpec::Named(fs) => {
            match resolve_fields(fs) {
                Err(e) => {
                    return Err(e);
                },
                Ok(fields) => VariantShape::Named(fields),
            }
        },
    };
    Ok(
        VariantDescriptor {
            display_name: display,
            prefix,
            suffix,
            nest_wrap: nw,
            separator: (sep_txt, sep_line),
            shape,
        },
    )
}

/// Builds the descriptor of one node type from its field specifications.
///
/// Fails eagerly, before any value is rendered: an option left
/// unconsumed, or a variant with two or more unnamed fields, aborts the
/// build with a structured error. Building is a pure function of the
/// specification: the same specification always yields the same
/// descriptor or the same error.
pub fn build_node_descriptor(spec: NodeSpec) -> (r: Result<NodeDescriptor, BuildError>)
    ensures
        match r {
            Ok(d) => build_node_descriptor_v(spec.deep_view()) == Ok::<_, BuildErrorV>(
                d.deep_view(),
            ),
            Err(e) => build_node_descriptor_v(spec.deep_view()) == Err::<NodeDescV, _>(e@),
        },
{
    match spec {
        NodeSpec::Record(rs) => match resolve_record(rs) {
            Err(e) => Err(e),
            Ok(d) => Ok(NodeDescriptor::Record(d)),
        },
        NodeSpec::Union(us) => {
            let ghost all = us.variants.deep_view();
            let mut rest = us.variants;
            let mut acc: Vec<VariantDescriptor> = Vec::new();
            proof {
                assert(acc.deep_view() =~= Seq::<VariantDescV>::empty());
            }
            while rest.len() > 0
                invariant
                    spec.deep_view() == NodeSpecV::Union(UnionSpecV { variants: all }),
                    match resolve_variants_v(rest.deep_view()) {
                        Ok(tail) => resolve_variants_v(all) == Ok::<_, BuildErrorV>(
                            acc.deep_view() + tail,
                        ),
                        Err(e) => resolve_variants_v(all) == Err::<Seq<VariantDescV>, _>(e),
                    },
                decreases rest.len(),
            {
                let ghost pre = rest.deep_view();
                let vs = rest.remove(0);
                proof {
                    assert(rest.deep_view() =~= pre.subrange(1, pre.len() as int));
                    assert(pre[0] == vs.deep_view());
                }
                match resolve_variant(vs) {
                    Err(e) => {
                        return Err(e);
                    },
                    Ok(d) => {
                        let ghost acc_pre = acc.deep_view();
                        acc.push(d);
                        proof {
                            assert(acc.deep_view() =~= acc_pre.push(d.deep_view()));
                            assert(acc_pre.push(d.deep_view()) =~= acc_pre + seq![d.deep_view()]);
                            if resolve_variants_v(rest.deep_view()) is Ok {
                                assert(acc.deep_view() + resolve_variants_v(
                                    rest.deep_view(),
                                )->Ok_0 =~= acc_pre + (seq![d.deep_view()] + resolve_variants_v(
                                    rest.deep_view(),
                                )->Ok_0));
                            }
                        }
                    },
                }
            }
            proof {
                assert(rest.deep_view() =~= Seq::<VariantSpecV>::empty());
                assert(acc.deep_view() + Seq::<VariantDescV>::empty() =~= acc.deep_view());
            }
            Ok(NodeDescriptor::Union(UnionDescriptor { variants: acc }))
        },
    }
}

} // verus!

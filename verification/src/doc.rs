//! The document algebra: immutable, acyclic trees that the renderer walks.
//!
//! A `Doc` is pure data. Constructing one never fails except for `Doc::text`,
//! which rejects strings holding a newline: every line break in the output
//! must come from a `Line` node so that the renderer stays in control of
//! layout. Because documents are owned trees, they are acyclic by
//! construction and rendering them terminates.

use vstd::prelude::*;

verus! {

/// Columns added by one level of structural indentation.
pub const NEST: usize = 4;

/// Errors raised while building documents, rules or node descriptors.
///
/// Every one of them is a deterministic function of the configuration handed
/// in, and all are raised before any value is rendered.
#[derive(Debug, PartialEq, Eq)]
pub enum BuildError {
    /// A text document was given a string holding a newline.
    MalformedText,
    /// An option name the resolver does not recognise at all.
    UnknownOption(String),
    /// A recognised option that cannot apply where it was given.
    MalformedOption(String),
    /// A tagged-union variant with two or more unnamed fields.
    UnsupportedShape,
}

/// Ghost mirror of `BuildError`, with strings abstracted to their views.
pub enum BuildErrorV {
    MalformedText,
    UnknownOption(Seq<char>),
    MalformedOption(Seq<char>),
    UnsupportedShape,
}

impl View for BuildError {
    type V = BuildErrorV;

    open spec fn view(&self) -> BuildErrorV {
        match self {
            BuildError::MalformedText => BuildErrorV::MalformedText,
            BuildError::UnknownOption(s) => BuildErrorV::UnknownOption(s@),
            BuildError::MalformedOption(s) => BuildErrorV::MalformedOption(s@),
            BuildError::UnsupportedShape => BuildErrorV::UnsupportedShape,
        }
    }
}

/// An immutable document.
///
/// `Line` renders as a single space when its enclosing group is flattened
/// and as a newline plus the current indentation otherwise. `Nest` raises
/// the indentation used by the `Line`s inside it. `Group` marks a flattening
/// candidate: the renderer decides once, on entry, whether everything inside
/// fits on the current line. `Intersperse` chains its items with the given
/// separator between each pair; it renders exactly like the equivalent
/// `Append` chain (see `inter_chain`) and exists as a primitive because it
/// is the dominant combinator.
#[derive(Debug)]
pub enum Doc {
    Nil,
    Text(String),
    Line,
    Append(Box<Doc>, Box<Doc>),
    Nest(usize, Box<Doc>),
    Group(Box<Doc>),
    Intersperse(Vec<Doc>, Box<Doc>),
}

/// Holds when a piece of literal text may appear in a `Text` node.
pub open spec fn text_ok(s: Seq<char>) -> bool {
    forall|i: int| 0 <= i < s.len() ==> s[i] != '\n'
}

/// Well-formed documents: every `Text` node is newline-free.
pub open spec fn wf(d: Doc) -> bool
    decreases d,
{
    match d {
        Doc::Nil => true,
        Doc::Text(t) => text_ok(t@),
        Doc::Line => true,
        Doc::Append(a, b) => wf(*a) && wf(*b),
        Doc::Nest(_j, x) => wf(*x),
        Doc::Group(x) => wf(*x),
        Doc::Intersperse(items, sep) => wf(*sep) && (forall|i: int|
            0 <= i < items@.len() ==> wf(#[trigger] items@[i])),
    }
}

/// The `Append` chain that an `Intersperse` node stands for.
pub open spec fn inter_chain(items: Seq<Doc>, sep: Doc) -> Doc
    decreases items,
{
    if items.len() == 0 {
        Doc::Nil
    } else if items.len() == 1 {
        items[0]
    } else {
        Doc::Append(
            Box::new(Doc::Append(Box::new(items[0]), Box::new(sep))),
            Box::new(inter_chain(items.subrange(1, items.len() as int), sep)),
        )
    }
}

/// Structural size of a document; the renderer's termination measure.
///
/// Every document measures at least 1, and an `Intersperse` node measures
/// strictly more than the `Append` chain it stands for.
pub open spec fn doc_measure(d: Doc) -> nat
    decreases d,
{
    match d {
        Doc::Nil => 1,
        Doc::Text(_t) => 1,
        Doc::Line => 1,
        Doc::Append(a, b) => 1 + doc_measure(*a) + doc_measure(*b),
        Doc::Nest(_j, x) => 1 + doc_measure(*x),
        Doc::Group(x) => 1 + doc_measure(*x),
        Doc::Intersperse(items, sep) => 2 + seq_measure(items@, doc_measure(*sep)),
    }
}

/// Size of the chain built from `items` interspersed with a separator of
/// size `sep_m`.
pub open spec fn seq_measure(items: Seq<Doc>, sep_m: nat) -> nat
    decreases items,
{
    if items.len() == 0 {
        1
    } else if items.len() == 1 {
        doc_measure(items[0])
    } else {
        doc_measure(items[0]) + 2 + sep_m + seq_measure(
            items.subrange(1, items.len() as int),
            sep_m,
        )
    }
}

/// The chain an `Intersperse` stands for measures exactly `seq_measure`.
pub proof fn lemma_inter_chain_measure(items: Seq<Doc>, sep: Doc)
    ensures
        doc_measure(inter_chain(items, sep)) == seq_measure(items, doc_measure(sep)),
    decreases items.len(),
{
    reveal_with_fuel(doc_measure, 3);
    reveal_with_fuel(seq_measure, 2);
    reveal_with_fuel(inter_chain, 2);
    if items.len() >= 2 {
        lemma_inter_chain_measure(items.subrange(1, items.len() as int), sep);
    }
}

/// The chain a well-formed `Intersperse` stands for is well-formed.
pub proof fn lemma_inter_chain_wf(items: Seq<Doc>, sep: Doc)
    requires
        wf(sep),
        forall|i: int| 0 <= i < items.len() ==> wf(#[trigger] items[i]),
    ensures
        wf(inter_chain(items, sep)),
    decreases items.len(),
{
    reveal_with_fuel(wf, 3);
    reveal_with_fuel(inter_chain, 2);
    if items.len() >= 2 {
        let rest = items.subrange(1, items.len() as int);
        assert forall|i: int| 0 <= i < rest.len() implies wf(#[trigger] rest[i]) by {
            assert(rest[i] == items[i + 1]);
        }
        lemma_inter_chain_wf(rest, sep);
    }
}

impl Doc {
    /// The empty document.
    pub fn nil() -> (r: Doc)
        ensures
            r == Doc::Nil,
    {
        Doc::Nil
    }

    /// Literal text. Rejected with `MalformedText` when `s` holds a newline,
    /// so that constructed documents are always well-formed.
    pub fn text(s: String) -> (r: Result<Doc, BuildError>)
        ensures
            text_ok(s@) ==> r == Result::<Doc, BuildError>::Ok(Doc::Text(s)),
            !text_ok(s@) ==> r == Result::<Doc, BuildError>::Err(BuildError::MalformedText),
    {
        let n = s.as_str().unicode_len();
        let mut i: usize = 0;
        while i < n
            invariant
                n == s@.len(),
                i <= n,
                forall|j: int| 0 <= j < i ==> s@[j] != '\n',
            decreases n - i,
        {
            if s.as_str().get_char(i) == '\n' {
                return Err(BuildError::MalformedText);
            }
            i = i + 1;
        }
        Ok(Doc::Text(s))
    }

    /// A break point: a space when flattened, a newline plus indentation
    /// otherwise.
    pub fn line() -> (r: Doc)
        ensures
            r == Doc::Line,
    {
        Doc::Line
    }

    /// Sequential concatenation.
    pub fn append(a: Doc, b: Doc) -> (r: Doc)
        ensures
            r == Doc::Append(Box::new(a), Box::new(b)),
    {
        Doc::Append(Box::new(a), Box::new(b))
    }

    /// Raises the indentation of the `Line`s inside `d` by `delta` columns.
    pub fn nest(delta: usize, d: Doc) -> (r: Doc)
        ensures
            r == Doc::Nest(delta, Box::new(d)),
    {
        Doc::Nest(delta, Box::new(d))
    }

    /// Marks `d` as a flattening candidate.
    pub fn group(d: Doc) -> (r: Doc)
        ensures
            r == Doc::Group(Box::new(d)),
    {
        Doc::Group(Box::new(d))
    }

    /// Chains `items` with `sep` between each pair.
    pub fn intersperse(items: Vec<Doc>, sep: Doc) -> (r: Doc)
        ensures
            r == Doc::Intersperse(items, Box::new(sep)),
    {
        Doc::Intersperse(items, Box::new(sep))
    }
}

} // verus!

//! The properties that hold across the library, stated and proved.
//!
//! The rendering laws relate `rendered` to the fully flattened form of a
//! document: output without a line break is exactly the flattened text, a
//! group whose flattened text fits the width renders flat, and for a
//! grouped document without inner groups a narrower width never produces
//! fewer breaks. The building laws say that descriptor building is
//! deterministic, that a field which contributes no document vanishes
//! without leaving separator artifacts behind, that the assembled body
//! holds exactly one document per contributing field, that the decoration
//! pipeline keeps its order, and that an undecorated unit variant renders
//! as its display name at every width.

use crate::builder::FieldValue;
use crate::builder::apply_nest_wrap;
use crate::builder::apply_prefix;
use crate::builder::apply_suffix;
use crate::builder::docs_list;
use crate::builder::spec_core_doc;
use crate::builder::spec_field_doc;
use crate::builder::unwrap_nil;
use crate::builder::variant_core_is;
use crate::builder::variant_doc_is;
use crate::doc::BuildError;
use crate::doc::BuildErrorV;
use crate::doc::NEST;
use crate::doc::Doc;
use crate::doc::doc_measure;
use crate::doc::inter_chain;
use crate::doc::lemma_inter_chain_measure;
use crate::doc::lemma_inter_chain_wf;
use crate::doc::wf;
use crate::render::FrameV;
use crate::render::Mode;
use crate::render::be;
use crate::render::count_breaks;
use crate::render::fits;
use crate::render::frames_measure;
use crate::render::lemma_count_breaks_concat;
use crate::render::lemma_frames_measure_one;
use crate::render::lemma_frames_measure_pair;
use crate::render::rendered;
use crate::render::sat_add;
use crate::render::spaces;
use crate::rule::FieldKind;
use crate::rule::FieldRule;
use crate::rule::NodeDescV;
use crate::rule::NodeDescriptor;
use crate::rule::NodeSpec;
use crate::rule::VariantDescriptor;
use crate::rule::build_node_descriptor_v;
use vstd::prelude::*;

verus! {

/// The text of `d` with every `Line` flattened to a single space.
pub open spec fn flat(d: Doc) -> Seq<char>
    decreases d,
{
    match d {
        Doc::Nil => Seq::empty(),
        Doc::Text(t) => t@,
        Doc::Line => seq![' '],
        Doc::Append(a, b) => flat(*a) + flat(*b),
        Doc::Nest(_j, x) => flat(*x),
        Doc::Group(x) => flat(*x),
        Doc::Intersperse(items, sep) => flat_seq(items@, flat(*sep)),
    }
}

/// The flattened text of documents joined by a separator's flattened
/// text.
pub open spec fn flat_seq(items: Seq<Doc>, sep_f: Seq<char>) -> Seq<char>
    decreases items,
{
    if items.len() == 0 {
        Seq::empty()
    } else if items.len() == 1 {
        flat(items[0])
    } else {
        flat(items[0]) + sep_f + flat_seq(items.subrange(1, items.len() as int), sep_f)
    }
}

/// The chain an `Intersperse` stands for flattens to the same text.
pub proof fn lemma_inter_chain_flat(items: Seq<Doc>, sep: Doc)
    ensures
        flat(inter_chain(items, sep)) == flat_seq(items, flat(sep)),
    decreases items.len(),
{
    reveal_with_fuel(flat, 3);
    reveal_with_fuel(flat_seq, 2);
    reveal_with_fuel(inter_chain, 2);
    if items.len() >= 2 {
        lemma_inter_chain_flat(items.subrange(1, items.len() as int), sep);
        assert(flat(inter_chain(items, sep)) =~= flat_seq(items, flat(sep)));
    }
}

/// The flattened text of everything on a frame stack.
pub open spec fn flat_frames(s: Seq<FrameV>) -> Seq<char>
    decreases s.len(),
{
    if s.len() == 0 {
        Seq::empty()
    } else {
        flat(s[0].2) + flat_frames(s.subrange(1, s.len() as int))
    }
}

proof fn lemma_flat_frames_one(f: FrameV, rest: Seq<FrameV>)
    ensures
        flat_frames(seq![f] + rest) == flat(f.2) + flat_frames(rest),
{
    let s = seq![f] + rest;
    assert(s[0] == f);
    assert(s.subrange(1, s.len() as int) =~= rest);
}

proof fn lemma_flat_frames_pair(f1: FrameV, f2: FrameV, rest: Seq<FrameV>)
    ensures
        flat_frames(seq![f1, f2] + rest) == flat(f1.2) + (flat(f2.2) + flat_frames(rest)),
{
    let s = seq![f1, f2] + rest;
    assert(s[0] == f1);
    assert(s.subrange(1, s.len() as int) =~= seq![f2] + rest);
    lemma_flat_frames_one(f2, rest);
}

/// Well-formedness of every document on a stack.
pub open spec fn wf_frames(s: Seq<FrameV>) -> bool {
    forall|i: int| 0 <= i < s.len() ==> wf((#[trigger] s[i]).2)
}

/// Every frame is in `Flat` mode.
pub open spec fn all_flat(s: Seq<FrameV>) -> bool {
    forall|i: int| 0 <= i < s.len() ==> (#[trigger] s[i]).1 is Flat
}

/// A sequence with no newline counts no breaks.
proof fn lemma_count_breaks_zero(s: Seq<char>)
    requires
        forall|i: int| 0 <= i < s.len() ==> s[i] != '\n',
    ensures
        count_breaks(s) == 0,
    decreases s.len(),
{
    if s.len() > 0 {
        lemma_count_breaks_zero(s.subrange(1, s.len() as int));
    }
}

/// The flattened text of a well-formed document holds no line break.
pub proof fn lemma_flat_no_breaks(d: Doc)
    requires
        wf(d),
    ensures
        count_breaks(flat(d)) == 0,
    decreases d,
{
    match d {
        Doc::Nil => {},
        Doc::Text(t) => {
            lemma_count_breaks_zero(t@);
        },
        Doc::Line => {
            lemma_count_breaks_zero(seq![' ']);
        },
        Doc::Append(a, b) => {
            lemma_flat_no_breaks(*a);
            lemma_flat_no_breaks(*b);
            lemma_count_breaks_concat(flat(*a), flat(*b));
        },
        Doc::Nest(_j, x) => {
            lemma_flat_no_breaks(*x);
        },
        Doc::Group(x) => {
            lemma_flat_no_breaks(*x);
        },
        Doc::Intersperse(items, sep) => {
            lemma_flat_no_breaks(*sep);
            lemma_flat_seq_no_breaks(items@, *sep);
        },
    }
}

proof fn lemma_flat_seq_no_breaks(items: Seq<Doc>, sep: Doc)
    requires
        count_breaks(flat(sep)) == 0,
        forall|i: int| 0 <= i < items.len() ==> wf(#[trigger] items[i]),
    ensures
        count_breaks(flat_seq(items, flat(sep))) == 0,
    decreases items,
{
    if items.len() == 1 {
        lemma_flat_no_breaks(items[0]);
    } else if items.len() >= 2 {
        let rest = items.subrange(1, items.len() as int);
        assert forall|i: int| 0 <= i < rest.len() implies wf(#[trigger] rest[i]) by {
            assert(rest[i] == items[i + 1]);
        }
        lemma_flat_no_breaks(items[0]);
        lemma_flat_seq_no_breaks(rest, sep);
        lemma_count_breaks_concat(flat(items[0]), flat(sep));
        lemma_count_breaks_concat(flat(items[0]) + flat(sep), flat_seq(rest, flat(sep)));
        assert(flat(items[0]) + flat(sep) + flat_seq(rest, flat(sep)) == flat_seq(
            items,
            flat(sep),
        ));
    }
}

/// In all-flat frames the width never matters: the output is the
/// flattened text.
pub proof fn lemma_be_all_flat(w: int, k: nat, s: Seq<FrameV>)
    requires
        all_flat(s),
    ensures
        be(w, k, s) == flat_frames(s),
    decreases frames_measure(s),
{
    if s.len() > 0 {
        let (i, m, d) = s[0];
        let rest = s.subrange(1, s.len() as int);
        assert(frames_measure(s) == doc_measure(d) + frames_measure(rest));
        assert(m is Flat);
        assert forall|t: int| 0 <= t < rest.len() implies (#[trigger] rest[t]).1 is Flat by {
            assert(rest[t] == s[t + 1]);
        }
        match d {
            Doc::Nil => {
                lemma_be_all_flat(w, k, rest);
            },
            Doc::Text(t) => {
                lemma_be_all_flat(w, sat_add(k, t@.len()), rest);
            },
            Doc::Line => {
                lemma_be_all_flat(w, sat_add(k, 1), rest);
            },
            Doc::Append(a, b) => {
                let s2 = seq![(i, m, *a), (i, m, *b)] + rest;
                assert(all_flat(s2)) by {
                    assert forall|t: int| 0 <= t < s2.len() implies (#[trigger] s2[t]).1
                        is Flat by {
                        if t >= 2 {
                            assert(s2[t] == rest[t - 2]);
                        }
                    }
                }
                lemma_frames_measure_pair((i, m, *a), (i, m, *b), rest);
                lemma_be_all_flat(w, k, s2);
                lemma_flat_frames_pair((i, m, *a), (i, m, *b), rest);
                assert(flat(d) + flat_frames(rest) =~= flat(*a) + (flat(*b) + flat_frames(
                    rest,
                )));
            },
            Doc::Nest(j, x) => {
                let s2 = seq![(sat_add(i, j as nat), m, *x)] + rest;
                assert(all_flat(s2)) by {
                    assert forall|t: int| 0 <= t < s2.len() implies (#[trigger] s2[t]).1
                        is Flat by {
                        if t >= 1 {
                            assert(s2[t] == rest[t - 1]);
                        }
                    }
                }
                lemma_frames_measure_one((sat_add(i, j as nat), m, *x), rest);
                lemma_be_all_flat(w, k, s2);
                lemma_flat_frames_one((sat_add(i, j as nat), m, *x), rest);
            },
            Doc::Group(x) => {
                let s2 = seq![(i, Mode::Flat, *x)] + rest;
                assert(all_flat(s2)) by {
                    assert forall|t: int| 0 <= t < s2.len() implies (#[trigger] s2[t]).1
                        is Flat by {
                        if t >= 1 {
                            assert(s2[t] == rest[t - 1]);
                        }
                    }
                }
                lemma_frames_measure_one((i, Mode::Flat, *x), rest);
                lemma_be_all_flat(w, k, s2);
                lemma_flat_frames_one((i, Mode::Flat, *x), rest);
            },
            Doc::Intersperse(items, sep) => {
                let chain = inter_chain(items@, *sep);
                let s2 = seq![(i, m, chain)] + rest;
                assert(all_flat(s2)) by {
                    assert forall|t: int| 0 <= t < s2.len() implies (#[trigger] s2[t]).1
                        is Flat by {
                        if t >= 1 {
                            assert(s2[t] == rest[t - 1]);
                        }
                    }
                }
                lemma_inter_chain_measure(items@, *sep);
                lemma_frames_measure_one((i, m, chain), rest);
                lemma_be_all_flat(w, k, s2);
                lemma_flat_frames_one((i, m, chain), rest);
                lemma_inter_chain_flat(items@, *sep);
            },
        }
    }
}

/// In all-flat frames, fitting is exactly a length comparison: the
/// frames fit iff their flattened text is no longer than the room left.
pub proof fn lemma_fits_flat_len(r: int, s: Seq<FrameV>)
    requires
        all_flat(s),
    ensures
        fits(r, s) <==> flat_frames(s).len() <= r,
    decreases frames_measure(s),
{
    if r < 0 {
    } else if s.len() > 0 {
        let (i, m, d) = s[0];
        let rest = s.subrange(1, s.len() as int);
        assert(frames_measure(s) == doc_measure(d) + frames_measure(rest));
        assert(m is Flat);
        assert forall|t: int| 0 <= t < rest.len() implies (#[trigger] rest[t]).1 is Flat by {
            assert(rest[t] == s[t + 1]);
        }
        match d {
            Doc::Nil => {
                lemma_fits_flat_len(r, rest);
            },
            Doc::Text(t) => {
                lemma_fits_flat_len(r - t@.len(), rest);
            },
            Doc::Line => {
                lemma_fits_flat_len(r - 1, rest);
            },
            Doc::Append(a, b) => {
                let s2 = seq![(i, m, *a), (i, m, *b)] + rest;
                assert(all_flat(s2)) by {
                    assert forall|t: int| 0 <= t < s2.len() implies (#[trigger] s2[t]).1
                        is Flat by {
                        if t >= 2 {
                            assert(s2[t] == rest[t - 2]);
                        }
                    }
                }
                lemma_frames_measure_pair((i, m, *a), (i, m, *b), rest);
                lemma_fits_flat_len(r, s2);
                lemma_flat_frames_pair((i, m, *a), (i, m, *b), rest);
                assert(flat(d) + flat_frames(rest) =~= flat(*a) + (flat(*b) + flat_frames(
                    rest,
                )));
            },
            Doc::Nest(j, x) => {
                let s2 = seq![(sat_add(i, j as nat), m, *x)] + rest;
                assert(all_flat(s2)) by {
                    assert forall|t: int| 0 <= t < s2.len() implies (#[trigger] s2[t]).1
                        is Flat by {
                        if t >= 1 {
                            assert(s2[t] == rest[t - 1]);
                        }
                    }
                }
                lemma_frames_measure_one((sat_add(i, j as nat), m, *x), rest);
                lemma_fits_flat_len(r, s2);
                lemma_flat_frames_one((sat_add(i, j as nat), m, *x), rest);
            },
            Doc::Group(x) => {
                let s2 = seq![(i, m, *x)] + rest;
                assert(all_flat(s2)) by {
                    assert forall|t: int| 0 <= t < s2.len() implies (#[trigger] s2[t]).1
                        is Flat by {
                        if t >= 1 {
                            assert(s2[t] == rest[t - 1]);
                        }
                    }
                }
                lemma_frames_measure_one((i, m, *x), rest);
                lemma_fits_flat_len(r, s2);
                lemma_flat_frames_one((i, m, *x), rest);
            },
            Doc::Intersperse(items, sep) => {
                let chain = inter_chain(items@, *sep);
                let s2 = seq![(i, m, chain)] + rest;
                assert(all_flat(s2)) by {
                    assert forall|t: int| 0 <= t < s2.len() implies (#[trigger] s2[t]).1
                        is Flat by {
                        if t >= 1 {
                            assert(s2[t] == rest[t - 1]);
                        }
                    }
                }
                lemma_inter_chain_measure(items@, *sep);
                lemma_frames_measure_one((i, m, chain), rest);
                lemma_fits_flat_len(r, s2);
                lemma_flat_frames_one((i, m, chain), rest);
                lemma_inter_chain_flat(items@, *sep);
            },
        }
    }
}

/// More room never makes a fitting stack stop fitting.
pub proof fn lemma_fits_mono(r1: int, r2: int, s: Seq<FrameV>)
    requires
        r1 <= r2,
        fits(r1, s),
    ensures
        fits(r2, s),
    decreases frames_measure(s),
{
    if s.len() > 0 && r1 >= 0 {
        let (i, m, d) = s[0];
        let rest = s.subrange(1, s.len() as int);
        assert(frames_measure(s) == doc_measure(d) + frames_measure(rest));
        match d {
            Doc::Nil => {
                lemma_fits_mono(r1, r2, rest);
            },
            Doc::Text(t) => {
                lemma_fits_mono(r1 - t@.len(), r2 - t@.len(), rest);
            },
            Doc::Line => {
                if m is Flat {
                    lemma_fits_mono(r1 - 1, r2 - 1, rest);
                }
            },
            Doc::Append(a, b) => {
                lemma_frames_measure_pair((i, m, *a), (i, m, *b), rest);
                lemma_fits_mono(r1, r2, seq![(i, m, *a), (i, m, *b)] + rest);
            },
            Doc::Nest(j, x) => {
                lemma_frames_measure_one((sat_add(i, j as nat), m, *x), rest);
                lemma_fits_mono(r1, r2, seq![(sat_add(i, j as nat), m, *x)] + rest);
            },
            Doc::Group(x) => {
                lemma_frames_measure_one((i, m, *x), rest);
                lemma_fits_mono(r1, r2, seq![(i, m, *x)] + rest);
            },
            Doc::Intersperse(items, sep) => {
                lemma_inter_chain_measure(items@, *sep);
                lemma_frames_measure_one((i, m, inter_chain(items@, *sep)), rest);
                lemma_fits_mono(r1, r2, seq![(i, m, inter_chain(items@, *sep))] + rest);
            },
        }
    }
}

/// Documents without any flattening candidate: rendering them does not
/// depend on the width at all.
pub open spec fn group_free(d: Doc) -> bool
    decreases d,
{
    match d {
        Doc::Nil => true,
        Doc::Text(_t) => true,
        Doc::Line => true,
        Doc::Append(a, b) => group_free(*a) && group_free(*b),
        Doc::Nest(_j, x) => group_free(*x),
        Doc::Group(_x) => false,
        Doc::Intersperse(items, sep) => group_free(*sep) && (forall|i: int|
            0 <= i < items@.len() ==> group_free(#[trigger] items@[i])),
    }
}

proof fn lemma_inter_chain_group_free(items: Seq<Doc>, sep: Doc)
    requires
        group_free(sep),
        forall|i: int| 0 <= i < items.len() ==> group_free(#[trigger] items[i]),
    ensures
        group_free(inter_chain(items, sep)),
    decreases items.len(),
{
    reveal_with_fuel(group_free, 3);
    reveal_with_fuel(inter_chain, 2);
    if items.len() >= 2 {
        let rest = items.subrange(1, items.len() as int);
        assert forall|i: int| 0 <= i < rest.len() implies group_free(#[trigger] rest[i]) by {
            assert(rest[i] == items[i + 1]);
        }
        lemma_inter_chain_group_free(rest, sep);
    }
}

spec fn gf_frames(s: Seq<FrameV>) -> bool {
    forall|i: int| 0 <= i < s.len() ==> group_free((#[trigger] s[i]).2)
}

proof fn lemma_be_width_irrelevant(w1: int, w2: int, k: nat, s: Seq<FrameV>)
    requires
        gf_frames(s),
    ensures
        be(w1, k, s) == be(w2, k, s),
    decreases frames_measure(s),
{
    if s.len() > 0 {
        let (i, m, d) = s[0];
        let rest = s.subrange(1, s.len() as int);
        assert(frames_measure(s) == doc_measure(d) + frames_measure(rest));
        assert forall|t: int| 0 <= t < rest.len() implies group_free((#[trigger] rest[t]).2) by {
            assert(rest[t] == s[t + 1]);
        }
        match d {
            Doc::Nil => {
                lemma_be_width_irrelevant(w1, w2, k, rest);
            },
            Doc::Text(t) => {
                lemma_be_width_irrelevant(w1, w2, sat_add(k, t@.len()), rest);
            },
            Doc::Line => {
                if m is Flat {
                    lemma_be_width_irrelevant(w1, w2, sat_add(k, 1), rest);
                } else {
                    lemma_be_width_irrelevant(w1, w2, i, rest);
                }
            },
            Doc::Append(a, b) => {
                let s2 = seq![(i, m, *a), (i, m, *b)] + rest;
                assert(gf_frames(s2)) by {
                    assert forall|t: int| 0 <= t < s2.len() implies group_free(
                        (#[trigger] s2[t]).2,
                    ) by {
                        if t >= 2 {
                            assert(s2[t] == rest[t - 2]);
                        }
                    }
                }
                lemma_frames_measure_pair((i, m, *a), (i, m, *b), rest);
                lemma_be_width_irrelevant(w1, w2, k, s2);
            },
            Doc::Nest(j, x) => {
                let s2 = seq![(sat_add(i, j as nat), m, *x)] + rest;
                assert(gf_frames(s2)) by {
                    assert forall|t: int| 0 <= t < s2.len() implies group_free(
                        (#[trigger] s2[t]).2,
                    ) by {
                        if t >= 1 {
                            assert(s2[t] == rest[t - 1]);
                        }
                    }
                }
                lemma_frames_measure_one((sat_add(i, j as nat), m, *x), rest);
                lemma_be_width_irrelevant(w1, w2, k, s2);
            },
            Doc::Group(_x) => {
                assert(false);
            },
            Doc::Intersperse(items, sep) => {
                let chain = inter_chain(items@, *sep);
                let s2 = seq![(i, m, chain)] + rest;
                lemma_inter_chain_group_free(items@, *sep);
                assert(gf_frames(s2)) by {
                    assert forall|t: int| 0 <= t < s2.len() implies group_free(
                        (#[trigger] s2[t]).2,
                    ) by {
                        if t >= 1 {
                            assert(s2[t] == rest[t - 1]);
                        }
                    }
                }
                lemma_inter_chain_measure(items@, *sep);
                lemma_frames_measure_one((i, m, chain), rest);
                lemma_be_width_irrelevant(w1, w2, k, s2);
            },
        }
    }
}

/// Flat correctness: output that fits on one line is exactly the
/// flattened document — every group rendered flat.
pub proof fn lemma_flat_correctness(d: Doc, w: int)
    requires
        wf(d),
        count_breaks(rendered(d, w)) == 0,
    ensures
        rendered(d, w) == flat(d),
{
    let top = seq![(0 as nat, Mode::Broken, d)];
    lemma_be_no_breaks_is_flat(w, 0, top);
    assert(top[0] == (0 as nat, Mode::Broken, d));
    assert(top.subrange(1, 1) =~= Seq::<FrameV>::empty());
    assert(flat_frames(Seq::<FrameV>::empty()) =~= Seq::<char>::empty());
    assert(flat_frames(top) =~= flat(d) + Seq::<char>::empty());
    assert(flat(d) + Seq::<char>::empty() =~= flat(d));
}

/// A group whose flattened text fits within the width renders flat.
pub proof fn lemma_group_fits_flat(d: Doc, w: int)
    requires
        wf(d),
        flat(d).len() <= w,
    ensures
        rendered(Doc::Group(Box::new(d)), w) == flat(d),
{
    let g = Doc::Group(Box::new(d));
    let top = seq![(0 as nat, Mode::Broken, g)];
    assert(top[0] == (0 as nat, Mode::Broken, g));
    assert(top.subrange(1, 1) =~= Seq::<FrameV>::empty());
    let cand = seq![(0 as nat, Mode::Flat, d)] + top.subrange(1, 1);
    assert(cand =~= seq![(0 as nat, Mode::Flat, d)]);
    assert(all_flat(cand));
    lemma_fits_flat_len(w, cand);
    assert(cand[0] == (0 as nat, Mode::Flat, d));
    assert(cand.subrange(1, 1) =~= Seq::<FrameV>::empty());
    assert(flat_frames(Seq::<FrameV>::empty()) =~= Seq::<char>::empty());
    assert(flat_frames(cand) =~= flat(d) + Seq::<char>::empty());
    assert(flat(d) + Seq::<char>::empty() =~= flat(d));
    assert(fits(w - 0, cand));
    lemma_be_all_flat(w, 0, cand);
}

/// No line break in the output means every frame printed its flattened
/// text.
proof fn lemma_be_no_breaks_is_flat(w: int, k: nat, s: Seq<FrameV>)
    requires
        wf_frames(s),
        count_breaks(be(w, k, s)) == 0,
    ensures
        be(w, k, s) == flat_frames(s),
    decreases frames_measure(s),
{
    if s.len() > 0 {
        let (i, m, d) = s[0];
        let rest = s.subrange(1, s.len() as int);
        assert(frames_measure(s) == doc_measure(d) + frames_measure(rest));
        assert(wf(d));
        assert forall|t: int| 0 <= t < rest.len() implies wf((#[trigger] rest[t]).2) by {
            assert(rest[t] == s[t + 1]);
        }
        match d {
            Doc::Nil => {
                lemma_be_no_breaks_is_flat(w, k, rest);
            },
            Doc::Text(t) => {
                lemma_count_breaks_concat(t@, be(w, sat_add(k, t@.len()), rest));
                lemma_be_no_breaks_is_flat(w, sat_add(k, t@.len()), rest);
            },
            Doc::Line => {
                if m is Flat {
                    lemma_count_breaks_concat(seq![' '], be(w, sat_add(k, 1), rest));
                    lemma_be_no_breaks_is_flat(w, sat_add(k, 1), rest);
                } else {
                    let tail = spaces(i) + be(w, i, rest);
                    lemma_count_breaks_concat(seq!['\n'], tail);
                    assert(count_breaks(seq!['\n']) == 1) by {
                        assert(seq!['\n'].subrange(1, 1) =~= Seq::<char>::empty());
                    }
                    assert(false);
                }
            },
            Doc::Append(a, b) => {
                let s2 = seq![(i, m, *a), (i, m, *b)] + rest;
                assert(wf_frames(s2)) by {
                    assert forall|t: int| 0 <= t < s2.len() implies wf(
                        (#[trigger] s2[t]).2,
                    ) by {
                        if t >= 2 {
                            assert(s2[t] == rest[t - 2]);
                        }
                    }
                }
                lemma_frames_measure_pair((i, m, *a), (i, m, *b), rest);
                lemma_be_no_breaks_is_flat(w, k, s2);
                lemma_flat_frames_pair((i, m, *a), (i, m, *b), rest);
                assert(flat(d) + flat_frames(rest) =~= flat(*a) + (flat(*b) + flat_frames(
                    rest,
                )));
            },
            Doc::Nest(j, x) => {
                let s2 = seq![(sat_add(i, j as nat), m, *x)] + rest;
                assert(wf_frames(s2)) by {
                    assert forall|t: int| 0 <= t < s2.len() implies wf(
                        (#[trigger] s2[t]).2,
                    ) by {
                        if t >= 1 {
                            assert(s2[t] == rest[t - 1]);
                        }
                    }
                }
                lemma_frames_measure_one((sat_add(i, j as nat), m, *x), rest);
                lemma_be_no_breaks_is_flat(w, k, s2);
                lemma_flat_frames_one((sat_add(i, j as nat), m, *x), rest);
            },
            Doc::Group(x) => {
                let sf = seq![(i, Mode::Flat, *x)] + rest;
                let sb = seq![(i, Mode::Broken, *x)] + rest;
                assert(wf_frames(sf) && wf_frames(sb)) by {
                    assert forall|t: int| 0 <= t < sf.len() implies wf((#[trigger] sf[t]).2)
                        && wf((#[trigger] sb[t]).2) by {
                        if t >= 1 {
                            assert(sf[t] == rest[t - 1]);
                            assert(sb[t] == rest[t - 1]);
                        }
                    }
                }
                lemma_frames_measure_one((i, Mode::Flat, *x), rest);
                lemma_frames_measure_one((i, Mode::Broken, *x), rest);
                if m is Flat {
                    lemma_be_no_breaks_is_flat(w, k, sf);
                    lemma_flat_frames_one((i, Mode::Flat, *x), rest);
                } else if fits(w - k, sf) {
                    lemma_be_no_breaks_is_flat(w, k, sf);
                    lemma_flat_frames_one((i, Mode::Flat, *x), rest);
                } else {
                    lemma_be_no_breaks_is_flat(w, k, sb);
                    lemma_flat_frames_one((i, Mode::Broken, *x), rest);
                }
            },
            Doc::Intersperse(items, sep) => {
                let chain = inter_chain(items@, *sep);
                let s2 = seq![(i, m, chain)] + rest;
                lemma_inter_chain_wf(items@, *sep);
                assert(wf_frames(s2)) by {
                    assert forall|t: int| 0 <= t < s2.len() implies wf(
                        (#[trigger] s2[t]).2,
                    ) by {
                        if t >= 1 {
                            assert(s2[t] == rest[t - 1]);
                        }
                    }
                }
                lemma_inter_chain_measure(items@, *sep);
                lemma_frames_measure_one((i, m, chain), rest);
                lemma_be_no_breaks_is_flat(w, k, s2);
                lemma_flat_frames_one((i, m, chain), rest);
                lemma_inter_chain_flat(items@, *sep);
            },
        }
    }
}

/// Width monotonicity for a grouped document without inner groups: a
/// narrower width never yields fewer line breaks.
///
/// The general statement over arbitrarily nested groups does not follow
/// from the fits rule alone — an outer group that breaks at the narrow
/// width can reset the column and let an inner group fit that did not
/// fit at the wider width — so the law is proved here for the common
/// single-group shape and exercised by width sweeps in the tests.
pub proof fn lemma_width_monotonic_single_group(d: Doc, w1: int, w2: int)
    requires
        wf(d),
        group_free(d),
        w1 <= w2,
    ensures
        count_breaks(rendered(Doc::Group(Box::new(d)), w1)) >= count_breaks(
            rendered(Doc::Group(Box::new(d)), w2),
        ),
{
    let g = Doc::Group(Box::new(d));
    let top = seq![(0 as nat, Mode::Broken, g)];
    assert(top[0] == (0 as nat, Mode::Broken, g));
    assert(top.subrange(1, 1) =~= Seq::<FrameV>::empty());
    let cand = seq![(0 as nat, Mode::Flat, d)] + top.subrange(1, 1);
    let cbrk = seq![(0 as nat, Mode::Broken, d)] + top.subrange(1, 1);
    assert(all_flat(cand)) by {
        assert(cand =~= seq![(0 as nat, Mode::Flat, d)]);
    }
    if fits(w2 - 0, cand) {
        lemma_be_all_flat(w2, 0, cand);
        assert(cand[0] == (0 as nat, Mode::Flat, d));
        assert(cand.subrange(1, cand.len() as int) =~= Seq::<FrameV>::empty());
        assert(flat_frames(Seq::<FrameV>::empty()) =~= Seq::<char>::empty());
        assert(flat_frames(cand) =~= flat(d) + Seq::<char>::empty());
        assert(flat(d) + Seq::<char>::empty() =~= flat(d));
        lemma_flat_no_breaks(d);
        assert(count_breaks(rendered(g, w2)) == 0);
    } else {
        if fits(w1 - 0, cand) {
            lemma_fits_mono(w1, w2, cand);
            assert(false);
        }
        assert(gf_frames(cbrk)) by {
            assert(cbrk =~= seq![(0 as nat, Mode::Broken, d)]);
        }
        lemma_be_width_irrelevant(w1, w2, 0, cbrk);
        assert(rendered(g, w1) == be(w1, 0, cbrk));
        assert(rendered(g, w2) == be(w2, 0, cbrk));
    }
}

/// Building a node descriptor is deterministic: two builds from
/// identical specifications yield structurally identical descriptors,
/// or the very same error — never one of each.
pub proof fn lemma_descriptor_build_deterministic(
    s1: NodeSpec,
    s2: NodeSpec,
    r1: Result<NodeDescriptor, BuildError>,
    r2: Result<NodeDescriptor, BuildError>,
)
    requires
        s1.deep_view() == s2.deep_view(),
        match r1 {
            Ok(d) => build_node_descriptor_v(s1.deep_view()) == Ok::<_, BuildErrorV>(
                d.deep_view(),
            ),
            Err(e) => build_node_descriptor_v(s1.deep_view()) == Err::<NodeDescV, _>(e@),
        },
        match r2 {
            Ok(d) => build_node_descriptor_v(s2.deep_view()) == Ok::<_, BuildErrorV>(
                d.deep_view(),
            ),
            Err(e) => build_node_descriptor_v(s2.deep_view()) == Err::<NodeDescV, _>(e@),
        },
    ensures
        match (r1, r2) {
            (Ok(d1), Ok(d2)) => d1.deep_view() == d2.deep_view(),
            (Err(e1), Err(e2)) => e1@ == e2@,
            _ => false,
        },
{
}

/// A field that contributes no document — ignored, or with nothing to
/// show — drops out of the assembled body entirely: the surrounding
/// fields see exactly the body they would see without it, so it leaves
/// no separator and no blank segment behind.
pub proof fn lemma_invisible_field_drops_out(
    fields: Seq<(FieldKind, FieldRule)>,
    vals: Seq<FieldValue>,
    i: int,
)
    requires
        0 <= i < fields.len(),
        i < vals.len(),
        fields[i].1.ignored || spec_field_doc(fields[i].1, vals[i]) is None,
    ensures
        docs_list(fields, vals) == docs_list(fields.remove(i), vals.remove(i)),
    decreases i,
{
    let ftail = fields.subrange(1, fields.len() as int);
    let vtail = vals.subrange(1, vals.len() as int);
    if i == 0 {
        assert(fields.remove(0) =~= ftail);
        assert(vals.remove(0) =~= vtail);
        assert(docs_list(fields, vals) =~= docs_list(ftail, vtail));
    } else {
        assert(ftail[i - 1] == fields[i]);
        assert(vtail[i - 1] == vals[i]);
        lemma_invisible_field_drops_out(ftail, vtail, i - 1);
        let fr = fields.remove(i);
        let vr = vals.remove(i);
        assert(fr[0] == fields[0]);
        assert(vr[0] == vals[0]);
        assert(fr.subrange(1, fr.len() as int) =~= ftail.remove(i - 1));
        assert(vr.subrange(1, vr.len() as int) =~= vtail.remove(i - 1));
        assert(docs_list(fields, vals) =~= docs_list(fr, vr));
    }
}

/// Empty suppression: a repeated field with no elements whose rule
/// suppresses the empty case contributes nothing to its siblings'
/// layout — the record body equals the one built without that field.
pub proof fn lemma_empty_repeated_suppressed(
    fields: Seq<(FieldKind, FieldRule)>,
    vals: Seq<FieldValue>,
    i: int,
)
    requires
        0 <= i < fields.len(),
        i < vals.len(),
        vals[i] matches FieldValue::Repeated(items) && items@.len() == 0,
        fields[i].1.suppress_when_empty,
    ensures
        docs_list(fields, vals) == docs_list(fields.remove(i), vals.remove(i)),
{
    assert(spec_field_doc(fields[i].1, vals[i]) is None);
    lemma_invisible_field_drops_out(fields, vals, i);
}

/// An absent optional field with no fallback contributes nothing: its
/// siblings join exactly as many separators as there are contributing
/// fields, not declared ones.
pub proof fn lemma_absent_optional_vanishes(
    fields: Seq<(FieldKind, FieldRule)>,
    vals: Seq<FieldValue>,
    i: int,
)
    requires
        0 <= i < fields.len(),
        i < vals.len(),
        vals[i] matches FieldValue::Optional(o) && o is None,
        fields[i].1.fallback_text is None,
    ensures
        docs_list(fields, vals) == docs_list(fields.remove(i), vals.remove(i)),
{
    assert(spec_field_doc(fields[i].1, vals[i]) is None);
    lemma_invisible_field_drops_out(fields, vals, i);
}

/// Whether a field joins the assembled body at all.
pub open spec fn contributes(f: (FieldKind, FieldRule), v: FieldValue) -> bool {
    !f.1.ignored && spec_field_doc(f.1, v) is Some
}

/// How many fields contribute a document.
pub open spec fn count_contributing(
    fields: Seq<(FieldKind, FieldRule)>,
    vals: Seq<FieldValue>,
) -> nat
    decreases fields.len(),
{
    if fields.len() == 0 || vals.len() == 0 {
        0
    } else {
        (if contributes(fields[0], vals[0]) {
            1 as nat
        } else {
            0 as nat
        }) + count_contributing(
            fields.subrange(1, fields.len() as int),
            vals.subrange(1, vals.len() as int),
        )
    }
}

/// The assembled body holds exactly one document per contributing
/// field: with it, the number of separators between siblings is the
/// number of contributing fields minus one.
pub proof fn lemma_docs_list_counts_contributors(
    fields: Seq<(FieldKind, FieldRule)>,
    vals: Seq<FieldValue>,
)
    ensures
        docs_list(fields, vals).len() == count_contributing(fields, vals),
    decreases fields.len(),
{
    if fields.len() > 0 && vals.len() > 0 {
        lemma_docs_list_counts_contributors(
            fields.subrange(1, fields.len() as int),
            vals.subrange(1, vals.len() as int),
        );
    }
}

/// Pipeline order: with both a prefix and a keyword wrapper set, the
/// prefix stands inside the wrapper — the produced document opens with
/// the keyword and its break point, and the prefixed text follows
/// inside the nested block, never outside it.
pub proof fn lemma_prefix_inside_nest_wrap(rule: FieldRule, value: FieldValue)
    requires
        rule.custom_converter is None,
        rule.prefix is Some,
        rule.nest_wrap is Some,
        spec_core_doc(rule, value) is Some,
    ensures
        spec_field_doc(rule, value) is Some,
        ({
            let nwp = rule.nest_wrap->0;
            let inner = apply_suffix(
                rule.suffix,
                Some(
                    Doc::Append(
                        Box::new(Doc::Text(rule.prefix->0)),
                        Box::new(spec_core_doc(rule, value)->0),
                    ),
                ),
            )->0;
            let opened = Doc::Group(
                Box::new(
                    Doc::Nest(
                        NEST,
                        Box::new(
                            Doc::Append(
                                Box::new(
                                    Doc::Append(
                                        Box::new(Doc::Text(nwp.0)),
                                        Box::new(Doc::Line),
                                    ),
                                ),
                                Box::new(inner),
                            ),
                        ),
                    ),
                ),
            );
            spec_field_doc(rule, value)->0 == match nwp.1 {
                Some(c) => Doc::Group(
                    Box::new(
                        Doc::Append(
                            Box::new(Doc::Append(Box::new(opened), Box::new(Doc::Line))),
                            Box::new(Doc::Text(c)),
                        ),
                    ),
                ),
                None => opened,
            }
        }),
{
}

/// A unit variant with no decoration renders as exactly its display
/// name, at every width.
pub proof fn lemma_unit_variant_renders_name(
    vd: VariantDescriptor,
    vals: Seq<FieldValue>,
    r: Doc,
    w: int,
)
    requires
        vd.shape is Unit,
        vd.prefix is None,
        vd.suffix is None,
        vd.nest_wrap is None,
        variant_doc_is(vd, vals, r),
    ensures
        rendered(r, w) == vd.display_name@,
{
    let core = choose|core: Option<Doc>|
        #[trigger] variant_core_is(vd, vals, core) && r == unwrap_nil(
            apply_nest_wrap(vd.nest_wrap, apply_suffix(vd.suffix, apply_prefix(vd.prefix, core))),
        );
    assert(core == Some(Doc::Text(vd.display_name)));
    assert(r == Doc::Text(vd.display_name));
    let top = seq![(0 as nat, Mode::Broken, r)];
    assert(top[0] == (0 as nat, Mode::Broken, r));
    assert(top.subrange(1, 1) =~= Seq::<FrameV>::empty());
    assert(be(w, sat_add(0, vd.display_name@.len()), Seq::<FrameV>::empty())
        =~= Seq::<char>::empty());
    assert(rendered(r, w) =~= vd.display_name@ + Seq::<char>::empty());
    assert(vd.display_name@ + Seq::<char>::empty() =~= vd.display_name@);
}


} // verus!

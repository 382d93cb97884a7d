//! The renderer: turns a document and a target width into text.
//!
//! Rendering walks an explicit stack of `(indentation, mode, document)`
//! frames. A frame in `Flat` mode prints every `Line` inside it as a single
//! space; a frame in `Broken` mode prints a `Line` as a newline followed by
//! the frame's indentation. On entering a `Group` in `Broken` mode the
//! renderer runs a fits-check: it measures the group flattened, together
//! with everything after it on the stack up to the next break that is
//! certain to end the line, against the room left on the current line. The
//! whole computation is specified by the pure functions `fits` and `be`;
//! `render` is proved to return exactly `rendered(doc, width)`.
//!
//! Because documents are owned, acyclic trees, rendering provably
//! terminates for every input: no depth guard is needed.
//!
//! Column positions saturate at `usize::MAX`. Saturation cannot change any
//! fits decision: once the column has passed the target width, every
//! fits-check short of a certain line end fails regardless of the exact
//! overshoot.

use crate::doc::Doc;
use crate::doc::doc_measure;
use crate::doc::inter_chain;
use crate::doc::lemma_inter_chain_measure;
use vstd::prelude::*;
use vstd::string::StrSliceExecFns;
use vstd::string::StringExecFns;

verus! {

/// Rendering mode of one stack frame.
#[derive(Debug, Clone, Copy, PartialEq, Eq, Structural)]
pub enum Mode {
    Flat,
    Broken,
}

/// One ghost frame: indentation, mode and the document still to print.
pub type FrameV = (nat, Mode, Doc);

/// Addition saturating at `usize::MAX`, the arithmetic used for columns
/// and indentation.
pub open spec fn sat_add(a: nat, b: nat) -> nat {
    if a + b > usize::MAX {
        usize::MAX as nat
    } else {
        a + b
    }
}

/// Total size of the documents on a frame stack; the termination measure
/// of `fits`, `be` and the rendering loops.
pub open spec fn frames_measure(s: Seq<FrameV>) -> nat
    decreases s.len(),
{
    if s.len() == 0 {
        0
    } else {
        doc_measure(s[0].2) + frames_measure(s.subrange(1, s.len() as int))
    }
}

pub proof fn lemma_frames_measure_concat(a: Seq<FrameV>, b: Seq<FrameV>)
    ensures
        frames_measure(a + b) == frames_measure(a) + frames_measure(b),
    decreases a.len(),
{
    if a.len() == 0 {
        assert(a + b =~= b);
    } else {
        assert((a + b)[0] == a[0]);
        assert((a + b).subrange(1, (a + b).len() as int) =~= a.subrange(1, a.len() as int) + b);
        lemma_frames_measure_concat(a.subrange(1, a.len() as int), b);
    }
}

pub proof fn lemma_frames_measure_singleton(f: FrameV)
    ensures
        frames_measure(seq![f]) == doc_measure(f.2),
{
    assert(seq![f].subrange(1, 1) =~= Seq::<FrameV>::empty());
    assert(frames_measure(Seq::<FrameV>::empty()) == 0);
    assert(seq![f][0] == f);
}

/// Whether the frames on `s`, printed from the column that leaves `r`
/// cells of room, stay within the line up to the next certain line break.
///
/// Text and flat `Line`s consume room; a `Line` in `Broken` mode ends the
/// line for certain, so everything beyond it is not measured. A `Group`
/// keeps the mode of its frame: inside flattened content it stays flat,
/// and in trailing `Broken` content its own `Line`s may end the line.
pub open spec fn fits(r: int, s: Seq<FrameV>) -> bool
    decreases frames_measure(s),
    via fits_decreases
{
    if r < 0 {
        false
    } else if s.len() == 0 {
        true
    } else {
        let (i, m, d) = s[0];
        let rest = s.subrange(1, s.len() as int);
        match d {
            Doc::Nil => fits(r, rest),
            Doc::Text(t) => fits(r - t@.len(), rest),
            Doc::Line => if m is Flat {
                fits(r - 1, rest)
            } else {
                true
            },
            Doc::Append(a, b) => fits(r, seq![(i, m, *a), (i, m, *b)] + rest),
            Doc::Nest(j, x) => fits(r, seq![(sat_add(i, j as nat), m, *x)] + rest),
            Doc::Group(x) => fits(r, seq![(i, m, *x)] + rest),
            Doc::Intersperse(items, sep) => fits(
                r,
                seq![(i, m, inter_chain(items@, *sep))] + rest,
            ),
        }
    }
}

#[via_fn]
proof fn fits_decreases(r: int, s: Seq<FrameV>) {
    if s.len() > 0 {
        frames_step_measure(s);
    }
}

pub proof fn lemma_frames_measure_pair(f1: FrameV, f2: FrameV, rest: Seq<FrameV>)
    ensures
        frames_measure(seq![f1, f2] + rest) == doc_measure(f1.2) + doc_measure(f2.2)
            + frames_measure(rest),
{
    lemma_frames_measure_concat(seq![f1, f2], rest);
    assert(seq![f1, f2].subrange(1, 2) =~= seq![f2]);
    lemma_frames_measure_singleton(f2);
    assert(frames_measure(seq![f1, f2]) == doc_measure(f1.2) + doc_measure(f2.2));
}

pub proof fn lemma_frames_measure_one(f1: FrameV, rest: Seq<FrameV>)
    ensures
        frames_measure(seq![f1] + rest) == doc_measure(f1.2) + frames_measure(rest),
{
    lemma_frames_measure_concat(seq![f1], rest);
    lemma_frames_measure_singleton(f1);
}

/// The one fact both termination proofs need: each step of `fits` and `be`
/// strictly shrinks `frames_measure`.
proof fn frames_step_measure(s: Seq<FrameV>)
    requires
        s.len() > 0,
    ensures
        ({
            let (i, m, d) = s[0];
            let rest = s.subrange(1, s.len() as int);
            &&& frames_measure(s) == doc_measure(d) + frames_measure(rest)
            &&& (d is Append ==> frames_measure(
                seq![(i, m, *d->Append_0), (i, m, *d->Append_1)] + rest,
            ) < frames_measure(s))
            &&& (d is Nest ==> frames_measure(
                seq![(sat_add(i, d->Nest_0 as nat), m, *d->Nest_1)] + rest,
            ) < frames_measure(s))
            &&& (d is Group ==> frames_measure(seq![(i, Mode::Flat, *d->Group_0)] + rest)
                < frames_measure(s) && frames_measure(seq![(i, Mode::Broken, *d->Group_0)] + rest)
                < frames_measure(s) && frames_measure(seq![(i, m, *d->Group_0)] + rest)
                < frames_measure(s))
            &&& (d is Intersperse ==> frames_measure(
                seq![(i, m, inter_chain(d->Intersperse_0@, *d->Intersperse_1))] + rest,
            ) < frames_measure(s))
        }),
{
    let (i, m, d) = s[0];
    let rest = s.subrange(1, s.len() as int);
    assert(frames_measure(s) == doc_measure(d) + frames_measure(rest));
    match d {
        Doc::Append(a, b) => {
            lemma_frames_measure_pair((i, m, *a), (i, m, *b), rest);
        },
        Doc::Nest(j, x) => {
            lemma_frames_measure_one((sat_add(i, j as nat), m, *x), rest);
        },
        Doc::Group(x) => {
            lemma_frames_measure_one((i, Mode::Flat, *x), rest);
            lemma_frames_measure_one((i, Mode::Broken, *x), rest);
            lemma_frames_measure_one((i, m, *x), rest);
        },
        Doc::Intersperse(items, sep) => {
            lemma_inter_chain_measure(items@, *sep);
            lemma_frames_measure_one((i, m, inter_chain(items@, *sep)), rest);
        },
        _ => {},
    }
}

/// `n` spaces.
pub open spec fn spaces(n: nat) -> Seq<char> {
    Seq::new(n, |j: int| ' ')
}

/// The text printed for the frames on `s`, at column `k` with target
/// width `w`. This is the renderer's full specification.
pub open spec fn be(w: int, k: nat, s: Seq<FrameV>) -> Seq<char>
    decreases frames_measure(s),
    via be_decreases
{
    if s.len() == 0 {
        Seq::empty()
    } else {
        let (i, m, d) = s[0];
        let rest = s.subrange(1, s.len() as int);
        match d {
            Doc::Nil => be(w, k, rest),
            Doc::Text(t) => t@ + be(w, sat_add(k, t@.len()), rest),
            Doc::Line => if m is Flat {
                seq![' '] + be(w, sat_add(k, 1), rest)
            } else {
                seq!['\n'] + spaces(i) + be(w, i, rest)
            },
            Doc::Append(a, b) => be(w, k, seq![(i, m, *a), (i, m, *b)] + rest),
            Doc::Nest(j, x) => be(w, k, seq![(sat_add(i, j as nat), m, *x)] + rest),
            Doc::Group(x) => if m is Flat {
                be(w, k, seq![(i, Mode::Flat, *x)] + rest)
            } else if fits(w - k, seq![(i, Mode::Flat, *x)] + rest) {
                be(w, k, seq![(i, Mode::Flat, *x)] + rest)
            } else {
                be(w, k, seq![(i, Mode::Broken, *x)] + rest)
            },
            Doc::Intersperse(items, sep) => be(w, k, seq![(i, m, inter_chain(items@, *sep))] + rest),
        }
    }
}

#[via_fn]
proof fn be_decreases(w: int, k: nat, s: Seq<FrameV>) {
    if s.len() > 0 {
        frames_step_measure(s);
    }
}

/// The text `render` produces for `d` at width `w`.
pub open spec fn rendered(d: Doc, w: int) -> Seq<char> {
    be(w, 0, seq![(0 as nat, Mode::Broken, d)])
}

/// Number of line breaks in a piece of output.
pub open spec fn count_breaks(s: Seq<char>) -> nat
    decreases s.len(),
{
    if s.len() == 0 {
        0
    } else {
        (if s[0] == '\n' {
            1 as nat
        } else {
            0 as nat
        }) + count_breaks(s.subrange(1, s.len() as int))
    }
}

pub proof fn lemma_count_breaks_concat(a: Seq<char>, b: Seq<char>)
    ensures
        count_breaks(a + b) == count_breaks(a) + count_breaks(b),
    decreases a.len(),
{
    if a.len() == 0 {
        assert(a + b =~= b);
    } else {
        assert((a + b)[0] == a[0]);
        assert((a + b).subrange(1, (a + b).len() as int) =~= a.subrange(1, a.len() as int) + b);
        lemma_count_breaks_concat(a.subrange(1, a.len() as int), b);
    }
}

/// Counts the line breaks in a rendered string.
pub fn count_newlines(s: &str) -> (n: usize)
    ensures
        n == count_breaks(s@),
{
    let len = s.unicode_len();
    let mut n: usize = 0;
    let mut i: usize = 0;
    while i < len
        invariant
            len == s@.len(),
            i <= len,
            n <= i,
            n == count_breaks(s@.subrange(0, i as int)),
        decreases len - i,
    {
        let c = s.get_char(i);
        proof {
            let pre = s@.subrange(0, i as int);
            let ext = s@.subrange(0, i + 1);
            assert(ext =~= pre + seq![s@[i as int]]);
            lemma_count_breaks_concat(pre, seq![s@[i as int]]);
            assert(seq![s@[i as int]].subrange(1, 1) =~= Seq::<char>::empty());
            assert(count_breaks(Seq::<char>::empty()) == 0);
            assert(seq![s@[i as int]][0] == s@[i as int]);
        }
        if c == '\n' {
            n = n + 1;
        }
        i = i + 1;
    }
    proof {
        assert(s@.subrange(0, len as int) =~= s@);
    }
    n
}

/// What remains of one document on the executable stack. `Chain` stands
/// for the tail of an `Intersperse`: the items from `at` on, separated by
/// `sep`. Its ghost meaning is the corresponding `inter_chain`.
#[derive(Clone, Copy)]
enum Task<'a> {
    Whole(&'a Doc),
    Chain(&'a Vec<Doc>, usize, &'a Doc),
}

spec fn task_doc<'a>(t: Task<'a>) -> Doc {
    match t {
        Task::Whole(d) => *d,
        Task::Chain(items, at, sep) => inter_chain(
            items@.subrange(at as int, items@.len() as int),
            *sep,
        ),
    }
}

spec fn task_ok<'a>(t: Task<'a>) -> bool {
    match t {
        Task::Whole(_d) => true,
        Task::Chain(items, at, _sep) => at < items@.len(),
    }
}

spec fn frame_view<'a>(f: (usize, Mode, Task<'a>)) -> FrameV {
    (f.0 as nat, f.1, task_doc(f.2))
}

/// The ghost frame list a stack stands for: the top of the stack is the
/// head of the list.
spec fn stack_view<'a>(v: Seq<(usize, Mode, Task<'a>)>) -> Seq<FrameV> {
    Seq::new(v.len(), |n: int| frame_view(v[v.len() - 1 - n]))
}

spec fn stack_ok<'a>(v: Seq<(usize, Mode, Task<'a>)>) -> bool {
    forall|n: int| 0 <= n < v.len() ==> task_ok((#[trigger] v[n]).2)
}

/// Second loop measure: rewriting a one-item `Chain` into `Whole` keeps
/// `frames_measure` unchanged, so that one step needs a tiebreaker.
spec fn top_pending<'a>(v: Seq<(usize, Mode, Task<'a>)>) -> int {
    if v.len() > 0 && (v[v.len() - 1].2 is Chain) {
        1
    } else {
        0
    }
}

proof fn lemma_stack_push<'a>(v: Seq<(usize, Mode, Task<'a>)>, f: (usize, Mode, Task<'a>))
    ensures
        stack_view(v.push(f)) =~= seq![frame_view(f)] + stack_view(v),
        stack_ok(v) && task_ok(f.2) ==> stack_ok(v.push(f)),
{
    assert forall|n: int| 0 <= n < v.push(f).len() implies stack_view(v.push(f))[n] == (
    seq![frame_view(f)] + stack_view(v))[n] by {
        if n > 0 {
            assert(v.push(f)[v.len() - n] == v[v.len() - n]);
        }
    }
    if stack_ok(v) && task_ok(f.2) {
        assert forall|n: int| 0 <= n < v.push(f).len() implies task_ok(
            (#[trigger] v.push(f)[n]).2,
        ) by {
            if n < v.len() {
                assert(v.push(f)[n] == v[n]);
            }
        }
    }
}

/// The frames that one unfolding step of an intersperse chain leaves on
/// the ghost stack: the first item, then the separator, then the rest of
/// the chain.
spec fn chain_expansion(i: nat, m: Mode, items: Seq<Doc>, sep: Doc) -> Seq<FrameV> {
    if items.len() == 0 {
        Seq::empty()
    } else if items.len() == 1 {
        seq![(i, m, items[0])]
    } else {
        seq![
            (i, m, items[0]),
            (i, m, sep),
            (i, m, inter_chain(items.subrange(1, items.len() as int), sep)),
        ]
    }
}

proof fn lemma_chain_unfold_fits(
    r: int,
    i: nat,
    m: Mode,
    items: Seq<Doc>,
    sep: Doc,
    rest: Seq<FrameV>,
)
    ensures
        fits(r, seq![(i, m, inter_chain(items, sep))] + rest) == fits(
            r,
            chain_expansion(i, m, items, sep) + rest,
        ),
{
    let chain = inter_chain(items, sep);
    let s0 = seq![(i, m, chain)] + rest;
    assert(s0[0] == (i, m, chain));
    assert(s0.subrange(1, s0.len() as int) =~= rest);
    if items.len() == 0 {
        assert(chain_expansion(i, m, items, sep) + rest =~= rest);
    } else if items.len() == 1 {
        assert(chain_expansion(i, m, items, sep) + rest =~= s0);
    } else {
        let d0 = items[0];
        let tail = inter_chain(items.subrange(1, items.len() as int), sep);
        let head = Doc::Append(Box::new(d0), Box::new(sep));
        assert(chain == Doc::Append(Box::new(head), Box::new(tail)));
        let s1 = seq![(i, m, head), (i, m, tail)] + rest;
        assert(fits(r, s0) == fits(r, s1));
        assert(s1[0] == (i, m, head));
        assert(s1.subrange(1, s1.len() as int) =~= seq![(i, m, tail)] + rest);
        let s2 = seq![(i, m, d0), (i, m, sep)] + (seq![(i, m, tail)] + rest);
        assert(fits(r, s1) == fits(r, s2));
        assert(s2 =~= chain_expansion(i, m, items, sep) + rest);
    }
}

proof fn lemma_chain_unfold_be(
    w: int,
    k: nat,
    i: nat,
    m: Mode,
    items: Seq<Doc>,
    sep: Doc,
    rest: Seq<FrameV>,
)
    ensures
        be(w, k, seq![(i, m, inter_chain(items, sep))] + rest) == be(
            w,
            k,
            chain_expansion(i, m, items, sep) + rest,
        ),
{
    let chain = inter_chain(items, sep);
    let s0 = seq![(i, m, chain)] + rest;
    assert(s0[0] == (i, m, chain));
    assert(s0.subrange(1, s0.len() as int) =~= rest);
    if items.len() == 0 {
        assert(chain_expansion(i, m, items, sep) + rest =~= rest);
    } else if items.len() == 1 {
        assert(chain_expansion(i, m, items, sep) + rest =~= s0);
    } else {
        let d0 = items[0];
        let tail = inter_chain(items.subrange(1, items.len() as int), sep);
        let head = Doc::Append(Box::new(d0), Box::new(sep));
        assert(chain == Doc::Append(Box::new(head), Box::new(tail)));
        let s1 = seq![(i, m, head), (i, m, tail)] + rest;
        assert(be(w, k, s0) == be(w, k, s1));
        assert(s1[0] == (i, m, head));
        assert(s1.subrange(1, s1.len() as int) =~= seq![(i, m, tail)] + rest);
        let s2 = seq![(i, m, d0), (i, m, sep)] + (seq![(i, m, tail)] + rest);
        assert(be(w, k, s1) == be(w, k, s2));
        assert(s2 =~= chain_expansion(i, m, items, sep) + rest);
    }
}

proof fn lemma_chain_expansion_measure(
    i: nat,
    m: Mode,
    items: Seq<Doc>,
    sep: Doc,
    rest: Seq<FrameV>,
)
    ensures
        frames_measure(chain_expansion(i, m, items, sep) + rest) <= frames_measure(
            seq![(i, m, inter_chain(items, sep))] + rest,
        ),
        items.len() != 1 ==> frames_measure(chain_expansion(i, m, items, sep) + rest)
            < frames_measure(seq![(i, m, inter_chain(items, sep))] + rest),
{
    let chain = inter_chain(items, sep);
    lemma_frames_measure_one((i, m, chain), rest);
    if items.len() == 0 {
        assert(chain_expansion(i, m, items, sep) + rest =~= rest);
    } else if items.len() == 1 {
        assert(chain_expansion(i, m, items, sep) + rest =~= seq![(i, m, chain)] + rest);
    } else {
        reveal_with_fuel(doc_measure, 3);
        let d0 = items[0];
        let tail = inter_chain(items.subrange(1, items.len() as int), sep);
        let f0 = (i, m, d0);
        let f1 = (i, m, sep);
        let f2 = (i, m, tail);
        assert(chain_expansion(i, m, items, sep) + rest =~= seq![f0] + (seq![f1] + (seq![f2]
            + rest)));
        lemma_frames_measure_one(f2, rest);
        lemma_frames_measure_one(f1, seq![f2] + rest);
        lemma_frames_measure_one(f0, seq![f1] + (seq![f2] + rest));
        assert(doc_measure(chain) == 2 + doc_measure(d0) + doc_measure(sep) + doc_measure(tail));
    }
}

/// Pushes the frames for the tail `items[at..]` of an intersperse chain,
/// so that the stack stands for one unfolding step of that chain.
fn push_tail_frames<'a>(
    work: &mut Vec<(usize, Mode, Task<'a>)>,
    i: usize,
    m: Mode,
    items: &'a Vec<Doc>,
    at: usize,
    sep: &'a Doc,
)
    requires
        at < items@.len(),
        stack_ok(old(work)@),
    ensures
        stack_ok(final(work)@),
        stack_view(final(work)@) == chain_expansion(
            i as nat,
            m,
            items@.subrange(at as int, items@.len() as int),
            *sep,
        ) + stack_view(old(work)@),
        top_pending(final(work)@) == 0,
{
    let ghost sub = items@.subrange(at as int, items@.len() as int);
    let n = items.len();
    if at + 1 == n {
        let fr = (i, m, Task::Whole(&items[at]));
        let ghost v0 = work@;
        work.push(fr);
        proof {
            lemma_stack_push(v0, fr);
            assert(sub[0] == items@[at as int]);
            assert(frame_view(fr) == (i as nat, m, sub[0]));
            assert(stack_view(work@) =~= chain_expansion(i as nat, m, sub, *sep) + stack_view(v0));
            assert(work@[work@.len() - 1] == fr);
        }
    } else {
        let fr1 = (i, m, Task::Chain(items, at + 1, sep));
        let fr2 = (i, m, Task::Whole(sep));
        let fr3 = (i, m, Task::Whole(&items[at]));
        let ghost v0 = work@;
        work.push(fr1);
        let ghost v1 = work@;
        work.push(fr2);
        let ghost v2 = work@;
        work.push(fr3);
        proof {
            lemma_stack_push(v0, fr1);
            lemma_stack_push(v1, fr2);
            lemma_stack_push(v2, fr3);
            assert(sub[0] == items@[at as int]);
            assert(sub.subrange(1, sub.len() as int) =~= items@.subrange(
                at as int + 1,
                items@.len() as int,
            ));
            assert(task_doc(fr1.2) == inter_chain(sub.subrange(1, sub.len() as int), *sep));
            assert(stack_view(work@) =~= chain_expansion(i as nat, m, sub, *sep) + stack_view(v0));
            assert(work@[work@.len() - 1] == fr3);
        }
    }
}

/// Decides whether `first`, followed by the frames still on `rest`, fits
/// in the room the current column leaves on the line.
fn fits_from<'a>(
    width: usize,
    col: usize,
    first: (usize, Mode, Task<'a>),
    rest: &Vec<(usize, Mode, Task<'a>)>,
) -> (b: bool)
    requires
        task_ok(first.2),
        stack_ok(rest@),
    ensures
        b == fits(width as int - col as int, seq![frame_view(first)] + stack_view(rest@)),
{
    let ghost whole = seq![frame_view(first)] + stack_view(rest@);
    if col > width {
        return false;
    }
    let mut rem: usize = width - col;
    let mut work: Vec<(usize, Mode, Task<'a>)> = Vec::new();
    let mut j: usize = 0;
    while j < rest.len()
        invariant
            j <= rest@.len(),
            work@ == rest@.subrange(0, j as int),
        decreases rest@.len() - j,
    {
        let fr = rest[j];
        work.push(fr);
        proof {
            assert(rest@.subrange(0, j as int).push(rest@[j as int]) =~= rest@.subrange(
                0,
                j as int + 1,
            ));
        }
        j = j + 1;
    }
    proof {
        assert(rest@.subrange(0, rest@.len() as int) =~= rest@);
    }
    let ghost vr = work@;
    work.push(first);
    proof {
        lemma_stack_push(vr, first);
        assert(stack_view(work@) =~= whole);
    }
    while work.len() != 0
        invariant
            stack_ok(work@),
            whole == seq![frame_view(first)] + stack_view(rest@),
            fits(width as int - col as int, whole) == fits(rem as int, stack_view(work@)),
        decreases frames_measure(stack_view(work@)), top_pending(work@),
    {
        let ghost vpre = work@;
        let ghost pre = stack_view(work@);
        let ghost rem0 = rem as int;
        let f = work.pop().unwrap();
        proof {
            assert(vpre =~= work@.push(f));
            lemma_stack_push(work@, f);
            assert(pre =~= seq![frame_view(f)] + stack_view(work@));
            assert(pre[0] == frame_view(f));
            assert(pre.subrange(1, pre.len() as int) =~= stack_view(work@));
            frames_step_measure(pre);
        }
        let ghost restv = stack_view(work@);
        let i = f.0;
        let m = f.1;
        match f.2 {
            Task::Whole(dd) => match dd {
                Doc::Nil => {
                    proof {
                        assert(fits(rem0, pre) == fits(rem0, restv));
                    }
                },
                Doc::Text(t) => {
                    let l: usize = t.as_str().unicode_len();
                    proof {
                        assert(fits(rem0, pre) == fits(rem0 - l, restv));
                    }
                    if l > rem {
                        proof {
                            assert(fits(rem0 - l, restv) == false);
                        }
                        return false;
                    }
                    rem = rem - l;
                },
                Doc::Line => {
                    match m {
                        Mode::Flat => {
                            proof {
                                assert(fits(rem0, pre) == fits(rem0 - 1, restv));
                            }
                            if rem == 0 {
                                proof {
                                    assert(fits(rem0 - 1, restv) == false);
                                }
                                return false;
                            }
                            rem = rem - 1;
                        },
                        Mode::Broken => {
                            proof {
                                assert(fits(rem0, pre) == true);
                            }
                            return true;
                        },
                    }
                },
                Doc::Append(a, b) => {
                    let fr1 = (i, m, Task::Whole(&**b));
                    let fr2 = (i, m, Task::Whole(&**a));
                    let ghost v0 = work@;
                    work.push(fr1);
                    let ghost v1 = work@;
                    work.push(fr2);
                    proof {
                        lemma_stack_push(v0, fr1);
                        lemma_stack_push(v1, fr2);
                        assert(stack_view(work@) =~= seq![(i as nat, m, **a), (i as nat, m, **b)]
                            + restv);
                        assert(fits(rem0, pre) == fits(rem0, stack_view(work@)));
                    }
                },
                Doc::Nest(j2, x) => {
                    let ni = i.saturating_add(*j2);
                    let fr = (ni, m, Task::Whole(&**x));
                    let ghost v0 = work@;
                    work.push(fr);
                    proof {
                        lemma_stack_push(v0, fr);
                        assert(ni as nat == sat_add(i as nat, *j2 as nat));
                        assert(stack_view(work@) =~= seq![(sat_add(i as nat, *j2 as nat), m, **x)]
                            + restv);
                        assert(fits(rem0, pre) == fits(rem0, stack_view(work@)));
                    }
                },
                Doc::Group(x) => {
                    let fr = (i, m, Task::Whole(&**x));
                    let ghost v0 = work@;
                    work.push(fr);
                    proof {
                        lemma_stack_push(v0, fr);
                        assert(stack_view(work@) =~= seq![(i as nat, m, **x)] + restv);
                        assert(fits(rem0, pre) == fits(rem0, stack_view(work@)));
                    }
                },
                Doc::Intersperse(items, sep) => {
                    if items.len() > 0 {
                        push_tail_frames(&mut work, i, m, items, 0, &**sep);
                    }
                    proof {
                        assert(items@.subrange(0, items@.len() as int) =~= items@);
                        lemma_chain_unfold_fits(rem0, i as nat, m, items@, **sep, restv);
                        lemma_chain_expansion_measure(i as nat, m, items@, **sep, restv);
                        lemma_frames_measure_one((i as nat, m, inter_chain(items@, **sep)), restv);
                        if items@.len() == 0 {
                            assert(stack_view(work@) =~= chain_expansion(
                                i as nat,
                                m,
                                items@,
                                **sep,
                            ) + restv);
                        }
                        assert(fits(rem0, pre) == fits(rem0, stack_view(work@)));
                    }
                },
            },
            Task::Chain(items, at, sep) => {
                let ghost sub = items@.subrange(at as int, items@.len() as int);
                push_tail_frames(&mut work, i, m, items, at, sep);
                proof {
                    assert(task_doc(f.2) == inter_chain(sub, *sep));
                    assert(pre =~= seq![(i as nat, m, inter_chain(sub, *sep))] + restv);
                    lemma_chain_unfold_fits(rem0, i as nat, m, sub, *sep, restv);
                    lemma_chain_expansion_measure(i as nat, m, sub, *sep, restv);
                    assert(fits(rem0, pre) == fits(rem0, stack_view(work@)));
                }
            },
        }
    }
    true
}

/// Renders `d` to text at target width `width`.
///
/// This is the library's sole output-producing entry point. The result is
/// exactly the text that the ghost renderer `rendered` assigns to `d`:
/// deterministic, side-effect free, and total for every document.
pub fn render(d: &Doc, width: usize) -> (out: String)
    ensures
        out@ == rendered(*d, width as int),
{
    let mut out = String::new();
    let mut col: usize = 0;
    let mut stack: Vec<(usize, Mode, Task<'_>)> = Vec::new();
    let ghost v_empty = stack@;
    let fr0 = (0usize, Mode::Broken, Task::Whole(d));
    stack.push(fr0);
    proof {
        lemma_stack_push(v_empty, fr0);
        assert(stack_view(v_empty) =~= Seq::<FrameV>::empty());
        assert(stack_view(stack@) =~= seq![(0 as nat, Mode::Broken, *d)]);
    }
    while stack.len() != 0
        invariant
            stack_ok(stack@),
            out@ + be(width as int, col as nat, stack_view(stack@)) == rendered(
                *d,
                width as int,
            ),
        decreases frames_measure(stack_view(stack@)), top_pending(stack@),
    {
        let ghost vpre = stack@;
        let ghost pre = stack_view(stack@);
        let ghost k0 = col as nat;
        let ghost out0 = out@;
        let w = width;
        let f = stack.pop().unwrap();
        proof {
            assert(vpre =~= stack@.push(f));
            lemma_stack_push(stack@, f);
            assert(pre =~= seq![frame_view(f)] + stack_view(stack@));
            assert(pre[0] == frame_view(f));
            assert(pre.subrange(1, pre.len() as int) =~= stack_view(stack@));
            frames_step_measure(pre);
        }
        let ghost restv = stack_view(stack@);
        let i = f.0;
        let m = f.1;
        match f.2 {
            Task::Whole(dd) => match dd {
                Doc::Nil => {
                    proof {
                        assert(be(w as int, k0, pre) == be(w as int, k0, restv));
                    }
                },
                Doc::Text(t) => {
                    out.append(t.as_str());
                    let l: usize = t.as_str().unicode_len();
                    col = col.saturating_add(l);
                    proof {
                        assert(be(w as int, k0, pre) == t@ + be(
                            w as int,
                            sat_add(k0, t@.len()),
                            restv,
                        ));
                        assert(col as nat == sat_add(k0, t@.len()));
                        assert((out0 + t@) + be(w as int, col as nat, restv) =~= out0 + (t@ + be(
                            w as int,
                            col as nat,
                            restv,
                        )));
                    }
                },
                Doc::Line => {
                    match m {
                        Mode::Flat => {
                            out.append(" ");
                            col = col.saturating_add(1);
                            proof {
                                reveal_strlit(" ");
                                assert(" "@ =~= seq![' ']);
                                assert(be(w as int, k0, pre) == seq![' '] + be(
                                    w as int,
                                    sat_add(k0, 1),
                                    restv,
                                ));
                                assert((out0 + seq![' ']) + be(w as int, col as nat, restv) =~= out0
                                    + (seq![' '] + be(w as int, col as nat, restv)));
                            }
                        },
                        Mode::Broken => {
                            out.append("\n");
                            proof {
                                reveal_strlit("\n");
                                assert("\n"@ =~= seq!['\n']);
                            }
                            let ghost outn = out@;
                            proof {
                                assert(spaces(0) =~= Seq::<char>::empty());
                                assert(outn + spaces(0) =~= outn);
                            }
                            let mut sp: usize = 0;
                            while sp < i
                                invariant
                                    sp <= i,
                                    out@ == outn + spaces(sp as nat),
                                decreases i - sp,
                            {
                                out.append(" ");
                                proof {
                                    reveal_strlit(" ");
                                    assert(" "@ =~= seq![' ']);
                                    assert((outn + spaces(sp as nat)) + seq![' '] =~= outn + spaces(
                                        (sp + 1) as nat,
                                    ));
                                }
                                sp = sp + 1;
                            }
                            col = i;
                            proof {
                                assert(be(w as int, k0, pre) == seq!['\n'] + spaces(i as nat) + be(
                                    w as int,
                                    i as nat,
                                    restv,
                                ));
                                assert(out@ =~= out0 + (seq!['\n'] + spaces(i as nat)));
                                assert(out@ + be(w as int, col as nat, restv) =~= out0 + (seq![
                                    '\n',
                                ] + spaces(i as nat) + be(w as int, i as nat, restv)));
                            }
                        },
                    }
                },
                Doc::Append(a, b) => {
                    let fr1 = (i, m, Task::Whole(&**b));
                    let fr2 = (i, m, Task::Whole(&**a));
                    let ghost v0 = stack@;
                    stack.push(fr1);
                    let ghost v1 = stack@;
                    stack.push(fr2);
                    proof {
                        lemma_stack_push(v0, fr1);
                        lemma_stack_push(v1, fr2);
                        assert(stack_view(stack@) =~= seq![(i as nat, m, **a), (i as nat, m, **b)]
                            + restv);
                        assert(be(w as int, k0, pre) == be(w as int, k0, stack_view(stack@)));
                    }
                },
                Doc::Nest(j2, x) => {
                    let ni = i.saturating_add(*j2);
                    let fr = (ni, m, Task::Whole(&**x));
                    let ghost v0 = stack@;
                    stack.push(fr);
                    proof {
                        lemma_stack_push(v0, fr);
                        assert(ni as nat == sat_add(i as nat, *j2 as nat));
                        assert(stack_view(stack@) =~= seq![(sat_add(i as nat, *j2 as nat), m, **x)]
                            + restv);
                        assert(be(w as int, k0, pre) == be(w as int, k0, stack_view(stack@)));
                    }
                },
                Doc::Group(x) => {
                    match m {
                        Mode::Flat => {
                            let fr = (i, Mode::Flat, Task::Whole(&**x));
                            let ghost v0 = stack@;
                            stack.push(fr);
                            proof {
                                lemma_stack_push(v0, fr);
                                assert(stack_view(stack@) =~= seq![(i as nat, Mode::Flat, **x)]
                                    + restv);
                                assert(be(w as int, k0, pre) == be(
                                    w as int,
                                    k0,
                                    stack_view(stack@),
                                ));
                            }
                        },
                        Mode::Broken => {
                            let cand = (i, Mode::Flat, Task::Whole(&**x));
                            if fits_from(w, col, cand, &stack) {
                                let ghost v0 = stack@;
                                stack.push(cand);
                                proof {
                                    lemma_stack_push(v0, cand);
                                    assert(stack_view(stack@) =~= seq![(i as nat, Mode::Flat, **x)]
                                        + restv);
                                    assert(fits(
                                        w as int - col as int,
                                        seq![(i as nat, Mode::Flat, **x)] + restv,
                                    ));
                                    assert(be(w as int, k0, pre) == be(
                                        w as int,
                                        k0,
                                        stack_view(stack@),
                                    ));
                                }
                            } else {
                                let fr = (i, Mode::Broken, Task::Whole(&**x));
                                let ghost v0 = stack@;
                                stack.push(fr);
                                proof {
                                    lemma_stack_push(v0, fr);
                                    assert(stack_view(stack@) =~= seq![
                                        (i as nat, Mode::Broken, **x),
                                    ] + restv);
                                    assert(!fits(
                                        w as int - col as int,
                                        seq![(i as nat, Mode::Flat, **x)] + restv,
                                    ));
                                    assert(be(w as int, k0, pre) == be(
                                        w as int,
                                        k0,
                                        stack_view(stack@),
                                    ));
                                }
                            }
                        },
                    }
                },
                Doc::Intersperse(items, sep) => {
                    if items.len() > 0 {
                        push_tail_frames(&mut stack, i, m, items, 0, &**sep);
                    }
                    proof {
                        assert(items@.subrange(0, items@.len() as int) =~= items@);
                        lemma_chain_unfold_be(w as int, k0, i as nat, m, items@, **sep, restv);
                        lemma_chain_expansion_measure(i as nat, m, items@, **sep, restv);
                        lemma_frames_measure_one((i as nat, m, inter_chain(items@, **sep)), restv);
                        if items@.len() == 0 {
                            assert(stack_view(stack@) =~= chain_expansion(
                                i as nat,
                                m,
                                items@,
                                **sep,
                            ) + restv);
                        }
                        assert(be(w as int, k0, pre) == be(w as int, k0, stack_view(stack@)));
                    }
                },
            },
            Task::Chain(items, at, sep) => {
                let ghost sub = items@.subrange(at as int, items@.len() as int);
                push_tail_frames(&mut stack, i, m, items, at, sep);
                proof {
                    assert(task_doc(f.2) == inter_chain(sub, *sep));
                    assert(pre =~= seq![(i as nat, m, inter_chain(sub, *sep))] + restv);
                    lemma_chain_unfold_be(w as int, k0, i as nat, m, sub, *sep, restv);
                    lemma_chain_expansion_measure(i as nat, m, sub, *sep, restv);
                    assert(be(w as int, k0, pre) == be(w as int, k0, stack_view(stack@)));
                }
            },
        }
    }
    proof {
        assert(stack_view(stack@) =~= Seq::<FrameV>::empty());
        assert(be(width as int, col as nat, Seq::<FrameV>::empty()) =~= Seq::<char>::empty());
        assert(out@ + Seq::<char>::empty() =~= out@);
    }
    out
}

} // verus!

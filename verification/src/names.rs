//! Display names derived from type, variant and field identifiers.
//!
//! Identifiers are expected to be ASCII, as Rust-style type and field names
//! are: `DropDatabaseStatement` becomes `DROP DATABASE`, `if_exists`
//! becomes `IF EXISTS`. A trailing `Statement` (or plural `sStatement`) is
//! dropped, the rest is split before every uppercase letter, the pieces are
//! joined with spaces, underscores become spaces, and ASCII lowercase
//! letters are raised to uppercase.

use vstd::prelude::*;
use vstd::string::StrSliceExecFns;
use vstd::string::StringExecFns;

verus! {

/// Whether `s` ends with `suffix`.
pub open spec fn ends_with(s: Seq<char>, suffix: Seq<char>) -> bool {
    s.len() >= suffix.len() && s.subrange(s.len() - suffix.len(), s.len() as int) == suffix
}

/// `s` with every copy of `suffix` removed from its end.
pub open spec fn trim_suffix_all(s: Seq<char>, suffix: Seq<char>) -> Seq<char>
    decreases s.len(),
{
    if suffix.len() > 0 && ends_with(s, suffix) {
        trim_suffix_all(s.subrange(0, s.len() - suffix.len()), suffix)
    } else {
        s
    }
}

/// The statement-name stem: first every trailing `sStatement`, then every
/// trailing `Statement`, is removed.
pub open spec fn stmt_trimmed(s: Seq<char>) -> Seq<char> {
    trim_suffix_all(trim_suffix_all(s, "sStatement"@), "Statement"@)
}

/// ASCII uppercase letters.
pub open spec fn is_upper(c: char) -> bool {
    65 <= (c as u32) && (c as u32) <= 90
}

/// ASCII lowercase raised to uppercase; everything else unchanged.
pub open spec fn to_upper(c: char) -> char {
    if 97 <= (c as u32) && (c as u32) <= 122 {
        ((c as u32) - 32) as char
    } else {
        c
    }
}

/// The character a display name keeps for `c`: underscores become spaces,
/// lowercase letters become uppercase.
pub open spec fn subst_char(c: char) -> char {
    if c == '_' {
        ' '
    } else {
        to_upper(c)
    }
}

/// The positions below `n` (never position 0) where an uppercase letter
/// starts a new word.
pub open spec fn upper_positions(s: Seq<char>, n: int) -> Seq<int>
    decreases n,
{
    if n <= 1 {
        Seq::empty()
    } else {
        upper_positions(s, n - 1) + (if is_upper(s[n - 1]) {
            seq![n - 1]
        } else {
            Seq::empty()
        })
    }
}

/// The `j`-th cut of a split: 0, then the word-start positions, then `n`.
pub open spec fn cut_at(ps: Seq<int>, n: int, j: int) -> int {
    if j <= 0 {
        0
    } else if j <= ps.len() {
        ps[j - 1]
    } else {
        n
    }
}

/// The pieces `split_upper` returns: `s` cut before every uppercase
/// letter except a leading one.
pub open spec fn split_upper_spec(s: Seq<char>) -> Seq<Seq<char>> {
    let n = s.len() as int;
    let ps = upper_positions(s, n);
    Seq::new(ps.len() + 1, |j: int| s.subrange(cut_at(ps, n, j), cut_at(ps, n, j + 1)))
}

/// The display-name text for the trimmed identifier `s`, up to position
/// `n`: each character substituted, with a space inserted before every
/// uppercase letter except a leading one.
pub open spec fn fmt_chars(s: Seq<char>, n: int) -> Seq<char>
    decreases n,
{
    if n <= 0 {
        Seq::empty()
    } else {
        fmt_chars(s, n - 1) + (if n - 1 >= 1 && is_upper(s[n - 1]) {
            seq![' ']
        } else {
            Seq::empty()
        }) + seq![subst_char(s[n - 1])]
    }
}

/// What `fmt_ident` returns: the trimmed identifier, space-separated at
/// word starts, underscores as spaces, raised to uppercase.
pub open spec fn fmt_ident_spec(s: Seq<char>) -> Seq<char> {
    fmt_chars(stmt_trimmed(s), stmt_trimmed(s).len() as int)
}

/// Character-wise string equality.
pub fn str_eq(a: &str, b: &str) -> (r: bool)
    ensures
        r == (a@ == b@),
{
    let n = a.unicode_len();
    let k = b.unicode_len();
    if n != k {
        proof {
            assert(a@ != b@);
        }
        return false;
    }
    let mut j: usize = 0;
    while j < n
        invariant
            n == a@.len(),
            n == b@.len(),
            j <= n,
            forall|t: int| 0 <= t < j ==> a@[t] == b@[t],
        decreases n - j,
    {
        if a.get_char(j) != b.get_char(j) {
            return false;
        }
        j = j + 1;
    }
    proof {
        assert(a@ =~= b@);
    }
    true
}

/// Whether `s` ends with `suffix`, character for character.
fn str_ends_with(s: &str, suffix: &str) -> (b: bool)
    ensures
        b == ends_with(s@, suffix@),
{
    let n = s.unicode_len();
    let k = suffix.unicode_len();
    if k > n {
        return false;
    }
    let mut j: usize = 0;
    while j < k
        invariant
            n == s@.len(),
            k == suffix@.len(),
            k <= n,
            j <= k,
            forall|t: int| 0 <= t < j ==> s@[n - k + t] == suffix@[t],
        decreases k - j,
    {
        if s.get_char(n - k + j) != suffix.get_char(j) {
            proof {
                if ends_with(s@, suffix@) {
                    assert(s@.subrange(n - k, n as int)[j as int] == suffix@[j as int]);
                }
            }
            return false;
        }
        j = j + 1;
    }
    proof {
        assert(s@.subrange(n - k, n as int) =~= suffix@);
    }
    true
}

/// Removes every copy of `suffix` from the end of `s`.
fn trim_all<'a>(s: &'a str, suffix: &str) -> (r: &'a str)
    requires
        suffix@.len() > 0,
    ensures
        r@ == trim_suffix_all(s@, suffix@),
{
    let mut cur: &'a str = s;
    loop
        invariant
            suffix@.len() > 0,
            trim_suffix_all(cur@, suffix@) == trim_suffix_all(s@, suffix@),
        ensures
            cur@ == trim_suffix_all(s@, suffix@),
        decreases cur@.len(),
    {
        if !str_ends_with(cur, suffix) {
            proof {
                assert(trim_suffix_all(cur@, suffix@) == cur@);
            }
            break;
        }
        let n = cur.unicode_len();
        let k = suffix.unicode_len();
        cur = cur.substring_char(0, n - k);
    }
    cur
}

/// Drops a trailing `sStatement`, then a trailing `Statement`, from a type
/// name, as many times as either occurs.
pub fn truncate_stmt_suffix(s: &str) -> (r: &str)
    ensures
        r@ == stmt_trimmed(s@),
{
    proof {
        reveal_strlit("sStatement");
        reveal_strlit("Statement");
    }
    let t1 = trim_all(s, "sStatement");
    trim_all(t1, "Statement")
}

fn is_upper_char(c: char) -> (b: bool)
    ensures
        b == is_upper(c),
{
    let u: u32 = c as u32;
    65 <= u && u <= 90
}

fn subst_char_exec(c: char) -> (r: char)
    ensures
        r == subst_char(c),
{
    if c == '_' {
        ' '
    } else {
        let u: u32 = c as u32;
        if 97 <= u && u <= 122 {
            ((u - 32) as u8) as char
        } else {
            c
        }
    }
}

/// Relies on `String::push` of std: it appends the given character to the
/// end of the string.
#[verifier::external_body]
fn push_char(s: &mut String, c: char)
    ensures
        final(s)@ == old(s)@.push(c),
{
    s.push(c)
}

/// Splits `s` before every uppercase letter except a leading one.
///
/// The pieces concatenate back to `s`; consecutive uppercase letters give
/// one-letter pieces.
pub fn split_upper<'a>(s: &'a str) -> (r: Vec<&'a str>)
    ensures
        r.deep_view() == split_upper_spec(s@),
{
    let n = s.unicode_len();
    let mut ps: Vec<usize> = Vec::new();
    let mut i: usize = 1;
    while i < n
        invariant
            n == s@.len(),
            1 <= i,
            n > 1 ==> i <= n,
            n <= 1 ==> i == 1,
            ps@.map_values(|u: usize| u as int) == upper_positions(s@, i as int),
            forall|t: int| 0 <= t < ps@.len() ==> 1 <= #[trigger] ps@[t] && ps@[t] < i,
            forall|t1: int, t2: int|
                0 <= t1 < t2 < ps@.len() ==> #[trigger] ps@[t1] < #[trigger] ps@[t2],
        decreases n - i,
    {
        let c = s.get_char(i);
        if is_upper_char(c) {
            let ghost old_ps = ps@;
            ps.push(i);
            proof {
                assert(ps@.map_values(|u: usize| u as int) =~= old_ps.map_values(
                    |u: usize| u as int,
                ).push(i as int));
                assert(upper_positions(s@, i as int + 1) =~= upper_positions(s@, i as int).push(
                    i as int,
                ));
            }
        } else {
            proof {
                assert(upper_positions(s@, i as int + 1) =~= upper_positions(s@, i as int));
            }
        }
        i = i + 1;
    }
    proof {
        if n <= 1 {
            assert(upper_positions(s@, n as int) =~= Seq::<int>::empty());
            assert(upper_positions(s@, i as int) =~= Seq::<int>::empty());
        }
        assert(ps@.map_values(|u: usize| u as int) == upper_positions(s@, n as int));
    }
    let ghost psv = upper_positions(s@, n as int);
    let mut out: Vec<&'a str> = Vec::new();
    let mut prev: usize = 0;
    let mut j: usize = 0;
    while j < ps.len()
        invariant
            n == s@.len(),
            psv == upper_positions(s@, n as int),
            ps@.map_values(|u: usize| u as int) == psv,
            forall|t: int| 0 <= t < ps@.len() ==> 1 <= #[trigger] ps@[t] && ps@[t] < n,
            forall|t1: int, t2: int|
                0 <= t1 < t2 < ps@.len() ==> #[trigger] ps@[t1] < #[trigger] ps@[t2],
            j <= ps@.len(),
            out@.len() == j,
            prev as int == cut_at(psv, n as int, j as int),
            prev <= n,
            forall|t: int|
                0 <= t < j ==> (#[trigger] out@[t])@ == s@.subrange(
                    cut_at(psv, n as int, t),
                    cut_at(psv, n as int, t + 1),
                ),
        decreases ps@.len() - j,
    {
        let c = ps[j];
        proof {
            assert(ps@[j as int] as int == psv[j as int]);
            assert(prev <= c) by {
                if j > 0 {
                    assert(ps@[j as int - 1] < ps@[j as int]);
                }
            }
        }
        let piece = s.substring_char(prev, c);
        let ghost out_pre = out@;
        out.push(piece);
        proof {
            assert(cut_at(psv, n as int, j as int + 1) == c as int);
            assert forall|t: int| 0 <= t < j + 1 implies (#[trigger] out@[t])@ == s@.subrange(
                cut_at(psv, n as int, t),
                cut_at(psv, n as int, t + 1),
            ) by {
                if t < j {
                    assert(out@[t] == out_pre[t]);
                } else {
                    assert(out@[t] == piece);
                }
            }
        }
        prev = c;
        j = j + 1;
    }
    let piece = s.substring_char(prev, n);
    let ghost out_pre = out@;
    out.push(piece);
    proof {
        assert(cut_at(psv, n as int, psv.len() as int + 1) == n as int);
        assert forall|t: int| 0 <= t < out@.len() implies #[trigger] out.deep_view()[t]
            == split_upper_spec(s@)[t] by {
            assert(out.deep_view()[t] == out@[t]@);
            if t < psv.len() {
                assert(out@[t] == out_pre[t]);
            } else {
                assert(out@[t] == piece);
            }
        }
        assert(out.deep_view() =~= split_upper_spec(s@));
    }
    out
}

/// Derives the display name of an identifier: the trimmed name is split
/// at word starts, joined with spaces, underscores become spaces, and
/// everything is raised to uppercase.
pub fn fmt_ident(s: &str) -> (r: String)
    ensures
        r@ == fmt_ident_spec(s@),
{
    let t = truncate_stmt_suffix(s);
    let n = t.unicode_len();
    let mut out = String::new();
    let mut i: usize = 0;
    while i < n
        invariant
            n == t@.len(),
            t@ == stmt_trimmed(s@),
            i <= n,
            out@ == fmt_chars(t@, i as int),
        decreases n - i,
    {
        let c = t.get_char(i);
        let ghost out_pre = out@;
        if i >= 1 && is_upper_char(c) {
            out.append(" ");
            proof {
                reveal_strlit(" ");
                assert(" "@ =~= seq![' ']);
            }
        }
        push_char(&mut out, subst_char_exec(c));
        proof {
            if i >= 1 && is_upper(t@[i as int]) {
                assert(out@ =~= out_pre + seq![' '] + seq![subst_char(t@[i as int])]);
            } else {
                assert(out@ =~= out_pre + Seq::<char>::empty() + seq![subst_char(t@[i as int])]);
            }
            assert(out@ == fmt_chars(t@, i as int + 1));
        }
        i = i + 1;
    }
    out
}

} // verus!

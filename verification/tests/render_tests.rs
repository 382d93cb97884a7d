use astdisplay::doc::{BuildError, Doc};
use astdisplay::render::{count_newlines, render};

fn txt(s: &str) -> Doc {
    Doc::text(String::from(s)).unwrap()
}

#[test]
fn text_rejects_newline() {
    match Doc::text(String::from("a\nb")) {
        Err(e) => assert_eq!(e, BuildError::MalformedText),
        Ok(_) => panic!("text with a newline must be rejected"),
    }
    assert!(Doc::text(String::from("plain")).is_ok());
}

#[test]
fn renders_plain_text() {
    let d = txt("SELECT");
    assert_eq!(render(&d, 80), "SELECT");
    assert_eq!(render(&d, 0), "SELECT");
}

#[test]
fn nil_renders_empty() {
    assert_eq!(render(&Doc::nil(), 10), "");
}

#[test]
fn top_level_line_always_breaks() {
    let d = Doc::append(txt("a"), Doc::append(Doc::line(), txt("b")));
    assert_eq!(render(&d, 80), "a\nb");
}

#[test]
fn group_flattens_when_it_fits() {
    let d = Doc::group(Doc::append(txt("a"), Doc::append(Doc::line(), txt("b"))));
    assert_eq!(render(&d, 80), "a b");
    assert_eq!(render(&d, 3), "a b");
    assert_eq!(render(&d, 2), "a\nb");
}

#[test]
fn nest_indents_broken_lines_only() {
    let inner = Doc::append(txt("head"), Doc::append(Doc::line(), txt("tail")));
    let d = Doc::group(Doc::nest(4, inner));
    assert_eq!(render(&d, 80), "head tail");
    assert_eq!(render(&d, 5), "head\n    tail");
}

#[test]
fn intersperse_joins_items() {
    let d = Doc::group(Doc::intersperse(
        vec![txt("A"), txt("B"), txt("C")],
        Doc::append(txt(","), Doc::line()),
    ));
    assert_eq!(render(&d, 80), "A, B, C");
    assert_eq!(render(&d, 3), "A,\nB,\nC");
}

#[test]
fn intersperse_of_one_item_has_no_separator() {
    let d = Doc::intersperse(vec![txt("solo")], txt(","));
    assert_eq!(render(&d, 80), "solo");
}

#[test]
fn intersperse_of_nothing_renders_empty() {
    let d = Doc::intersperse(vec![], txt(","));
    assert_eq!(render(&d, 80), "");
}

#[test]
fn fits_check_counts_trailing_text_on_the_line() {
    // The group itself is 3 cells, but the text after it must share the
    // line: at width 5 the group must break.
    let g = Doc::group(Doc::append(txt("a"), Doc::append(Doc::line(), txt("b"))));
    let d = Doc::append(g, txt("tail"));
    assert_eq!(render(&d, 80), "a btail");
    assert_eq!(render(&d, 5), "a\nbtail");
}

#[test]
fn exact_width_still_fits() {
    let g = Doc::group(Doc::intersperse(
        vec![txt("A"), txt("B")],
        Doc::append(txt(","), Doc::line()),
    ));
    assert_eq!(render(&g, 4), "A, B");
    assert_eq!(render(&g, 3), "A,\nB");
}

#[test]
fn count_newlines_counts() {
    assert_eq!(count_newlines(""), 0);
    assert_eq!(count_newlines("abc"), 0);
    assert_eq!(count_newlines("a\nb\nc"), 2);
    assert_eq!(count_newlines("\n\n"), 2);
}

#[test]
fn flat_render_has_no_breaks() {
    let d = Doc::group(Doc::intersperse(
        vec![txt("one"), txt("two"), txt("three")],
        Doc::append(txt(","), Doc::line()),
    ));
    let wide = render(&d, 1000);
    assert_eq!(count_newlines(&wide), 0);
    assert_eq!(wide, "one, two, three");
}

#[test]
fn width_sweep_single_group_monotonic() {
    let d = Doc::group(Doc::intersperse(
        vec![txt("alpha"), txt("beta"), txt("gamma"), txt("delta")],
        Doc::append(txt(","), Doc::line()),
    ));
    let mut prev = usize::MAX;
    for w in 1..=60usize {
        let out = render(&d, w);
        let breaks = count_newlines(&out);
        assert!(breaks <= prev, "more breaks at width {} than at {}", w, w - 1);
        prev = breaks;
    }
}

#[test]
fn outer_break_can_free_room_for_an_inner_group() {
    // Breaking the first group at the narrower width resets the column,
    // which lets the second group fit: the narrower width ends up with
    // fewer line breaks than the wider one.
    let g1 = Doc::group(Doc::append(Doc::line(), txt("bbbbbbbbbbbbbbbb")));
    let g2 = Doc::group(Doc::append(
        Doc::line(),
        Doc::append(txt("c"), Doc::append(Doc::line(), txt("c"))),
    ));
    let d = Doc::append(txt("aaaa"), Doc::append(g1, g2));
    assert_eq!(render(&d, 21), "aaaa bbbbbbbbbbbbbbbb\nc\nc");
    assert_eq!(render(&d, 20), "aaaa\nbbbbbbbbbbbbbbbb c c");
    assert_eq!(count_newlines(&render(&d, 20)), 1);
    assert_eq!(count_newlines(&render(&d, 21)), 2);
}

#[test]
fn rendering_is_deterministic_and_reusable() {
    let d = Doc::group(Doc::append(txt("x"), Doc::append(Doc::line(), txt("y"))));
    let a = render(&d, 2);
    let b = render(&d, 2);
    assert_eq!(a, b);
    // the same document renders differently at another width, and the
    // first result is unaffected
    let c = render(&d, 80);
    assert_eq!(c, "x y");
    assert_eq!(render(&d, 2), a);
}

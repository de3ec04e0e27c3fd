use pretty_simple::{
    binop, braces, brackets, doc, group, intersperse, parens, render, surrounded_by, t, tuple,
    Doc, Ln, Piece, PrettySimple,
};

#[test]
fn text_atom_renders_as_itself() {
    let d = t("hello");
    assert_eq!(render(&d, 80), "hello");
    let d = t("hello");
    assert_eq!(render(&d, 0), "hello");
}

#[test]
fn empty_document_renders_empty() {
    let d = Doc::empty();
    assert_eq!(render(&d, 80), "");
}

#[test]
fn concat_of_nothing_renders_empty_at_any_width() {
    for w in [0usize, 1, 7, 80] {
        let d = pretty_simple::combinators::concat(Vec::<&str>::new());
        assert_eq!(render(&d, w), "");
    }
}

#[test]
fn concat_joins_in_order() {
    let d = pretty_simple::combinators::concat(vec!["a", "b", "c"]);
    assert_eq!(render(&d, 80), "abc");
    let d = pretty_simple::combinators::concat(vec!["a", "b", "c"]);
    assert_eq!(render(&d, 0), "abc");
}

#[test]
fn append_keeps_left_to_right_order() {
    let d = "left".append(t("right"));
    assert_eq!(render(&d, 80), "leftright");
}

#[test]
fn intersperse_no_items_no_separator() {
    let d = intersperse(Vec::<&str>::new(), "-");
    assert_eq!(render(&d, 80), "");
}

#[test]
fn intersperse_one_item_no_separator() {
    let d = intersperse(vec!["a"], "-");
    assert_eq!(render(&d, 80), "a");
}

#[test]
fn intersperse_three_items_two_separators() {
    let d = intersperse(vec!["a", "b", "c"], "-");
    assert_eq!(render(&d, 80), "a-b-c");
    let d = intersperse(vec!["a", "b", "c"], "-");
    assert_eq!(render(&d, 0), "a-b-c");
}

#[test]
fn surrounded_by_fits_with_no_inserted_space() {
    let d = surrounded_by("[", "x", "]");
    assert_eq!(render(&d, 80), "[x]");
}

#[test]
fn surrounded_by_breaks_at_width_zero() {
    let d = surrounded_by("[", "x", "]");
    assert_eq!(render(&d, 0), "[\nx\n]");
}

#[test]
fn surrounded_by_soft_breaks_decide_one_by_one() {
    // Width 2 holds "[x" but not the closing bracket: the first soft
    // break collapses, the second becomes a newline.
    let d = surrounded_by("[", "x", "]");
    assert_eq!(render(&d, 2), "[x\n]");
}

#[test]
fn bracket_specializations_fix_the_delimiters() {
    let d = brackets("x");
    assert_eq!(render(&d, 80), "[x]");
    let d = parens("x");
    assert_eq!(render(&d, 80), "(x)");
    let d = braces("x");
    assert_eq!(render(&d, 80), "{x}");
}

#[test]
fn binop_fits_with_single_spaces() {
    let d = binop("a", "+", "b");
    assert_eq!(render(&d, 80), "a + b");
    let d = binop("a", "+", "b");
    assert_eq!(render(&d, 5), "a + b");
}

#[test]
fn binop_breaks_below_its_flat_width() {
    let d = binop("a", "+", "b");
    assert_eq!(render(&d, 4), "a\n+\nb");
    let d = binop("a", "+", "b");
    assert_eq!(render(&d, 0), "a\n+\nb");
}

#[test]
fn binop_nests_inside_itself() {
    let inner = binop("a", "+", "b");
    let d = binop(inner, "*", "c");
    assert_eq!(render(&d, 80), "a + b * c");
}

#[test]
fn tuple_fits_on_one_line() {
    let d = tuple(vec!["a", "b", "c"]);
    assert_eq!(render(&d, 80), "{a, b, c}");
    let d = tuple(vec!["a", "b", "c"]);
    assert_eq!(render(&d, 9), "{a, b, c}");
}

#[test]
fn tuple_breaks_with_commas_trailing() {
    let d = tuple(vec!["a", "b", "c"]);
    assert_eq!(render(&d, 0), "{\na,\nb,\nc\n}");
}

#[test]
fn tuple_one_below_flat_width_breaks_only_the_closing_brace() {
    // Width 8 holds "{a, b, c" but not the closing brace.
    let d = tuple(vec!["a", "b", "c"]);
    assert_eq!(render(&d, 8), "{a, b, c\n}");
}

#[test]
fn chain_matches_concat_on_a_mixed_sequence() {
    for w in [0usize, 3, 80] {
        let chained = doc(vec![
            Piece::Text(String::from("x")),
            Piece::Doc(binop("a", "+", "b")),
            Piece::Ln,
            Piece::Text(String::from("y")),
        ]);
        let concatenated = pretty_simple::combinators::concat(vec![
            Piece::Text(String::from("x")),
            Piece::Doc(binop("a", "+", "b")),
            Piece::Ln,
            Piece::Text(String::from("y")),
        ]);
        assert_eq!(render(&chained, w), render(&concatenated, w));
    }
}

#[test]
fn chain_keeps_order() {
    let d = doc(vec!["a", "b", "c"]);
    assert_eq!(render(&d, 80), "abc");
}

#[test]
fn hard_break_stays_a_newline_in_a_fitting_group() {
    let d = group("a".append(Ln.pprint()).append(t("b")));
    assert_eq!(render(&d, 80), "a\nb");
}

#[test]
fn flexible_break_collapses_where_the_hard_break_did_not() {
    let d = group("a".append(Doc::flex_break()).append(t("b")));
    assert_eq!(render(&d, 80), "a b");
    let d = group("a".append(Doc::flex_break()).append(t("b")));
    assert_eq!(render(&d, 0), "a\nb");
}

#[test]
fn hard_break_separates_statements() {
    let d = doc(vec![
        Piece::Text(String::from("one")),
        Piece::Ln,
        Piece::Text(String::from("two")),
    ]);
    assert_eq!(render(&d, 80), "one\ntwo");
}

#[test]
fn soft_break_alone_vanishes_when_fitting() {
    let d = "a".append(Doc::soft_break()).append(t("b"));
    assert_eq!(render(&d, 80), "ab");
}

#[test]
fn nested_brackets_fit_together() {
    let d = brackets(brackets("x"));
    assert_eq!(render(&d, 80), "[[x]]");
}

#[test]
fn nested_brackets_break_level_by_level() {
    let d = brackets(brackets("x"));
    assert_eq!(render(&d, 0), "[\n[\nx\n]\n]");
}

//! Tests for the literal highlight pass.

use furigana::highlight_literal;

#[test]
fn wraps_every_occurrence() {
    assert_eq!(highlight_literal("neko to neko", "neko"), "<b>neko</b> to <b>neko</b>");
    assert_eq!(
        highlight_literal("<ruby><rb>猫<rt>ねこ</ruby>", "ねこ"),
        "<ruby><rb>猫<rt><b>ねこ</b></ruby>"
    );
}

#[test]
fn empty_needle_changes_nothing() {
    assert_eq!(highlight_literal("abc", ""), "abc");
    assert_eq!(highlight_literal("", ""), "");
}

#[test]
fn absent_needle_changes_nothing() {
    assert_eq!(highlight_literal("ねこ", "いぬ"), "ねこ");
    assert_eq!(highlight_literal("", "x"), "");
}

#[test]
fn metacharacters_match_literally() {
    // A dot matches only a dot, never an arbitrary character.
    assert_eq!(highlight_literal("a.c", "."), "a<b>.</b>c");
    assert_eq!(highlight_literal("abc", "."), "abc");
    assert_eq!(highlight_literal("x*y", "*"), "x<b>*</b>y");
    assert_eq!(highlight_literal("f(x)", "("), "f<b>(</b>x)");
    assert_eq!(highlight_literal("a+b", "a+"), "<b>a+</b>b");
}

#[test]
fn pass_is_idempotent() {
    let once = highlight_literal("neko to neko", "neko");
    let twice = highlight_literal(&once, "neko");
    assert_eq!(once, twice);

    let once = highlight_literal("<ruby><rb>猫<rt>ねこ</ruby>", "ねこ");
    let twice = highlight_literal(&once, "ねこ");
    assert_eq!(once, twice);
}

#[test]
fn wrapped_occurrence_is_left_alone() {
    assert_eq!(highlight_literal("<b>ねこ</b>", "ねこ"), "<b>ねこ</b>");
    assert_eq!(highlight_literal("<b>x</b> x", "x"), "<b>x</b> <b>x</b>");
}

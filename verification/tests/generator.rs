//! Tests for the furigana generator: per-token markup and the
//! segment renderer.

use furigana::FuriganaError;
use furigana::Segment;
use furigana::contains_ideograph;
use furigana::generate_furigana;
use furigana::render_segments;

#[test]
fn passthrough_without_ideographs() {
    assert_eq!(generate_furigana("です", "です"), Ok(String::from("です")));
    assert_eq!(generate_furigana("ABC", "えびし"), Ok(String::from("ABC")));
    assert_eq!(generate_furigana("123", "ひゃく"), Ok(String::from("123")));
    assert_eq!(generate_furigana("", ""), Ok(String::from("")));
}

#[test]
fn equal_surface_and_reading_stay_verbatim() {
    assert_eq!(generate_furigana("猫", "猫"), Ok(String::from("猫")));
    assert_eq!(generate_furigana("食べ物", "食べ物"), Ok(String::from("食べ物")));
}

#[test]
fn taberu_alignment() {
    assert_eq!(
        generate_furigana("食べる", "たべる"),
        Ok(String::from("<ruby><rb>食<rt>た</ruby>べる"))
    );
}

#[test]
fn neko_alignment() {
    assert_eq!(
        generate_furigana("猫", "ねこ"),
        Ok(String::from("<ruby><rb>猫<rt>ねこ</ruby>"))
    );
}

#[test]
fn empty_reading_leaves_removal_unpaired() {
    assert_eq!(generate_furigana("食", ""), Err(FuriganaError::UnpairedRemoval));
}

#[test]
fn renderer_pairs_removed_with_added() {
    let segs = vec![
        Segment::Removed(String::from("食")),
        Segment::Added(String::from("た")),
        Segment::Common(String::from("べる")),
    ];
    assert_eq!(render_segments(&segs), Ok(String::from("<ruby><rb>食<rt>た</ruby>べる")));
}

#[test]
fn renderer_pairs_removed_with_common() {
    let segs = vec![
        Segment::Removed(String::from("A")),
        Segment::Common(String::from("X")),
    ];
    assert_eq!(render_segments(&segs), Ok(String::from("<ruby><rb>A<rt>X</ruby>")));
}

#[test]
fn renderer_skips_standalone_added() {
    let segs = vec![Segment::Added(String::from("x"))];
    assert_eq!(render_segments(&segs), Ok(String::from("")));
}

#[test]
fn renderer_rejects_trailing_removed() {
    let segs = vec![Segment::Removed(String::from("食"))];
    assert_eq!(render_segments(&segs), Err(FuriganaError::UnpairedRemoval));
}

#[test]
fn renderer_rejects_consecutive_removed() {
    let segs = vec![
        Segment::Removed(String::from("a")),
        Segment::Removed(String::from("b")),
        Segment::Added(String::from("c")),
    ];
    assert_eq!(render_segments(&segs), Err(FuriganaError::UnpairedRemoval));
}

#[test]
fn ideograph_detection() {
    assert!(contains_ideograph("食"));
    assert!(contains_ideograph("お食事"));
    assert!(!contains_ideograph("です"));
    assert!(!contains_ideograph("ABC 123"));
    assert!(!contains_ideograph(""));
}

//! Tests for the output parser and the whole annotation pipeline.

use furigana::FuriganaError;
use furigana::annotate;
use furigana::parse_analyzer_output;

#[test]
fn parses_token_lines() {
    let tokens = parse_analyzer_output("食べる たべる extra fields\nEOS\n").unwrap();
    assert_eq!(tokens.len(), 1);
    assert_eq!(tokens[0].surface, "食べる");
    assert_eq!(tokens[0].reading, "たべる");
}

#[test]
fn skips_meta_lines() {
    let tokens = parse_analyzer_output("@S-ID:1\n猫 ねこ\nEOS\n").unwrap();
    assert_eq!(tokens.len(), 1);
    assert_eq!(tokens[0].surface, "猫");
    assert_eq!(tokens[0].reading, "ねこ");
}

#[test]
fn stops_at_eos_marker() {
    let tokens = parse_analyzer_output("猫 ねこ\nEOS\nmalformed\n@x\n").unwrap();
    assert_eq!(tokens.len(), 1);
    assert_eq!(tokens[0].surface, "猫");
}

#[test]
fn rejects_line_with_one_field() {
    assert_eq!(
        parse_analyzer_output("nospace\nEOS\n"),
        Err(FuriganaError::MalformedTokenLine)
    );
}

#[test]
fn rejects_empty_line_before_eos() {
    assert_eq!(parse_analyzer_output("\nEOS\n"), Err(FuriganaError::MalformedTokenLine));
}

#[test]
fn handles_crlf_line_endings() {
    let tokens = parse_analyzer_output("猫 ねこ\r\nEOS\r\n").unwrap();
    assert_eq!(tokens.len(), 1);
    assert_eq!(tokens[0].surface, "猫");
    assert_eq!(tokens[0].reading, "ねこ");
}

#[test]
fn eos_must_match_exactly() {
    // A line whose first field is EOS but that has a second field is
    // an ordinary token line, not the terminator.
    let tokens = parse_analyzer_output("EOS extra\n猫 ねこ\nEOS\n").unwrap();
    assert_eq!(tokens.len(), 2);
    assert_eq!(tokens[0].surface, "EOS");
    assert_eq!(tokens[1].surface, "猫");
}

#[test]
fn empty_input_yields_no_tokens() {
    let tokens = parse_analyzer_output("").unwrap();
    assert_eq!(tokens.len(), 0);
}

#[test]
fn annotate_passthrough_line() {
    assert_eq!(annotate("です です\nEOS\n", ""), Ok(String::from("です")));
}

#[test]
fn annotate_meta_then_tokens_then_eos() {
    let out = annotate("@S-ID:1\n食べる たべる\nです です\nEOS\nご飯 ごはん\n", "").unwrap();
    assert_eq!(out, "<ruby><rb>食<rt>た</ruby>べるです");
}

#[test]
fn annotate_with_highlight() {
    assert_eq!(
        annotate("猫 ねこ\nEOS\n", "ねこ"),
        Ok(String::from("<ruby><rb>猫<rt><b>ねこ</b></ruby>"))
    );
}

#[test]
fn annotate_empty_input() {
    assert_eq!(annotate("", ""), Ok(String::from("")));
}

#[test]
fn annotate_propagates_unpaired_removal() {
    assert_eq!(annotate("食 \nEOS\n", ""), Err(FuriganaError::UnpairedRemoval));
}

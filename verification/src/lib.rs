//! Furigana annotation for Japanese text.
//!
//! The library consumes the line-oriented output of an external
//! morphological analyzer, pairs each token's surface form with its
//! phonetic reading, and emits ruby-annotated markup.  Spans of the
//! surface form that contain ideographic characters are annotated with
//! their reading; everything else is passed through verbatim.  An
//! optional highlight pass wraps a literal substring in bold markup.

use vstd::prelude::*;

pub mod furigana;
pub mod highlight;
pub mod ideograph;
pub mod parser;
pub mod segment;
pub mod text;

pub use furigana::generate_furigana;
pub use furigana::render_tokens;
pub use furigana::token_markup;
pub use furigana::tokens_markup;
pub use highlight::bold;
pub use highlight::highlight_literal;
pub use highlight::is_prefix;
pub use highlight::lemma_highlight_absent;
pub use highlight::lemma_highlight_idempotent;
pub use highlight::occurs_in;
pub use highlight::spec_highlight;
pub use ideograph::contains_ideograph;
pub use ideograph::has_ideograph;
pub use ideograph::is_ideographic;
pub use parser::lemma_parser_stops_at_eos;
pub use parser::parse_analyzer_output;
pub use parser::parse_lines;
pub use parser::parse_output;
pub use parser::Token;
pub use parser::TokenView;
pub use segment::char_diff;
pub use segment::markup_of;
pub use segment::render_segments;
pub use segment::ruby;
pub use segment::SegView;
pub use segment::Segment;

verus! {

/// Everything that can go wrong while turning analyzer output into markup.
#[derive(Clone, Copy, Debug, PartialEq, Eq, Structural)]
pub enum FuriganaError {
    /// A token line of the analyzer output had fewer than two
    /// space-separated fields.
    MalformedTokenLine,
    /// The character alignment ended with a removed span that has no
    /// following span to act as its reading.
    UnpairedRemoval,
}

/// Turns raw analyzer output into highlighted furigana markup: parse
/// the token lines, emit each token's markup in order, then wrap
/// every occurrence of the literal `needle` in bold markup.
///
/// Fails with `MalformedTokenLine` exactly when the parser fails, and
/// with `UnpairedRemoval` exactly when the parser succeeds and some
/// token's alignment ends in an unpaired removed span.
pub fn annotate(text: &str, needle: &str) -> (r: Result<String, FuriganaError>)
    ensures
        match r {
            Ok(out) => {
                &&& parser::parse_output(text@) is Some
                &&& furigana::tokens_markup(parser::parse_output(text@)->Some_0) is Some
                &&& out@ == highlight::spec_highlight(
                    furigana::tokens_markup(parser::parse_output(text@)->Some_0)->Some_0,
                    needle@,
                )
            },
            Err(e) => match e {
                FuriganaError::MalformedTokenLine => parser::parse_output(text@) is None,
                FuriganaError::UnpairedRemoval => parser::parse_output(text@) is Some
                    && furigana::tokens_markup(parser::parse_output(text@)->Some_0) is None,
            },
        },
{
    let tokens = match parser::parse_analyzer_output(text) {
        Ok(ts) => ts,
        Err(e) => {
            return Err(e);
        },
    };
    let markup = match furigana::render_tokens(&tokens) {
        Ok(m) => m,
        Err(e) => {
            return Err(e);
        },
    };
    Ok(highlight::highlight_literal(markup.as_str(), needle))
}

} // verus!

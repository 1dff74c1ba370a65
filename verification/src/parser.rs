//! The output parser: turns the line-oriented output of the
//! morphological analyzer into an ordered sequence of tokens.
//!
//! Lines beginning with `@` are analyzer metadata and are ignored; a
//! line reading exactly `EOS` ends the token stream; every other line
//! is split on the space character, the first field being the surface
//! form and the second the reading.

use vstd::prelude::*;

use crate::FuriganaError;
use crate::text::spec_lines;
use crate::text::spec_split;
use crate::text::split_char;
use crate::text::split_lines;
use crate::text::str_eq;

verus! {

/// One token of analyzer output: a surface form and its reading.
#[derive(Clone, Debug, PartialEq, Eq)]
pub struct Token {
    pub surface: String,
    pub reading: String,
}

/// The mathematical value of a `Token`.
pub ghost struct TokenView {
    pub surface: Seq<char>,
    pub reading: Seq<char>,
}

impl View for Token {
    type V = TokenView;

    open spec fn view(&self) -> TokenView {
        TokenView { surface: self.surface@, reading: self.reading@ }
    }
}

/// The sequence of values of a sequence of tokens.
pub open spec fn token_views(ts: Seq<Token>) -> Seq<TokenView> {
    ts.map_values(|t: Token| t@)
}

/// The line that terminates the token stream.
pub open spec fn is_eos(l: Seq<char>) -> bool {
    l == "EOS"@
}

/// A metadata line, ignored by the parser.
pub open spec fn is_meta(l: Seq<char>) -> bool {
    l.len() > 0 && l[0] == '@'
}

/// The token of one line: the first two space-separated fields, or
/// nothing when the line has fewer than two.
pub open spec fn line_token(l: Seq<char>) -> Option<TokenView> {
    let fields = spec_split(l, ' ');
    if fields.len() >= 2 {
        Some(TokenView { surface: fields[0], reading: fields[1] })
    } else {
        None
    }
}

/// The tokens of a sequence of lines: stop at the terminator, skip
/// metadata, and fail on the first malformed token line.
pub open spec fn parse_lines(lines: Seq<Seq<char>>) -> Option<Seq<TokenView>>
    decreases lines.len(),
{
    if lines.len() == 0 {
        Some(Seq::empty())
    } else if is_eos(lines[0]) {
        Some(Seq::empty())
    } else if is_meta(lines[0]) {
        parse_lines(lines.drop_first())
    } else {
        match (line_token(lines[0]), parse_lines(lines.drop_first())) {
            (Some(t), Some(rest)) => Some(seq![t] + rest),
            _ => None,
        }
    }
}

/// The tokens of the raw analyzer output.
pub open spec fn parse_output(s: Seq<char>) -> Option<Seq<TokenView>> {
    parse_lines(spec_lines(s))
}

/// Parses the raw analyzer output into tokens.
///
/// Fails exactly when a line before the terminator that is neither
/// metadata nor the terminator has fewer than two fields.
pub fn parse_analyzer_output(text: &str) -> (r: Result<Vec<Token>, FuriganaError>)
    ensures
        match r {
            Ok(ts) => parse_output(text@) == Some(token_views(ts@)),
            Err(e) => parse_output(text@) is None && e == FuriganaError::MalformedTokenLine,
        },
{
    let lines = split_lines(text);
    let ghost lv: Seq<Seq<char>> = lines@.map_values(|l: String| l@);
    let mut out: Vec<Token> = Vec::new();
    let mut i: usize = 0;
    proof {
        assert(lv.skip(0) =~= lv);
        assert(token_views(out@) + parse_lines(lv)->Some_0 =~= parse_lines(lv)->Some_0);
    }
    while i < lines.len()
        invariant
            i <= lines.len(),
            lv == lines@.map_values(|l: String| l@),
            lv == spec_lines(text@),
            parse_lines(lv.skip(i as int)) is Some ==> parse_lines(lv) == Some(
                token_views(out@) + parse_lines(lv.skip(i as int))->Some_0,
            ),
            parse_lines(lv.skip(i as int)) is None ==> parse_lines(lv) is None,
        decreases lines.len() - i,
    {
        proof {
            assert(lv.skip(i as int)[0] == lv[i as int]);
            assert(lv.skip(i as int).drop_first() =~= lv.skip(i + 1));
        }
        let line: &String = &lines[i];
        if str_eq(line.as_str(), "EOS") {
            proof {
                assert(parse_lines(lv.skip(i as int)) == Some(Seq::<TokenView>::empty()));
                assert(token_views(out@) + Seq::<TokenView>::empty() =~= token_views(out@));
            }
            return Ok(out);
        }
        let is_meta_line = line.as_str().unicode_len() > 0 && line.as_str().get_char(0) == '@';
        if !is_meta_line {
            let fields = split_char(line.as_str(), ' ');
            if fields.len() < 2 {
                return Err(FuriganaError::MalformedTokenLine);
            }
            let t = Token { surface: fields[0].clone(), reading: fields[1].clone() };
            proof {
                assert(fields@.map_values(|p: String| p@)[0] == fields@[0]@);
                assert(fields@.map_values(|p: String| p@)[1] == fields@[1]@);
            }
            let ghost ov = out@;
            let ghost tv = t@;
            out.push(t);
            proof {
                assert(token_views(out@) =~= token_views(ov).push(tv));
                if parse_lines(lv.skip(i + 1)) is Some {
                    assert(token_views(out@) + parse_lines(lv.skip(i + 1))->Some_0
                        =~= token_views(ov) + (seq![tv] + parse_lines(lv.skip(i + 1))->Some_0));
                }
            }
        }
        i = i + 1;
    }
    proof {
        assert(lv.skip(lines@.len() as int) =~= Seq::<Seq<char>>::empty());
        assert(token_views(out@) + Seq::<TokenView>::empty() =~= token_views(out@));
    }
    Ok(out)
}

/// The parser never looks past the terminator line: lines that follow
/// it contribute nothing, whatever they hold.
pub proof fn lemma_parser_stops_at_eos(before: Seq<Seq<char>>, after: Seq<Seq<char>>)
    requires
        exists|k: int| 0 <= k < before.len() && is_eos(before[k]),
    ensures
        parse_lines(before + after) == parse_lines(before),
    decreases before.len(),
{
    let k = choose|k: int| 0 <= k < before.len() && is_eos(before[k]);
    assert((before + after).len() > 0);
    assert((before + after)[0] == before[0]);
    if is_eos(before[0]) {
    } else {
        assert(k >= 1);
        assert((before + after).drop_first() =~= before.drop_first() + after);
        assert(0 <= k - 1 < before.drop_first().len() && is_eos(before.drop_first()[k - 1]));
        lemma_parser_stops_at_eos(before.drop_first(), after);
    }
}

} // verus!

//! The furigana generator: the markup of one token, and of a whole
//! token stream.
//!
//! A token whose surface form holds no ideograph is passed through
//! verbatim; otherwise the surface form is aligned against the
//! reading and the alignment is emitted as ruby markup.

use vstd::prelude::*;

use crate::FuriganaError;
use crate::ideograph::contains_ideograph;
use crate::ideograph::has_ideograph;
use crate::parser::Token;
use crate::parser::TokenView;
use crate::parser::token_views;
use crate::segment::SegView;
use crate::segment::char_diff;
use crate::segment::diff_chars;
use crate::segment::markup_of;
use crate::segment::prepended;
use crate::segment::render_segments;
use crate::segment::seg_views;

verus! {

/// The markup of one token: the surface form itself when it holds no
/// ideograph, otherwise the markup of its alignment (or nothing, when
/// the alignment ends in an unpaired removed span).
pub open spec fn token_markup(t: TokenView) -> Option<Seq<char>> {
    if !has_ideograph(t.surface) {
        Some(t.surface)
    } else {
        markup_of(char_diff(t.surface, t.reading))
    }
}

/// Produces the markup for one token.
///
/// A surface form without ideographs comes back verbatim, and so does
/// one that equals its reading character for character; the only
/// failure is an alignment that ends in an unpaired removed span.
pub fn generate_furigana(surface: &str, reading: &str) -> (r: Result<String, FuriganaError>)
    ensures
        match r {
            Ok(out) => token_markup(TokenView { surface: surface@, reading: reading@ }) == Some(
                out@,
            ),
            Err(e) => token_markup(TokenView { surface: surface@, reading: reading@ }) is None
                && e == FuriganaError::UnpairedRemoval,
        },
        !has_ideograph(surface@) ==> r is Ok && r->Ok_0@ == surface@,
        surface@ == reading@ ==> r is Ok && r->Ok_0@ == surface@,
{
    if !contains_ideograph(surface) {
        Ok(String::from_str(surface))
    } else {
        let segs = diff_chars(surface, reading);
        let r = render_segments(&segs);
        proof {
            if surface@ == reading@ {
                assert(surface@.len() > 0);
                assert(seg_views(segs@) == seq![SegView::Common(surface@)]);
                assert(seq![SegView::Common(surface@)].drop_first()
                    =~= Seq::<SegView>::empty());
                assert(markup_of(Seq::<SegView>::empty()) == Some(Seq::<char>::empty()));
                assert(markup_of(seg_views(segs@)) == prepended(
                    surface@,
                    markup_of(seg_views(segs@).drop_first()),
                ));
                assert(markup_of(seg_views(segs@)) == Some(surface@ + Seq::<char>::empty()));
                assert(surface@ + Seq::<char>::empty() =~= surface@);
            }
        }
        r
    }
}

/// The concatenated markup of a token stream, in order; nothing when
/// some token has no markup.
pub open spec fn tokens_markup(ts: Seq<TokenView>) -> Option<Seq<char>>
    decreases ts.len(),
{
    if ts.len() == 0 {
        Some(Seq::empty())
    } else {
        match token_markup(ts[0]) {
            Some(m) => prepended(m, tokens_markup(ts.drop_first())),
            None => None,
        }
    }
}

/// Produces the concatenated markup of a token stream.
pub fn render_tokens(tokens: &Vec<Token>) -> (r: Result<String, FuriganaError>)
    ensures
        match r {
            Ok(out) => tokens_markup(token_views(tokens@)) == Some(out@),
            Err(e) => tokens_markup(token_views(tokens@)) is None && e
                == FuriganaError::UnpairedRemoval,
        },
{
    let ghost tv: Seq<TokenView> = token_views(tokens@);
    let mut out: String = String::new();
    let mut i: usize = 0;
    proof {
        assert(tv.skip(0) =~= tv);
    }
    while i < tokens.len()
        invariant
            i <= tokens.len(),
            tv == token_views(tokens@),
            tokens_markup(tv.skip(i as int)) is Some ==> tokens_markup(tv) == prepended(
                out@,
                tokens_markup(tv.skip(i as int)),
            ),
            tokens_markup(tv.skip(i as int)) is None ==> tokens_markup(tv) is None,
        decreases tokens.len() - i,
    {
        proof {
            assert(tv.skip(i as int)[0] == tv[i as int]);
            assert(tv.skip(i as int).drop_first() =~= tv.skip(i + 1));
        }
        let t: &Token = &tokens[i];
        match generate_furigana(t.surface.as_str(), t.reading.as_str()) {
            Ok(m) => {
                out.append(m.as_str());
            },
            Err(e) => {
                return Err(e);
            },
        }
        i = i + 1;
    }
    proof {
        assert(tv.skip(tokens@.len() as int) =~= Seq::<TokenView>::empty());
        assert(out@ + Seq::<char>::empty() =~= out@);
    }
    Ok(out)
}

} // verus!

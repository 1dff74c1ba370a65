//! Alignment segments: the character-level diff of a surface form
//! against its reading, and the ruby markup emitted from it.
//!
//! The diff itself comes from the `difference` crate; everything that
//! is done with its result is verified against `markup_of`.

use vstd::prelude::*;

use crate::FuriganaError;

verus! {

/// One span of the character-level alignment of a surface form
/// against its reading.
#[derive(Clone, Debug, PartialEq, Eq)]
pub enum Segment {
    /// Characters present in both, in the same relative order.
    Common(String),
    /// Characters present only in the reading.
    Added(String),
    /// Characters present only in the surface form.
    Removed(String),
}

/// The mathematical value of a `Segment`.
pub ghost enum SegView {
    Common(Seq<char>),
    Added(Seq<char>),
    Removed(Seq<char>),
}

impl View for Segment {
    type V = SegView;

    open spec fn view(&self) -> SegView {
        match self {
            Segment::Common(t) => SegView::Common(t@),
            Segment::Added(t) => SegView::Added(t@),
            Segment::Removed(t) => SegView::Removed(t@),
        }
    }
}

/// The sequence of values of a sequence of segments.
pub open spec fn seg_views(segs: Seq<Segment>) -> Seq<SegView> {
    segs.map_values(|s: Segment| s@)
}

/// The character-level minimal-edit alignment of `orig` against
/// `edit`, as the `difference` crate computes it: a function of the
/// two character sequences alone.
pub uninterp spec fn char_diff(orig: Seq<char>, edit: Seq<char>) -> Seq<SegView>;

/// Relies on `difference::Changeset::new` with the empty split: a
/// character-level LCS diff, delivered in order of appearance, and a
/// single `Same` chunk when the two strings are equal and non-empty
/// (no chunk at all when both are empty).
#[verifier::external_body]
pub(crate) fn diff_chars(orig: &str, edit: &str) -> (r: Vec<Segment>)
    ensures
        seg_views(r@) == char_diff(orig@, edit@),
        orig@ == edit@ ==> seg_views(r@) == (if orig@.len() > 0 {
            seq![SegView::Common(orig@)]
        } else {
            Seq::<SegView>::empty()
        }),
{
    let changeset = difference::Changeset::new(orig, edit, "");
    changeset.diffs.into_iter().map(|d| match d {
        difference::Difference::Same(t) => Segment::Common(t),
        difference::Difference::Add(t) => Segment::Added(t),
        difference::Difference::Rem(t) => Segment::Removed(t),
    }).collect()
}

/// One ruby annotation: `surface` as the base text, `reading` as the
/// superscript reading.
pub open spec fn ruby(surface: Seq<char>, reading: Seq<char>) -> Seq<char> {
    "<ruby><rb>"@ + surface + "<rt>"@ + reading + "</ruby>"@
}

/// `text` followed by whatever `rest` holds, or nothing at all.
pub open spec fn prepended(text: Seq<char>, rest: Option<Seq<char>>) -> Option<Seq<char>> {
    match rest {
        Some(r) => Some(text + r),
        None => None,
    }
}

/// The markup for an ordered sequence of alignment segments.
///
/// A common span standing alone is literal text; a removed span is
/// paired with the following span, whose text becomes its reading; an
/// added span standing alone has no surface characters to annotate
/// and is skipped.  A removed span with no following span, or one
/// followed by another removed span, has no reading: no markup exists
/// and the result is `None`.
pub open spec fn markup_of(segs: Seq<SegView>) -> Option<Seq<char>>
    decreases segs.len(),
{
    if segs.len() == 0 {
        Some(Seq::empty())
    } else {
        match segs[0] {
            SegView::Common(t) => prepended(t, markup_of(segs.drop_first())),
            SegView::Added(_) => markup_of(segs.drop_first()),
            SegView::Removed(t) => {
                if segs.len() == 1 {
                    None
                } else {
                    match segs[1] {
                        SegView::Common(rd) => prepended(ruby(t, rd), markup_of(segs.skip(2))),
                        SegView::Added(rd) => prepended(ruby(t, rd), markup_of(segs.skip(2))),
                        SegView::Removed(_) => None,
                    }
                }
            },
        }
    }
}

/// Appends one ruby annotation to `out`.
fn append_ruby(out: &mut String, surface: &str, reading: &str)
    ensures
        final (out)@ == old(out)@ + ruby(surface@, reading@),
{
    out.append("<ruby><rb>");
    out.append(surface);
    out.append("<rt>");
    out.append(reading);
    out.append("</ruby>");
}

/// Emits the markup for an alignment, scanning its segments in order.
///
/// Fails exactly when the alignment holds a removed span with no
/// following span to act as its reading.
pub fn render_segments(segs: &Vec<Segment>) -> (r: Result<String, FuriganaError>)
    ensures
        match r {
            Ok(out) => markup_of(seg_views(segs@)) == Some(out@),
            Err(e) => markup_of(seg_views(segs@)) is None && e == FuriganaError::UnpairedRemoval,
        },
{
    let ghost sv: Seq<SegView> = seg_views(segs@);
    let mut out: String = String::new();
    let mut i: usize = 0;
    proof {
        assert(sv.skip(0) =~= sv);
    }
    while i < segs.len()
        invariant
            i <= segs.len(),
            sv == seg_views(segs@),
            markup_of(sv.skip(i as int)) is Some ==> markup_of(sv) == prepended(
                out@,
                markup_of(sv.skip(i as int)),
            ),
            markup_of(sv.skip(i as int)) is None ==> markup_of(sv) is None,
        decreases segs.len() - i,
    {
        proof {
            assert(sv.skip(i as int)[0] == sv[i as int]);
            assert(sv.skip(i as int).drop_first() =~= sv.skip(i + 1));
        }
        match &segs[i] {
            Segment::Common(t) => {
                out.append(t.as_str());
                i = i + 1;
            },
            Segment::Added(_) => {
                i = i + 1;
            },
            Segment::Removed(t) => {
                if i + 1 == segs.len() {
                    proof {
                        assert(sv.skip(i as int).len() == 1);
                    }
                    return Err(FuriganaError::UnpairedRemoval);
                }
                proof {
                    assert(sv.skip(i as int)[1] == sv[i + 1]);
                    assert(sv.skip(i as int).skip(2) =~= sv.skip(i + 2));
                }
                match &segs[i + 1] {
                    Segment::Common(rd) => {
                        append_ruby(&mut out, t.as_str(), rd.as_str());
                    },
                    Segment::Added(rd) => {
                        append_ruby(&mut out, t.as_str(), rd.as_str());
                    },
                    Segment::Removed(_) => {
                        return Err(FuriganaError::UnpairedRemoval);
                    },
                }
                i = i + 2;
            },
        }
    }
    proof {
        assert(sv.skip(segs@.len() as int) =~= Seq::<SegView>::empty());
        assert(out@ + Seq::<char>::empty() =~= out@);
    }
    Ok(out)
}

} // verus!

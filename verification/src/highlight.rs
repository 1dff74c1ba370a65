//! The highlight pass: wraps every occurrence of a literal substring
//! in bold markup.
//!
//! The needle is matched as literal text, character for character;
//! no character of it is a pattern.  A stretch that is already
//! wrapped in bold markup is copied unchanged, so running the pass
//! twice with the same needle changes nothing the second time.

use vstd::prelude::*;

verus! {

/// The opening bold tag.
pub open spec fn bold_open() -> Seq<char> {
    seq!['<', 'b', '>']
}

/// The closing bold tag.
pub open spec fn bold_close() -> Seq<char> {
    seq!['<', '/', 'b', '>']
}

/// `h` wrapped in bold markup.
pub open spec fn bold(h: Seq<char>) -> Seq<char> {
    bold_open() + h + bold_close()
}

/// `p` is a prefix of `s`.
pub open spec fn is_prefix(p: Seq<char>, s: Seq<char>) -> bool {
    p.len() <= s.len() && forall|j: int| 0 <= j < p.len() ==> p[j] == s[j]
}

/// The highlighted text.  Scanning left to right: an occurrence of
/// the bold-wrapped needle is copied whole, an occurrence of the bare
/// needle is wrapped in bold markup, and any other character is
/// copied.  An empty needle leaves the text unchanged.
pub open spec fn spec_highlight(s: Seq<char>, h: Seq<char>) -> Seq<char>
    decreases s.len(),
{
    if h.len() == 0 || s.len() == 0 {
        s
    } else if is_prefix(bold(h), s) {
        bold(h) + spec_highlight(s.skip(bold(h).len() as int), h)
    } else if is_prefix(h, s) {
        bold(h) + spec_highlight(s.skip(h.len() as int), h)
    } else {
        seq![s[0]] + spec_highlight(s.drop_first(), h)
    }
}

/// `h` occurs in `s` as a literal substring.
pub open spec fn occurs_in(h: Seq<char>, s: Seq<char>) -> bool {
    exists|i: int| 0 <= i && i + h.len() <= s.len() && is_prefix(h, s.skip(i))
}

/// The needle is matched only as literal text: a text in which it
/// does not occur character for character comes back unchanged,
/// whatever characters the needle is made of.
pub proof fn lemma_highlight_absent(s: Seq<char>, h: Seq<char>)
    requires
        h.len() > 0,
        !occurs_in(h, s),
    ensures
        spec_highlight(s, h) == s,
    decreases s.len(),
{
    if s.len() == 0 {
    } else if is_prefix(bold(h), s) {
        assert forall|k: int| 0 <= k < h.len() implies h[k] == s.skip(3)[k] by {
            assert(bold(h)[3 + k] == h[k]);
            assert(s[3 + k] == s.skip(3)[k]);
        }
        assert(is_prefix(h, s.skip(3)));
        assert(occurs_in(h, s));
        assert(false);
    } else if is_prefix(h, s) {
        assert(s.skip(0) =~= s);
        assert(is_prefix(h, s.skip(0)));
        assert(occurs_in(h, s));
        assert(false);
    } else {
        assert(!occurs_in(h, s.drop_first())) by {
            if occurs_in(h, s.drop_first()) {
                let i = choose|i: int|
                    0 <= i && i + h.len() <= s.drop_first().len() && is_prefix(
                        h,
                        s.drop_first().skip(i),
                    );
                assert(s.drop_first().skip(i) =~= s.skip(i + 1));
                assert(is_prefix(h, s.skip(i + 1)));
                assert(occurs_in(h, s));
            }
        }
        lemma_highlight_absent(s.drop_first(), h);
        assert(seq![s[0]] + s.drop_first() =~= s);
    }
}

/// `t` is left unchanged by the highlight pass for `h`: scanning it,
/// every position either starts a bold-wrapped needle, which is
/// copied, or starts neither a wrapped nor a bare needle.
pub open spec fn stable(t: Seq<char>, h: Seq<char>) -> bool
    decreases t.len(),
{
    if t.len() == 0 {
        true
    } else if is_prefix(bold(h), t) {
        stable(t.skip(bold(h).len() as int), h)
    } else {
        !is_prefix(h, t) && stable(t.drop_first(), h)
    }
}

/// A stable text is a fixed point of the highlight pass.
proof fn lemma_stable_fixpoint(t: Seq<char>, h: Seq<char>)
    requires
        h.len() > 0,
        stable(t, h),
    ensures
        spec_highlight(t, h) == t,
    decreases t.len(),
{
    if t.len() == 0 {
    } else if is_prefix(bold(h), t) {
        lemma_stable_fixpoint(t.skip(bold(h).len() as int), h);
        assert(bold(h) + t.skip(bold(h).len() as int) =~= t);
    } else {
        lemma_stable_fixpoint(t.drop_first(), h);
        assert(seq![t[0]] + t.drop_first() =~= t);
    }
}

/// A prefix of highlighted text that holds no `<` is a prefix of the
/// text that was highlighted: every inserted tag begins with `<`.
proof fn lemma_plain_prefix(w: Seq<char>, s: Seq<char>, h: Seq<char>)
    requires
        h.len() > 0,
        forall|j: int| 0 <= j < w.len() ==> w[j] != '<',
        is_prefix(w, spec_highlight(s, h)),
    ensures
        is_prefix(w, s),
    decreases s.len(),
{
    if w.len() == 0 {
    } else if s.len() == 0 {
    } else if is_prefix(bold(h), s) || is_prefix(h, s) {
        assert(spec_highlight(s, h)[0] == bold(h)[0]);
        assert(w[0] == '<');
        assert(false);
    } else {
        assert(w[0] == s[0]);
        assert forall|k: int| 0 <= k < w.drop_first().len() implies w.drop_first()[k]
            == spec_highlight(s.drop_first(), h)[k] by {
            assert(w[k + 1] == (seq![s[0]] + spec_highlight(s.drop_first(), h))[k + 1]);
        }
        lemma_plain_prefix(w.drop_first(), s.drop_first(), h);
        assert forall|k: int| 0 <= k < w.len() implies w[k] == s[k] by {
            if k >= 1 {
                assert(w.drop_first()[k - 1] == s.drop_first()[k - 1]);
            }
        }
    }
}

/// A suffix of the bold-wrapped needle that is a prefix of
/// highlighted text is a prefix of the text that was highlighted.
proof fn lemma_bold_suffix_prefix(j: int, s: Seq<char>, h: Seq<char>)
    requires
        h.len() > 0,
        forall|k: int| 0 <= k < h.len() ==> h[k] != '<',
        1 <= j <= bold(h).len(),
        is_prefix(bold(h).skip(j), spec_highlight(s, h)),
    ensures
        is_prefix(bold(h).skip(j), s),
    decreases s.len(),
{
    let p = bold(h).skip(j);
    if p.len() == 0 {
    } else if s.len() == 0 {
    } else if is_prefix(bold(h), s) || is_prefix(h, s) {
        let t = spec_highlight(s, h);
        assert(t[0] == bold(h)[0]);
        assert(p[0] == bold(h)[j]);
        if p[0] != '<' {
            assert(false);
        } else {
            assert(j == 3 + h.len());
            assert(p.len() == 4);
            assert(p[1] == bold(h)[j + 1]);
            assert(p[1] == '/');
            assert(t[1] == bold(h)[1]);
            assert(t[1] == 'b');
            assert(false);
        }
    } else {
        assert(p[0] == s[0]);
        assert(bold(h).skip(j).drop_first() =~= bold(h).skip(j + 1));
        assert forall|k: int| 0 <= k < bold(h).skip(j + 1).len() implies bold(h).skip(j + 1)[k]
            == spec_highlight(s.drop_first(), h)[k] by {
            assert(p[k + 1] == (seq![s[0]] + spec_highlight(s.drop_first(), h))[k + 1]);
        }
        lemma_bold_suffix_prefix(j + 1, s.drop_first(), h);
        assert forall|k: int| 0 <= k < p.len() implies p[k] == s[k] by {
            if k >= 1 {
                assert(bold(h).skip(j + 1)[k - 1] == s.drop_first()[k - 1]);
            }
        }
    }
}

/// The output of the highlight pass is stable when the needle holds
/// no `<`.
proof fn lemma_highlight_stable(s: Seq<char>, h: Seq<char>)
    requires
        h.len() > 0,
        forall|k: int| 0 <= k < h.len() ==> h[k] != '<',
    ensures
        stable(spec_highlight(s, h), h),
    decreases s.len(),
{
    if s.len() == 0 {
    } else if is_prefix(bold(h), s) {
        lemma_highlight_stable(s.skip(bold(h).len() as int), h);
        let rest = spec_highlight(s.skip(bold(h).len() as int), h);
        assert(is_prefix(bold(h), bold(h) + rest));
        assert((bold(h) + rest).skip(bold(h).len() as int) =~= rest);
    } else if is_prefix(h, s) {
        lemma_highlight_stable(s.skip(h.len() as int), h);
        let rest = spec_highlight(s.skip(h.len() as int), h);
        assert(is_prefix(bold(h), bold(h) + rest));
        assert((bold(h) + rest).skip(bold(h).len() as int) =~= rest);
    } else {
        lemma_highlight_stable(s.drop_first(), h);
        let rest = spec_highlight(s.drop_first(), h);
        let t = seq![s[0]] + rest;
        if is_prefix(bold(h), t) {
            assert(bold(h)[0] == s[0]);
            assert forall|k: int| 0 <= k < bold(h).skip(1).len() implies bold(h).skip(1)[k]
                == rest[k] by {
                assert(bold(h)[k + 1] == t[k + 1]);
            }
            lemma_bold_suffix_prefix(1, s.drop_first(), h);
            assert forall|k: int| 0 <= k < bold(h).len() implies bold(h)[k] == s[k] by {
                if k >= 1 {
                    assert(bold(h).skip(1)[k - 1] == s.drop_first()[k - 1]);
                }
            }
            assert(is_prefix(bold(h), s));
            assert(false);
        }
        if is_prefix(h, t) {
            assert(h[0] == s[0]);
            assert forall|k: int| 0 <= k < h.drop_first().len() implies h.drop_first()[k]
                == rest[k] by {
                assert(h[k + 1] == t[k + 1]);
            }
            lemma_plain_prefix(h.drop_first(), s.drop_first(), h);
            assert forall|k: int| 0 <= k < h.len() implies h[k] == s[k] by {
                if k >= 1 {
                    assert(h.drop_first()[k - 1] == s.drop_first()[k - 1]);
                }
            }
            assert(is_prefix(h, s));
            assert(false);
        }
        assert(t.drop_first() =~= rest);
        assert(stable(t, h));
    }
}

/// The highlight pass is idempotent: running it twice with the same
/// needle gives what one run gives, so bold tags are never nested or
/// doubled.  Holds for every needle without `<`; a needle that holds
/// tag fragments can create fresh occurrences of itself.
pub proof fn lemma_highlight_idempotent(s: Seq<char>, h: Seq<char>)
    requires
        forall|k: int| 0 <= k < h.len() ==> h[k] != '<',
    ensures
        spec_highlight(spec_highlight(s, h), h) == spec_highlight(s, h),
{
    if h.len() > 0 {
        lemma_highlight_stable(s, h);
        lemma_stable_fixpoint(spec_highlight(s, h), h);
    }
}

/// Whether `pat` occurs in `s` starting at position `i`.
fn starts_with_at(s: &str, pat: &str, i: usize) -> (r: bool)
    requires
        i <= s@.len(),
    ensures
        r == is_prefix(pat@, s@.skip(i as int)),
{
    let n: usize = s.unicode_len();
    let m: usize = pat.unicode_len();
    if m > n - i {
        return false;
    }
    let mut j: usize = 0;
    while j < m
        invariant
            j <= m,
            m == pat@.len(),
            n == s@.len(),
            i + m <= n,
            forall|k: int| 0 <= k < j ==> pat@[k] == s@[i + k],
        decreases m - j,
    {
        if pat.get_char(j) != s.get_char(i + j) {
            assert(pat@[j as int] != s@.skip(i as int)[j as int]);
            return false;
        }
        j = j + 1;
    }
    assert forall|k: int| 0 <= k < pat@.len() implies pat@[k] == s@.skip(i as int)[k] by {
        assert(s@.skip(i as int)[k] == s@[i + k]);
    }
    true
}

/// Wraps every occurrence of the literal `needle` in bold markup,
/// leaving stretches that are already wrapped unchanged.  An empty
/// needle leaves the text unchanged.
pub fn highlight_literal(text: &str, needle: &str) -> (r: String)
    ensures
        r@ == spec_highlight(text@, needle@),
{
    let hn: usize = needle.unicode_len();
    if hn == 0 {
        return String::from_str(text);
    }
    let mut bn: String = String::from_str("<b>");
    bn.append(needle);
    bn.append("</b>");
    proof {
        reveal_strlit("<b>");
        reveal_strlit("</b>");
        assert(bn@ =~= bold(needle@));
    }
    let bnlen: usize = bn.as_str().unicode_len();
    let n: usize = text.unicode_len();
    let mut out: String = String::new();
    let mut i: usize = 0;
    proof {
        assert(text@.skip(0) =~= text@);
        assert(out@ + spec_highlight(text@, needle@) =~= spec_highlight(text@, needle@));
    }
    while i < n
        invariant
            i <= n,
            n == text@.len(),
            hn == needle@.len(),
            hn > 0,
            bn@ == bold(needle@),
            bnlen == hn + 7,
            out@ + spec_highlight(text@.skip(i as int), needle@) =~= spec_highlight(
                text@,
                needle@,
            ),
        decreases n - i,
    {
        let ghost ov = out@;
        if starts_with_at(text, bn.as_str(), i) {
            out.append(bn.as_str());
            proof {
                assert(text@.skip(i as int).skip(bnlen as int) =~= text@.skip(i + bnlen));
                assert(ov + (bold(needle@) + spec_highlight(text@.skip(i + bnlen), needle@))
                    =~= (ov + bold(needle@)) + spec_highlight(text@.skip(i + bnlen), needle@));
            }
            i = i + bnlen;
        } else if starts_with_at(text, needle, i) {
            out.append(bn.as_str());
            proof {
                assert(text@.skip(i as int).skip(hn as int) =~= text@.skip(i + hn));
                assert(ov + (bold(needle@) + spec_highlight(text@.skip(i + hn), needle@))
                    =~= (ov + bold(needle@)) + spec_highlight(text@.skip(i + hn), needle@));
            }
            i = i + hn;
        } else {
            let piece = text.substring_char(i, i + 1);
            proof {
                assert(piece@ =~= seq![text@[i as int]]);
                assert(text@.skip(i as int).drop_first() =~= text@.skip(i + 1));
                assert(text@.skip(i as int)[0] == text@[i as int]);
                assert(ov + (piece@ + spec_highlight(text@.skip(i + 1), needle@))
                    =~= (ov + piece@) + spec_highlight(text@.skip(i + 1), needle@));
            }
            out.append(piece);
            i = i + 1;
        }
    }
    proof {
        assert(text@.skip(n as int) =~= Seq::<char>::empty());
        assert(out@ + Seq::<char>::empty() =~= out@);
    }
    out
}

} // verus!

//! The ideographic-character predicate: a token whose surface form
//! holds at least one ideograph gets ruby markup, any other token is
//! passed through verbatim.

use vstd::prelude::*;

verus! {

/// `c` is a CJK ideograph: the standard block, the compatibility
/// block, or one of the extension blocks A through G.
pub open spec fn is_ideographic(c: char) -> bool {
    (0x4e00 <= c as u32 <= 0x9ffc) || (0xf900 <= c as u32 <= 0xfaff) || (0x3400 <= c as u32
        <= 0x4dbf) || (0x20000 <= c as u32 <= 0x2a6dd) || (0x2a700 <= c as u32 <= 0x2b734) || (
    0x2b740 <= c as u32 <= 0x2b81d) || (0x2b820 <= c as u32 <= 0x2cea1) || (0x2ceb0 <= c as u32
        <= 0x2ebe0) || (0x30000 <= c as u32 <= 0x3134a)
}

/// Relies on `kanji::is_kanji`: true exactly on the nine CJK ideograph
/// ranges that `is_ideographic` lists.
#[verifier::external_body]
fn is_kanji_char(c: char) -> (r: bool)
    ensures
        r == is_ideographic(c),
{
    kanji::is_kanji(c)
}

/// Some character of `s` is an ideograph.
pub open spec fn has_ideograph(s: Seq<char>) -> bool {
    exists|i: int| 0 <= i < s.len() && is_ideographic(s[i])
}

/// Whether any character of `s` is an ideograph.
pub fn contains_ideograph(s: &str) -> (r: bool)
    ensures
        r == has_ideograph(s@),
{
    let n: usize = s.unicode_len();
    let mut i: usize = 0;
    while i < n
        invariant
            i <= n,
            n == s@.len(),
            forall|j: int| 0 <= j < i ==> !is_ideographic(s@[j]),
        decreases n - i,
    {
        if is_kanji_char(s.get_char(i)) {
            return true;
        }
        i = i + 1;
    }
    false
}

} // verus!

//! Character-level string utilities: splitting on a separator
//! character, splitting into lines, and string equality.

use vstd::prelude::*;

verus! {

/// Splitting `s` on `sep`, with `cur` the piece accumulated so far.
/// Mirrors splitting on a single character: the result always holds at
/// least one piece, and consecutive separators produce empty pieces.
pub open spec fn split_rec(s: Seq<char>, sep: char, cur: Seq<char>) -> Seq<Seq<char>>
    decreases s.len(),
{
    if s.len() == 0 {
        seq![cur]
    } else if s[0] == sep {
        seq![cur] + split_rec(s.drop_first(), sep, Seq::empty())
    } else {
        split_rec(s.drop_first(), sep, cur.push(s[0]))
    }
}

/// The pieces of `s` between occurrences of `sep`.
pub open spec fn spec_split(s: Seq<char>, sep: char) -> Seq<Seq<char>> {
    split_rec(s, sep, Seq::empty())
}

/// A line with one trailing carriage return removed.
pub open spec fn strip_cr(l: Seq<char>) -> Seq<char> {
    if l.len() > 0 && l[l.len() - 1] == '\r' {
        l.drop_last()
    } else {
        l
    }
}

/// The lines of `s`: pieces between newline characters, without a
/// final empty line when `s` ends in a newline, and with one trailing
/// carriage return stripped from each line.
pub open spec fn spec_lines(s: Seq<char>) -> Seq<Seq<char>> {
    if s.len() == 0 {
        Seq::empty()
    } else {
        let raw = spec_split(s, '\n');
        let trimmed = if s[s.len() - 1] == '\n' {
            raw.drop_last()
        } else {
            raw
        };
        trimmed.map_values(|l: Seq<char>| strip_cr(l))
    }
}

/// Splits `s` on the single character `sep`.
pub fn split_char(s: &str, sep: char) -> (r: Vec<String>)
    ensures
        r@.map_values(|p: String| p@) == spec_split(s@, sep),
{
    let len: usize = s.unicode_len();
    let mut out: Vec<String> = Vec::new();
    let mut cur: String = String::new();
    let mut i: usize = 0;
    proof {
        assert(s@.skip(0) =~= s@);
        assert(out@.map_values(|p: String| p@) + split_rec(s@, sep, cur@)
            =~= split_rec(s@, sep, cur@));
    }
    while i < len
        invariant
            i <= len,
            len == s@.len(),
            out@.map_values(|p: String| p@) + split_rec(s@.skip(i as int), sep, cur@)
                =~= spec_split(s@, sep),
        decreases len - i,
    {
        proof {
            assert(s@.skip(i as int).drop_first() =~= s@.skip(i + 1));
            assert(s@.skip(i as int)[0] == s@[i as int]);
        }
        let c = s.get_char(i);
        if c == sep {
            let ghost ov = out@;
            let ghost cv = cur@;
            out.push(cur);
            cur = String::new();
            proof {
                assert(out@.map_values(|p: String| p@)
                    =~= ov.map_values(|p: String| p@).push(cv));
            }
        } else {
            let ghost cv = cur@;
            let piece = s.substring_char(i, i + 1);
            proof {
                assert(piece@ =~= seq![s@[i as int]]);
            }
            cur.append(piece);
            proof {
                assert(cur@ =~= cv.push(s@[i as int]));
            }
        }
        i = i + 1;
    }
    proof {
        assert(s@.skip(len as int) =~= Seq::<char>::empty());
    }
    let ghost ov = out@;
    let ghost cv = cur@;
    out.push(cur);
    proof {
        assert(out@.map_values(|p: String| p@) =~= ov.map_values(|p: String| p@).push(cv));
        assert(out@.map_values(|p: String| p@) =~= spec_split(s@, sep));
    }
    out
}

/// Splitting never yields an empty sequence of pieces.
proof fn lemma_split_rec_len(s: Seq<char>, sep: char, cur: Seq<char>)
    ensures
        split_rec(s, sep, cur).len() >= 1,
    decreases s.len(),
{
    if s.len() == 0 {
    } else if s[0] == sep {
    } else {
        lemma_split_rec_len(s.drop_first(), sep, cur.push(s[0]));
    }
}

/// Splits `s` into lines as `spec_lines` describes.
pub fn split_lines(s: &str) -> (r: Vec<String>)
    ensures
        r@.map_values(|l: String| l@) == spec_lines(s@),
{
    let len: usize = s.unicode_len();
    if len == 0 {
        let out: Vec<String> = Vec::new();
        return out;
    }
    let mut pieces = split_char(s, '\n');
    let ghost rv: Seq<Seq<char>> = pieces@.map_values(|p: String| p@);
    if s.get_char(len - 1) == '\n' {
        proof {
            assert(pieces@.len() == rv.len());
            lemma_split_rec_len(s@, '\n', Seq::<char>::empty());
        }
        pieces.pop();
        proof {
            assert(pieces@.map_values(|p: String| p@) =~= rv.drop_last());
        }
    }
    let ghost trimmed: Seq<Seq<char>> = pieces@.map_values(|p: String| p@);
    let mut out: Vec<String> = Vec::new();
    let mut i: usize = 0;
    while i < pieces.len()
        invariant
            i <= pieces.len(),
            trimmed == pieces@.map_values(|p: String| p@),
            out@.map_values(|l: String| l@) =~= trimmed.take(i as int).map_values(
                |l: Seq<char>| strip_cr(l),
            ),
        decreases pieces.len() - i,
    {
        let line = stripped_of(&pieces[i]);
        let ghost ov = out@;
        let ghost lv = line@;
        out.push(line);
        proof {
            assert(out@.map_values(|l: String| l@)
                =~= ov.map_values(|l: String| l@).push(lv));
            assert(trimmed.take(i + 1).map_values(|l: Seq<char>| strip_cr(l))
                =~= trimmed.take(i as int).map_values(|l: Seq<char>| strip_cr(l)).push(
                strip_cr(trimmed[i as int]),
            ));
        }
        i = i + 1;
    }
    proof {
        assert(trimmed.take(pieces@.len() as int) =~= trimmed);
        assert(out@.map_values(|l: String| l@) =~= spec_lines(s@));
    }
    out
}

/// A copy of `l` with one trailing carriage return removed.
fn stripped_of(l: &String) -> (r: String)
    ensures
        r@ == strip_cr(l@),
{
    let n: usize = l.as_str().unicode_len();
    if n > 0 && l.as_str().get_char(n - 1) == '\r' {
        let r = l.as_str().substring_char(0, n - 1);
        proof {
            assert(r@ =~= l@.drop_last());
        }
        String::from_str(r)
    } else {
        l.clone()
    }
}

/// Character-for-character string equality.
pub fn str_eq(a: &str, b: &str) -> (r: bool)
    ensures
        r == (a@ == b@),
{
    let n: usize = a.unicode_len();
    if n != b.unicode_len() {
        return false;
    }
    let mut i: usize = 0;
    while i < n
        invariant
            i <= n,
            n == a@.len() == b@.len(),
            forall|j: int| 0 <= j < i ==> a@[j] == b@[j],
        decreases n - i,
    {
        if a.get_char(i) != b.get_char(i) {
            return false;
        }
        i = i + 1;
    }
    proof {
        assert(a@ =~= b@);
    }
    true
}

} // verus!

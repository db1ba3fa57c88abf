//! Literal text substitution: replacing the first occurrence of a literal
//! needle in a byte string, and folding a list of such replacements over a
//! string.  This is how symbolic placeholders in rule patterns and colors
//! are resolved into literal regex fragments and escape sequences.

use vstd::prelude::*;

verus! {

/// `needle` occurs in `s` at position `i`.
pub open spec fn matches_at(s: Seq<u8>, needle: Seq<u8>, i: int) -> bool {
    &&& 0 <= i
    &&& i + needle.len() <= s.len()
    &&& s.subrange(i, i + needle.len() as int) == needle
}

/// The first position at or after `i` where `needle` occurs in `s`, or -1
/// where it does not occur there.
pub open spec fn find_from(s: Seq<u8>, needle: Seq<u8>, i: int) -> int
    decreases s.len() + 1 - i,
{
    if i < 0 || i + needle.len() > s.len() {
        -1
    } else if matches_at(s, needle, i) {
        i
    } else {
        find_from(s, needle, i + 1)
    }
}

/// `s` with the first occurrence of `needle` replaced by `repl`; `s` itself
/// where `needle` does not occur.  An empty needle occurs at position 0, so
/// the replacement is prepended there.
pub open spec fn replace_first_model(s: Seq<u8>, needle: Seq<u8>, repl: Seq<u8>) -> Seq<u8> {
    let i = find_from(s, needle, 0);
    if i < 0 {
        s
    } else {
        s.subrange(0, i) + repl + s.subrange(i + needle.len(), s.len() as int)
    }
}

/// A list of (needle, replacement) pairs as mathematical byte strings.
pub open spec fn pairs_model(ps: Seq<(Vec<u8>, Vec<u8>)>) -> Seq<(Seq<u8>, Seq<u8>)> {
    Seq::new(ps.len(), |j: int| (ps[j].0@, ps[j].1@))
}

/// The first `n` replacement pairs folded over `s`, in order, each one
/// replacing the first occurrence of its needle in the previous result.
pub open spec fn subst_upto(s: Seq<u8>, pairs: Seq<(Seq<u8>, Seq<u8>)>, n: int) -> Seq<u8>
    decreases n,
{
    if n <= 0 {
        s
    } else {
        replace_first_model(subst_upto(s, pairs, n - 1), pairs[n - 1].0, pairs[n - 1].1)
    }
}

/// All replacement pairs folded over `s`, in list order.
pub open spec fn subst_all(s: Seq<u8>, pairs: Seq<(Seq<u8>, Seq<u8>)>) -> Seq<u8> {
    subst_upto(s, pairs, pairs.len() as int)
}

/// Appends `src[a..b]` to `out`.
pub(crate) fn append_range(out: &mut Vec<u8>, src: &Vec<u8>, a: usize, b: usize)
    requires
        a <= b,
        b <= src@.len(),
    ensures
        final(out)@ == old(out)@ + src@.subrange(a as int, b as int),
{
    let mut i: usize = a;
    while i < b
        invariant
            a <= i <= b,
            b <= src@.len(),
            out@ == old(out)@ + src@.subrange(a as int, i as int),
        decreases b - i,
    {
        let x = src[i];
        out.push(x);
        proof {
            assert(out@ =~= old(out)@ + src@.subrange(a as int, (i + 1) as int));
        }
        i = i + 1;
    }
}

/// Decides whether `needle` occurs in `s` at position `i`.
fn occurs_at(s: &Vec<u8>, needle: &Vec<u8>, i: usize) -> (r: bool)
    requires
        i + needle@.len() <= s@.len(),
    ensures
        r == matches_at(s@, needle@, i as int),
{
    let slen = s.len();
    let mut j: usize = 0;
    while j < needle.len()
        invariant
            j <= needle@.len(),
            slen == s@.len(),
            i + needle@.len() <= s@.len(),
            forall|t: int| 0 <= t < j ==> s@[i + t] == needle@[t],
        decreases needle@.len() - j,
    {
        if s[i + j] != needle[j] {
            proof {
                assert(s@.subrange(i as int, i + needle@.len() as int)[j as int] == s@[i + j]);
                assert(s@.subrange(i as int, i + needle@.len() as int) != needle@);
            }
            return false;
        }
        j = j + 1;
    }
    proof {
        assert(s@.subrange(i as int, i + needle@.len() as int) =~= needle@);
    }
    true
}

/// Searching from the first position where no occurrence was found earlier
/// finds the same first occurrence as searching from the start.
proof fn lemma_find_skip(s: Seq<u8>, needle: Seq<u8>, i: int)
    requires
        0 <= i,
        forall|j: int| 0 <= j < i ==> !matches_at(s, needle, j),
    ensures
        find_from(s, needle, 0) == find_from(s, needle, i),
    decreases i,
{
    if i > 0 {
        lemma_find_skip(s, needle, i - 1);
    }
}

/// Where the search reports a position, the needle does occur there.
proof fn lemma_find_found(s: Seq<u8>, needle: Seq<u8>, i: int)
    requires
        0 <= i,
        find_from(s, needle, i) >= 0,
    ensures
        matches_at(s, needle, find_from(s, needle, i)),
    decreases s.len() + 1 - i,
{
    if !(i + needle.len() > s.len()) && !matches_at(s, needle, i) {
        lemma_find_found(s, needle, i + 1);
    }
}

/// Finds the position of the first occurrence of `needle` in `s`.
pub fn find_first(s: &Vec<u8>, needle: &Vec<u8>) -> (r: Option<usize>)
    ensures
        r is Some ==> find_from(s@, needle@, 0) == r->0 as int,
        r is None ==> find_from(s@, needle@, 0) == -1,
{
    if needle.len() > s.len() {
        return None;
    }
    if needle.len() == 0 {
        proof {
            assert(s@.subrange(0, 0) =~= needle@);
            assert(matches_at(s@, needle@, 0));
        }
        return Some(0);
    }
    let last = s.len() - needle.len();
    let mut i: usize = 0;
    while i <= last
        invariant
            1 <= needle@.len() <= s@.len(),
            s@.len() <= usize::MAX,
            last == s@.len() - needle@.len(),
            i <= last + 1,
            forall|j: int| 0 <= j < i ==> !matches_at(s@, needle@, j),
        decreases last + 1 - i,
    {
        if occurs_at(s, needle, i) {
            proof {
                lemma_find_skip(s@, needle@, i as int);
            }
            return Some(i);
        }
        i = i + 1;
    }
    proof {
        lemma_find_skip(s@, needle@, i as int);
    }
    None
}

/// Replaces the first occurrence of `needle` in `s` with `repl`; returns
/// `s` unchanged where `needle` does not occur.
pub fn replace_first(s: &Vec<u8>, needle: &Vec<u8>, repl: &Vec<u8>) -> (out: Vec<u8>)
    ensures
        out@ == replace_first_model(s@, needle@, repl@),
{
    match find_first(s, needle) {
        Some(i) => {
            proof {
                lemma_find_found(s@, needle@, 0);
            }
            let slen = s.len();
            let mut out: Vec<u8> = Vec::new();
            append_range(&mut out, s, 0, i);
            append_range(&mut out, repl, 0, repl.len());
            append_range(&mut out, s, i + needle.len(), slen);
            proof {
                assert(out@ =~= replace_first_model(s@, needle@, repl@));
            }
            out
        },
        None => {
            let mut out: Vec<u8> = Vec::new();
            append_range(&mut out, s, 0, s.len());
            proof {
                assert(out@ =~= s@);
            }
            out
        },
    }
}

/// Folds every (needle, replacement) pair over `s`, in list order: each
/// pair replaces the first occurrence of its needle in the previous result.
pub fn substitute_all(s: &Vec<u8>, pairs: &Vec<(Vec<u8>, Vec<u8>)>) -> (out: Vec<u8>)
    ensures
        out@ == subst_all(s@, pairs_model(pairs@)),
{
    let mut cur: Vec<u8> = Vec::new();
    append_range(&mut cur, s, 0, s.len());
    proof {
        assert(cur@ =~= s@);
    }
    let mut k: usize = 0;
    while k < pairs.len()
        invariant
            k <= pairs@.len(),
            cur@ == subst_upto(s@, pairs_model(pairs@), k as int),
        decreases pairs@.len() - k,
    {
        let pair = &pairs[k];
        cur = replace_first(&cur, &pair.0, &pair.1);
        proof {
            assert(pairs_model(pairs@)[k as int] == (pair.0@, pair.1@));
        }
        k = k + 1;
    }
    cur
}

} // verus!

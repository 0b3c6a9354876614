//! Verified substring search and replacement over character sequences.
//!
//! The link and time normalizers are defined in terms of the spec
//! functions here: first occurrence of a needle, containment, and
//! left-to-right non-overlapping replacement, matching what the
//! corresponding operations of `str` do.

use vstd::prelude::*;

verus! {

/// True when `n` occurs in `h` starting at index `i`.
pub open spec fn is_match_at(h: Seq<char>, n: Seq<char>, i: int) -> bool {
    0 <= i && i + n.len() <= h.len() && h.subrange(i, i + n.len() as int) == n
}

/// Index of the first occurrence of `n` in `h`, scanning from the front.
pub open spec fn spec_find(h: Seq<char>, n: Seq<char>) -> Option<int>
    decreases h.len(),
{
    if n.len() == 0 {
        Some(0int)
    } else if h.len() < n.len() {
        None
    } else if h.subrange(0, n.len() as int) == n {
        Some(0int)
    } else {
        match spec_find(h.subrange(1, h.len() as int), n) {
            None => None,
            Some(j) => Some(j + 1),
        }
    }
}

/// `n` occurs somewhere in `h`.
pub open spec fn spec_contains(h: Seq<char>, n: Seq<char>) -> bool {
    spec_find(h, n) is Some
}

/// Replacement of every occurrence of `n` in `h` by `to`, scanning left
/// to right without overlap, as `str::replace` does.
pub open spec fn spec_replace(h: Seq<char>, n: Seq<char>, to: Seq<char>) -> Seq<char>
    decreases h.len(),
{
    if n.len() == 0 || h.len() < n.len() {
        h
    } else if h.subrange(0, n.len() as int) == n {
        to + spec_replace(h.subrange(n.len() as int, h.len() as int), n, to)
    } else {
        seq![h[0]] + spec_replace(h.subrange(1, h.len() as int), n, to)
    }
}

/// The result of `spec_find` is the first match: a match position with no
/// match anywhere before it; `None` means no match at all.
pub proof fn lemma_find_props(h: Seq<char>, n: Seq<char>)
    ensures
        match spec_find(h, n) {
            Some(i) => is_match_at(h, n, i) && (forall|j: int| 0 <= j < i ==> !is_match_at(h, n, j)),
            None => forall|j: int| !is_match_at(h, n, j),
        },
    decreases h.len(),
{
    if n.len() == 0 {
        assert(h.subrange(0, 0) =~= n);
        assert(is_match_at(h, n, 0));
    } else if h.len() < n.len() {
    } else if h.subrange(0, n.len() as int) == n {
        assert(is_match_at(h, n, 0));
    } else {
        let t = h.subrange(1, h.len() as int);
        lemma_find_props(t, n);
        assert forall|j: int| 1 <= j implies is_match_at(h, n, j) == is_match_at(t, n, j - 1) by {
            assert(t.len() == h.len() - 1);
            if 1 <= j && j + n.len() <= h.len() {
                assert(h.subrange(j, j + n.len() as int) =~= t.subrange(j - 1, j - 1 + n.len() as int));
            }
        }
        assert(!is_match_at(h, n, 0));
        match spec_find(t, n) {
            None => {
                assert forall|j: int| !is_match_at(h, n, j) by {
                    if 1 <= j {
                        assert(!is_match_at(t, n, j - 1));
                    }
                }
            },
            Some(k) => {
                assert(spec_find(h, n) == Some(k + 1));
                assert(is_match_at(h, n, k + 1));
                assert forall|j: int| 0 <= j < k + 1 implies !is_match_at(h, n, j) by {
                    if 1 <= j {
                        assert(!is_match_at(t, n, j - 1));
                    }
                }
            },
        }
    }
}

/// A match with no earlier match determines the value of `spec_find`.
pub proof fn lemma_first_match_find(h: Seq<char>, n: Seq<char>, i: int)
    requires
        is_match_at(h, n, i),
        forall|j: int| 0 <= j < i ==> !is_match_at(h, n, j),
    ensures
        spec_find(h, n) == Some(i),
{
    lemma_find_props(h, n);
    match spec_find(h, n) {
        None => {
            assert(false);
        },
        Some(k) => {
            if k < i {
                assert(!is_match_at(h, n, k));
                assert(false);
            }
            if i < k {
                assert(!is_match_at(h, n, i));
                assert(false);
            }
        },
    }
}

/// No match anywhere means `spec_find` yields nothing.
pub proof fn lemma_no_match_find(h: Seq<char>, n: Seq<char>)
    requires
        forall|j: int| !is_match_at(h, n, j),
    ensures
        spec_find(h, n) is None,
{
    lemma_find_props(h, n);
    if spec_find(h, n) is Some {
        assert(is_match_at(h, n, spec_find(h, n)->Some_0));
        assert(false);
    }
}

/// A match fixes each character of the haystack under the needle.
pub proof fn lemma_match_char(h: Seq<char>, n: Seq<char>, p: int, k: int)
    requires
        is_match_at(h, n, p),
        0 <= k < n.len(),
    ensures
        h[p + k] == n[k],
{
    assert(h.subrange(p, p + n.len() as int)[k] == h[p + k]);
}

/// Any match witnesses containment.
pub proof fn lemma_match_implies_found(h: Seq<char>, n: Seq<char>, i: int)
    requires
        is_match_at(h, n, i),
    ensures
        spec_contains(h, n),
{
    lemma_find_props(h, n);
    if spec_find(h, n) is None {
        assert(!is_match_at(h, n, i));
    }
}

/// No character of `s` between `from` and `to` is `c`, checked position
/// by position.
pub open spec fn no_char_range(s: Seq<char>, c: char, from: int, to: int) -> bool
    decreases to - from,
{
    from >= to || (s[from] != c && no_char_range(s, c, from + 1, to))
}

/// The positional check says what it means.
pub proof fn lemma_no_char_range(s: Seq<char>, c: char, from: int, to: int)
    requires
        no_char_range(s, c, from, to),
    ensures
        forall|i: int| from <= i < to ==> s[i] != c,
    decreases to - from,
{
    if from < to {
        lemma_no_char_range(s, c, from + 1, to);
    }
}

/// Replacing a needle that never occurs leaves the sequence unchanged.
pub proof fn lemma_replace_absent(h: Seq<char>, n: Seq<char>, to: Seq<char>)
    requires
        n.len() > 0,
        forall|j: int| !is_match_at(h, n, j),
    ensures
        spec_replace(h, n, to) == h,
    decreases h.len(),
{
    if h.len() < n.len() {
    } else if h.subrange(0, n.len() as int) == n {
        assert(is_match_at(h, n, 0));
        assert(false);
    } else {
        let t = h.subrange(1, h.len() as int);
        assert forall|j: int| !is_match_at(t, n, j) by {
            if 0 <= j && j + n.len() <= t.len() {
                assert(h.subrange(j + 1, j + 1 + n.len() as int) =~= t.subrange(j, j + n.len() as int));
                assert(!is_match_at(h, n, j + 1));
            }
        }
        lemma_replace_absent(t, n, to);
        assert(seq![h[0]] + t =~= h);
    }
}

/// Character-by-character comparison of `n` against `h` at offset `i`.
fn eq_at(h: &str, n: &str, i: usize) -> (r: bool)
    requires
        i + n@.len() <= h@.len(),
        h@.len() <= usize::MAX,
    ensures
        r == is_match_at(h@, n@, i as int),
{
    let nl = n.unicode_len();
    let mut k: usize = 0;
    while k < nl
        invariant
            k <= nl,
            nl == n@.len(),
            i + nl <= h@.len(),
            h@.len() <= usize::MAX,
            forall|t: int| 0 <= t < k ==> h@[i + t] == n@[t],
        decreases nl - k,
    {
        if h.get_char(i + k) != n.get_char(k) {
            proof {
                if is_match_at(h@, n@, i as int) {
                    assert(h@.subrange(i as int, i + nl as int)[k as int] == n@[k as int]);
                }
            }
            return false;
        }
        k += 1;
    }
    proof {
        assert(h@.subrange(i as int, i + nl as int) =~= n@);
    }
    true
}

/// First occurrence of `n` in `h`, as an index in characters.
pub fn find_sub(h: &str, n: &str) -> (r: Option<usize>)
    ensures
        match r {
            Some(i) => spec_find(h@, n@) == Some(i as int),
            None => spec_find(h@, n@) is None,
        },
{
    let hl = h.unicode_len();
    let nl = n.unicode_len();
    if nl == 0 {
        return Some(0);
    }
    if nl > hl {
        return None;
    }
    let mut i: usize = 0;
    while i <= hl - nl
        invariant
            hl == h@.len(),
            nl == n@.len(),
            1 <= nl <= hl,
            i <= hl - nl + 1,
            forall|j: int| 0 <= j < i ==> !is_match_at(h@, n@, j),
        decreases hl - nl - i + 1,
    {
        if eq_at(h, n, i) {
            proof {
                lemma_first_match_find(h@, n@, i as int);
            }
            return Some(i);
        }
        i += 1;
    }
    proof {
        assert forall|j: int| !is_match_at(h@, n@, j) by {
            if 0 <= j && j + n@.len() <= h@.len() {
                assert(j < i);
            }
        }
        lemma_no_match_find(h@, n@);
    }
    None
}

/// Whether two string slices hold the same characters.
pub fn str_eq(a: &str, b: &str) -> (r: bool)
    ensures
        r == (a@ == b@),
{
    let al = a.unicode_len();
    let bl = b.unicode_len();
    if al != bl {
        return false;
    }
    let r = eq_at(a, b, 0);
    proof {
        if r {
            assert(a@.subrange(0, bl as int) =~= a@);
        } else {
            if a@ == b@ {
                assert(a@.subrange(0, bl as int) =~= b@);
            }
        }
    }
    r
}

/// Whether `n` occurs in `h`.
pub fn contains_sub(h: &str, n: &str) -> (r: bool)
    ensures
        r == spec_contains(h@, n@),
{
    find_sub(h, n).is_some()
}

/// Every occurrence of `n` in `h` replaced by `to`, left to right.
#[verifier::rlimit(60)]
pub fn replace_all(h: &str, n: &str, to: &str) -> (r: String)
    ensures
        r@ == spec_replace(h@, n@, to@),
{
    let hl = h.unicode_len();
    let nl = n.unicode_len();
    if nl == 0 {
        return h.to_owned();
    }
    let mut res = String::new();
    let mut i: usize = 0;
    proof {
        assert(h@.subrange(0, hl as int) =~= h@);
        assert(Seq::<char>::empty() + spec_replace(h@, n@, to@) =~= spec_replace(h@, n@, to@));
    }
    while i < hl
        invariant
            hl == h@.len(),
            nl == n@.len(),
            nl >= 1,
            i <= hl,
            spec_replace(h@, n@, to@) == res@ + spec_replace(
                h@.subrange(i as int, hl as int),
                n@,
                to@,
            ),
        decreases hl - i,
    {
        let ghost rem = h@.subrange(i as int, hl as int);
        if nl <= hl && i <= hl - nl && eq_at(h, n, i) {
            res.append(to);
            proof {
                assert(rem.subrange(0, nl as int) =~= h@.subrange(i as int, i + nl as int));
                assert(rem.subrange(nl as int, rem.len() as int) =~= h@.subrange(
                    i + nl as int,
                    hl as int,
                ));
                let tail = spec_replace(h@.subrange(i + nl as int, hl as int), n@, to@);
                assert(spec_replace(rem, n@, to@) == to@ + tail);
                assert((res@ + spec_replace(rem, n@, to@)) =~= ((res@ + to@) + tail));
            }
            i += nl;
        } else {
            let piece = h.substring_char(i, i + 1);
            res.append(piece);
            proof {
                let tail_seq = h@.subrange(i + 1 as int, hl as int);
                if i + nl <= hl {
                    assert(rem.subrange(0, nl as int) =~= h@.subrange(i as int, i + nl as int));
                    assert(!(rem.subrange(0, nl as int) == n@));
                }
                assert(rem.subrange(1, rem.len() as int) =~= tail_seq);
                assert(seq![rem[0]] =~= piece@);
                let tail = spec_replace(tail_seq, n@, to@);
                assert(spec_replace(rem, n@, to@) == seq![rem[0]] + tail);
                assert((res@ + spec_replace(rem, n@, to@)) =~= ((res@ + piece@) + tail));
            }
            i += 1;
        }
    }
    proof {
        assert(h@.subrange(hl as int, hl as int) =~= Seq::<char>::empty());
        assert(res@ + Seq::<char>::empty() =~= res@);
    }
    res
}

} // verus!

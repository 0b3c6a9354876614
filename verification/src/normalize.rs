//! Link and time normalization.
//!
//! `handle_link` reduces the accepted URL shapes (canonical watch URL with
//! optional playlist or index query parameters, short-link form, live form)
//! to one canonical watch-URL form. `handle_time` zero-pads `SS`, `MM:SS`
//! or `HH:MM:SS` strings to the canonical `HH:MM:SS` form and rejects any
//! other segment count.

use vstd::prelude::*;

use crate::strutil::{
    contains_sub, find_sub, is_match_at, lemma_find_props, replace_all, spec_contains, spec_find,
    spec_replace,
};
use crate::ClipError;

verus! {

/// First normalization step: the live URL prefix becomes the short one.
pub open spec fn spec_link_step1(s: Seq<char>) -> Seq<char> {
    if spec_contains(s, "https://www.youtube.com/live/"@) {
        spec_replace(s, "https://www.youtube.com/live/"@, "https://youtu.be/"@)
    } else {
        s
    }
}

/// Second step: a watch URL is cut at its first playlist and index
/// parameters; any other URL with a query is cut at the first `?` and
/// rebuilt as a watch URL around what is left of its short form.
pub open spec fn spec_link_step2(s1: Seq<char>) -> Seq<char> {
    if spec_contains(s1, "watch"@) {
        let a = if spec_contains(s1, "&list="@) {
            s1.subrange(0, spec_find(s1, "&list="@)->Some_0)
        } else {
            s1
        };
        if spec_contains(a, "&index="@) {
            a.subrange(0, spec_find(a, "&index="@)->Some_0)
        } else {
            a
        }
    } else {
        if spec_contains(s1, "?"@) {
            let cut = s1.subrange(0, spec_find(s1, "?"@)->Some_0);
            "https://www.youtube.com/watch?v="@ + spec_replace(
                cut,
                "https://youtu.be/"@,
                Seq::<char>::empty(),
            )
        } else {
            s1
        }
    }
}

/// Third step: a remaining short-link prefix becomes the watch prefix.
pub open spec fn spec_link_step3(s2: Seq<char>) -> Seq<char> {
    if spec_contains(s2, "https://youtu.be/"@) {
        spec_replace(s2, "https://youtu.be/"@, "https://www.youtube.com/watch?v="@)
    } else {
        s2
    }
}

/// The canonical link form that `handle_link` produces, as a value.
pub open spec fn spec_handle_link(s: Seq<char>) -> Seq<char> {
    spec_link_step3(spec_link_step2(spec_link_step1(s)))
}

/// Reduces a raw link to the canonical watch-URL form.
pub fn handle_link(link: &str) -> (r: String)
    ensures
        r@ == spec_handle_link(link@),
{
    let mut cur: String = link.to_owned();
    if contains_sub(cur.as_str(), "https://www.youtube.com/live/") {
        cur = replace_all(cur.as_str(), "https://www.youtube.com/live/", "https://youtu.be/");
    }
    if contains_sub(cur.as_str(), "watch") {
        match find_sub(cur.as_str(), "&list=") {
            Some(i) => {
                proof {
                    lemma_find_props(cur@, "&list="@);
                }
                let t = cur.as_str().substring_char(0, i).to_owned();
                cur = t;
            },
            None => {},
        }
        match find_sub(cur.as_str(), "&index=") {
            Some(i) => {
                proof {
                    lemma_find_props(cur@, "&index="@);
                }
                let t = cur.as_str().substring_char(0, i).to_owned();
                cur = t;
            },
            None => {},
        }
    } else {
        match find_sub(cur.as_str(), "?") {
            Some(i) => {
                proof {
                    lemma_find_props(cur@, "?"@);
                }
                let cut = cur.as_str().substring_char(0, i).to_owned();
                let id = replace_all(cut.as_str(), "https://youtu.be/", "");
                proof {
                    reveal_strlit("");
                    assert(""@ =~= Seq::<char>::empty());
                }
                let mut built = String::from_str("https://www.youtube.com/watch?v=");
                built.append(id.as_str());
                cur = built;
            },
            None => {},
        }
    }
    if contains_sub(cur.as_str(), "https://youtu.be/") {
        cur = replace_all(cur.as_str(), "https://youtu.be/", "https://www.youtube.com/watch?v=");
    }
    cur
}

/// A time segment padded on the left with zeroes to width two.
pub open spec fn spec_pad2(seg: Seq<char>) -> Seq<char> {
    if seg.len() >= 2 {
        seg
    } else if seg.len() == 1 {
        seq!['0'] + seg
    } else {
        seq!['0', '0']
    }
}

/// The canonical `HH:MM:SS` form built from three raw segments.
pub open spec fn spec_time3(a: Seq<char>, b: Seq<char>, c: Seq<char>) -> Seq<char> {
    spec_pad2(a) + seq![':'] + spec_pad2(b) + seq![':'] + spec_pad2(c)
}

/// The canonical timecode of a raw time string: segments split on `:`,
/// missing leading segments read as zero; more than three segments have
/// no canonical form.
pub open spec fn spec_normalize_time(s: Seq<char>) -> Option<Seq<char>> {
    let colon = seq![':'];
    match spec_find(s, colon) {
        None => Some(spec_time3(Seq::<char>::empty(), Seq::<char>::empty(), s)),
        Some(i) => {
            let a = s.subrange(0, i);
            let rest = s.subrange(i + 1, s.len() as int);
            match spec_find(rest, colon) {
                None => Some(spec_time3(Seq::<char>::empty(), a, rest)),
                Some(j) => {
                    let b = rest.subrange(0, j);
                    let c = rest.subrange(j + 1, rest.len() as int);
                    if spec_contains(c, colon) {
                        None
                    } else {
                        Some(spec_time3(a, b, c))
                    }
                },
            }
        },
    }
}

/// Pads a time segment on the left with zeroes to width two.
fn pad2(seg: &str) -> (r: String)
    ensures
        r@ == spec_pad2(seg@),
{
    let l = seg.unicode_len();
    if l >= 2 {
        seg.to_owned()
    } else if l == 1 {
        let mut s = String::from_str("0");
        s.append(seg);
        proof {
            reveal_strlit("0");
            assert("0"@ =~= seq!['0']);
        }
        s
    } else {
        let s = String::from_str("00");
        proof {
            reveal_strlit("00");
            assert("00"@ =~= seq!['0', '0']);
        }
        s
    }
}

/// Builds `HH:MM:SS` from three raw segments.
fn build_time3(a: &str, b: &str, c: &str) -> (r: String)
    ensures
        r@ == spec_time3(a@, b@, c@),
{
    let mut out = pad2(a);
    out.append(":");
    let pb = pad2(b);
    out.append(pb.as_str());
    out.append(":");
    let pc = pad2(c);
    out.append(pc.as_str());
    proof {
        reveal_strlit(":");
        assert(":"@ =~= seq![':']);
        assert(out@ =~= spec_time3(a@, b@, c@));
    }
    out
}

/// Zero-pads a raw time string to the canonical `HH:MM:SS` form; a string
/// of more than three colon-separated segments is rejected.
pub fn handle_time(time: &str) -> (r: Result<String, ClipError>)
    ensures
        match r {
            Ok(t) => spec_normalize_time(time@) == Some(t@),
            Err(e) => spec_normalize_time(time@) is None && e == ClipError::InvalidTimeFormat,
        },
{
    proof {
        reveal_strlit(":");
        reveal_strlit("");
        assert(":"@ =~= seq![':']);
        assert(""@ =~= Seq::<char>::empty());
    }
    let tl = time.unicode_len();
    match find_sub(time, ":") {
        None => Ok(build_time3("", "", time)),
        Some(i) => {
            proof {
                lemma_find_props(time@, ":"@);
            }
            let a = time.substring_char(0, i).to_owned();
            let rest = time.substring_char(i + 1, tl).to_owned();
            match find_sub(rest.as_str(), ":") {
                None => Ok(build_time3("", a.as_str(), rest.as_str())),
                Some(j) => {
                    proof {
                        lemma_find_props(rest@, ":"@);
                    }
                    let rl = rest.unicode_len();
                    let b = rest.as_str().substring_char(0, j).to_owned();
                    let c = rest.as_str().substring_char(j + 1, rl).to_owned();
                    if contains_sub(c.as_str(), ":") {
                        Err(ClipError::InvalidTimeFormat)
                    } else {
                        Ok(build_time3(a.as_str(), b.as_str(), c.as_str()))
                    }
                },
            }
        },
    }
}

} // verus!

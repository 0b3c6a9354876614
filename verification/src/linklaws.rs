//! Laws of the link normalizer.
//!
//! On every supported link shape — the canonical watch URL with optional
//! playlist and index query parameters, the short-link form with an
//! optional `?si=` query, and the live form with the same — normalization
//! is idempotent, and its result always carries the `v=` marker from
//! which the video identifier is extracted.

use vstd::prelude::*;

use crate::normalize::{
    spec_handle_link, spec_link_step1, spec_link_step2, spec_link_step3,
};
use crate::requests::spec_link_id;
use crate::strutil::{
    is_match_at, lemma_find_props, lemma_first_match_find, lemma_match_char,
    lemma_match_implies_found, lemma_no_char_range, lemma_no_match_find, lemma_replace_absent,
    no_char_range, spec_contains, spec_find, spec_replace,
};

verus! {

/// The canonical watch-URL prefix.
pub open spec fn watch_prefix() -> Seq<char> {
    "https://www.youtube.com/watch?v="@
}

/// The short-link prefix.
pub open spec fn short_prefix() -> Seq<char> {
    "https://youtu.be/"@
}

/// The live-URL prefix.
pub open spec fn live_prefix() -> Seq<char> {
    "https://www.youtube.com/live/"@
}

/// The playlist parameter marker.
pub open spec fn list_marker() -> Seq<char> {
    "&list="@
}

/// The index parameter marker.
pub open spec fn index_marker() -> Seq<char> {
    "&index="@
}

/// The share-tracking query marker of short and live links.
pub open spec fn qsi_marker() -> Seq<char> {
    "?si="@
}

/// A character that may stand in a video identifier or a query value:
/// a letter, a digit, `-` or `_`.
pub open spec fn is_plain_char(c: char) -> bool {
    (97 <= c as u32 && c as u32 <= 122) || (65 <= c as u32 && c as u32 <= 90) || (48 <= c as u32
        && c as u32 <= 57) || c == '-' || c == '_'
}

/// Every character of `s` is plain.
pub open spec fn all_plain(s: Seq<char>) -> bool {
    forall|i: int| 0 <= i < s.len() ==> is_plain_char(#[trigger] s[i])
}

/// A non-empty identifier of plain characters.
pub open spec fn valid_video_id(s: Seq<char>) -> bool {
    s.len() > 0 && all_plain(s)
}

/// A watch URL with an identifier and one of the accepted parameter tails.
pub open spec fn is_watch_shape(s: Seq<char>, id: Seq<char>, tail: Seq<char>) -> bool {
    valid_video_id(id) && s == watch_prefix() + id + tail && (tail == Seq::<char>::empty() || (
    exists|q: Seq<char>|
        all_plain(q) && (tail == list_marker() + q || tail == index_marker() + q)) || (exists|
        q1: Seq<char>,
        q2: Seq<char>,
    | all_plain(q1) && all_plain(q2) && tail == list_marker() + q1 + index_marker() + q2))
}

/// An accepted tail of a short or live link: nothing, or a `?si=` query.
pub open spec fn is_query_tail(tail: Seq<char>) -> bool {
    tail == Seq::<char>::empty() || (exists|q: Seq<char>| all_plain(q) && tail == qsi_marker() + q)
}

/// A short link with an identifier and an optional query.
pub open spec fn is_short_shape(s: Seq<char>, id: Seq<char>, tail: Seq<char>) -> bool {
    valid_video_id(id) && s == short_prefix() + id + tail && is_query_tail(tail)
}

/// A live link with an identifier and an optional query.
pub open spec fn is_live_shape(s: Seq<char>, id: Seq<char>, tail: Seq<char>) -> bool {
    valid_video_id(id) && s == live_prefix() + id + tail && is_query_tail(tail)
}

/// The link shapes the normalizer accepts.
pub open spec fn is_supported_link(s: Seq<char>) -> bool {
    exists|id: Seq<char>, tail: Seq<char>|
        is_watch_shape(s, id, tail) || is_short_shape(s, id, tail) || is_live_shape(s, id, tail)
}

/// A canonical result: the watch prefix followed by text free of `:`
/// and `&`.
pub open spec fn is_normalized(y: Seq<char>) -> bool {
    exists|rest: Seq<char>|
        y == watch_prefix() + rest && (forall|i: int|
            0 <= i < rest.len() ==> (#[trigger] rest[i]) != ':' && rest[i] != '&')
}

/// Plain characters are none of the structural URL characters.
proof fn lemma_plain_chars(s: Seq<char>)
    requires
        all_plain(s),
    ensures
        forall|i: int|
            0 <= i < s.len() ==> (#[trigger] s[i]) != ':' && s[i] != '&' && s[i] != '?',
{
    assert forall|i: int|
        0 <= i < s.len() implies (#[trigger] s[i]) != ':' && s[i] != '&' && s[i] != '?' by {
        assert(is_plain_char(s[i]));
    }
}

/// The characters of the fixed URL fragments that the arguments rest on.
#[verifier::rlimit(100)]
proof fn lemma_fragment_chars()
    ensures
        watch_prefix().len() == 32,
        watch_prefix()[5] == ':',
        watch_prefix()[8] == 'w',
        watch_prefix()[24] == 'w',
        watch_prefix()[25] == 'a',
        watch_prefix()[26] == 't',
        watch_prefix()[27] == 'c',
        watch_prefix()[28] == 'h',
        watch_prefix()[30] == 'v',
        watch_prefix()[31] == '=',
        forall|i: int| 0 <= i < 32 && i != 5 ==> watch_prefix()[i] != ':',
        forall|i: int| 0 <= i < 32 ==> watch_prefix()[i] != '&',
        short_prefix().len() == 17,
        short_prefix()[5] == ':',
        short_prefix()[8] == 'y',
        forall|i: int| 0 <= i < 17 && i != 5 ==> short_prefix()[i] != ':',
        forall|i: int| 0 <= i < 17 ==> short_prefix()[i] != '&' && short_prefix()[i] != '?',
        live_prefix().len() == 29,
        live_prefix()[5] == ':',
        live_prefix()[8] == 'w',
        live_prefix()[24] == 'l',
        forall|i: int| 0 <= i < 29 && i != 5 ==> live_prefix()[i] != ':',
        list_marker().len() == 6,
        list_marker()[0] == '&',
        list_marker()[1] == 'l',
        forall|i: int| 0 <= i < 6 ==> list_marker()[i] != ':',
        forall|i: int| 1 <= i < 6 ==> list_marker()[i] != '&',
        index_marker().len() == 7,
        index_marker()[0] == '&',
        index_marker()[1] == 'i',
        forall|i: int| 0 <= i < 7 ==> index_marker()[i] != ':',
        forall|i: int| 1 <= i < 7 ==> index_marker()[i] != '&',
        "watch"@.len() == 5,
        "watch"@[0] == 'w',
        "watch"@[1] == 'a',
        "watch"@[2] == 't',
        "watch"@[3] == 'c',
        "watch"@[4] == 'h',
        qsi_marker().len() == 4,
        qsi_marker()[0] == '?',
        forall|i: int| 0 <= i < 4 ==> qsi_marker()[i] != ':' && qsi_marker()[i] != '&',
        forall|i: int| 1 <= i < 4 ==> qsi_marker()[i] != '?',
        "?"@.len() == 1,
        "?"@[0] == '?',
{
    reveal_strlit("https://www.youtube.com/watch?v=");
    reveal_strlit("https://youtu.be/");
    reveal_strlit("https://www.youtube.com/live/");
    reveal_strlit("&list=");
    reveal_strlit("&index=");
    reveal_strlit("watch");
    reveal_strlit("?si=");
    reveal_strlit("?");
    reveal_with_fuel(no_char_range, 40);
    assert(no_char_range(watch_prefix(), ':', 0, 5));
    assert(no_char_range(watch_prefix(), ':', 6, 32));
    assert(no_char_range(watch_prefix(), '&', 0, 32));
    assert(no_char_range(short_prefix(), ':', 0, 5));
    assert(no_char_range(short_prefix(), ':', 6, 17));
    assert(no_char_range(short_prefix(), '&', 0, 17));
    assert(no_char_range(short_prefix(), '?', 0, 17));
    assert(no_char_range(live_prefix(), ':', 0, 5));
    assert(no_char_range(live_prefix(), ':', 6, 29));
    assert(no_char_range(list_marker(), ':', 0, 6));
    assert(no_char_range(list_marker(), '&', 1, 6));
    assert(no_char_range(index_marker(), ':', 0, 7));
    assert(no_char_range(index_marker(), '&', 1, 7));
    assert(no_char_range(qsi_marker(), ':', 0, 4));
    assert(no_char_range(qsi_marker(), '&', 0, 4));
    assert(no_char_range(qsi_marker(), '?', 1, 4));
    lemma_no_char_range(watch_prefix(), ':', 0, 5);
    lemma_no_char_range(watch_prefix(), ':', 6, 32);
    lemma_no_char_range(watch_prefix(), '&', 0, 32);
    lemma_no_char_range(short_prefix(), ':', 0, 5);
    lemma_no_char_range(short_prefix(), ':', 6, 17);
    lemma_no_char_range(short_prefix(), '&', 0, 17);
    lemma_no_char_range(short_prefix(), '?', 0, 17);
    lemma_no_char_range(live_prefix(), ':', 0, 5);
    lemma_no_char_range(live_prefix(), ':', 6, 29);
    lemma_no_char_range(list_marker(), ':', 0, 6);
    lemma_no_char_range(list_marker(), '&', 1, 6);
    lemma_no_char_range(index_marker(), ':', 0, 7);
    lemma_no_char_range(index_marker(), '&', 1, 7);
    lemma_no_char_range(qsi_marker(), ':', 0, 4);
    lemma_no_char_range(qsi_marker(), '&', 0, 4);
    lemma_no_char_range(qsi_marker(), '?', 1, 4);
}

/// Concatenation keeps freedom from a character.
proof fn lemma_free_concat(a: Seq<char>, b: Seq<char>, c: char)
    requires
        forall|i: int| 0 <= i < a.len() ==> (#[trigger] a[i]) != c,
        forall|i: int| 0 <= i < b.len() ==> (#[trigger] b[i]) != c,
    ensures
        forall|i: int| 0 <= i < (a + b).len() ==> (#[trigger] (a + b)[i]) != c,
{
    assert forall|i: int| 0 <= i < (a + b).len() implies (#[trigger] (a + b)[i]) != c by {
        if i < a.len() {
            assert((a + b)[i] == a[i]);
        } else {
            assert((a + b)[i] == b[i - a.len()]);
        }
    }
}

/// A prefix whose only `:` stands at index 5, followed by colon-free
/// text, keeps its `:` at index 5 alone.
proof fn lemma_colon_only_concat(a: Seq<char>, b: Seq<char>)
    requires
        a.len() > 5,
        forall|i: int| 0 <= i < a.len() && i != 5 ==> (#[trigger] a[i]) != ':',
        forall|i: int| 0 <= i < b.len() ==> (#[trigger] b[i]) != ':',
    ensures
        forall|i: int| 0 <= i < (a + b).len() && i != 5 ==> (#[trigger] (a + b)[i]) != ':',
{
    assert forall|i: int| 0 <= i < (a + b).len() && i != 5 implies (#[trigger] (a + b)[i])
        != ':' by {
        if i < a.len() {
            assert((a + b)[i] == a[i]);
        } else {
            assert((a + b)[i] == b[i - a.len()]);
        }
    }
}

/// A needle carrying `:` at index 5 cannot occur in a string whose only
/// `:` stands at index 5 and which disagrees with the needle at `d`.
proof fn lemma_absent_by_colon(y: Seq<char>, n: Seq<char>, d: int)
    requires
        forall|i: int| 0 <= i < y.len() && i != 5 ==> (#[trigger] y[i]) != ':',
        n.len() > 5,
        n[5] == ':',
        0 <= d < n.len(),
        d < y.len() ==> y[d] != n[d],
    ensures
        !spec_contains(y, n),
        forall|p: int| !is_match_at(y, n, p),
{
    assert forall|p: int| !is_match_at(y, n, p) by {
        if is_match_at(y, n, p) {
            lemma_match_char(y, n, p, 5);
            assert(p == 0);
            lemma_match_char(y, n, 0, d);
        }
    }
    lemma_no_match_find(y, n);
}

/// A needle starting with character `c` cannot occur in a `c`-free string.
proof fn lemma_absent_by_char(y: Seq<char>, n: Seq<char>, c: char)
    requires
        forall|i: int| 0 <= i < y.len() ==> (#[trigger] y[i]) != c,
        n.len() > 0,
        n[0] == c,
    ensures
        !spec_contains(y, n),
        forall|p: int| !is_match_at(y, n, p),
{
    assert forall|p: int| !is_match_at(y, n, p) by {
        if is_match_at(y, n, p) {
            lemma_match_char(y, n, p, 0);
        }
    }
    lemma_no_match_find(y, n);
}

/// Replacing a whole leading prefix, when the text after it is colon-free
/// and the prefix holds `:` at index 5.
proof fn lemma_replace_whole_prefix(pre: Seq<char>, rest: Seq<char>, to: Seq<char>)
    requires
        pre.len() > 5,
        pre[5] == ':',
        forall|i: int| 0 <= i < rest.len() ==> (#[trigger] rest[i]) != ':',
    ensures
        spec_replace(pre + rest, pre, to) == to + rest,
{
    let h = pre + rest;
    assert(h.subrange(0, pre.len() as int) =~= pre);
    assert(h.subrange(pre.len() as int, h.len() as int) =~= rest);
    assert forall|p: int| !is_match_at(rest, pre, p) by {
        if is_match_at(rest, pre, p) {
            lemma_match_char(rest, pre, p, 5);
        }
    }
    lemma_replace_absent(rest, pre, to);
}

/// `watch` occurs in the watch prefix, at index 24.
proof fn lemma_watch_witness(rest: Seq<char>)
    ensures
        spec_contains(watch_prefix() + rest, "watch"@),
{
    lemma_fragment_chars();
    let y = watch_prefix() + rest;
    assert(y.subrange(24, 29) =~= "watch"@) by {
        assert(y[24] == 'w' && y[25] == 'a' && y[26] == 't' && y[27] == 'c' && y[28] == 'h');
    }
    assert(is_match_at(y, "watch"@, 24));
    lemma_match_implies_found(y, "watch"@, 24);
}

/// A canonical result is a fixed point of normalization.
proof fn lemma_normalized_fixed(y: Seq<char>)
    requires
        is_normalized(y),
    ensures
        spec_handle_link(y) == y,
{
    lemma_fragment_chars();
    let rest = choose|rest: Seq<char>|
        y == watch_prefix() + rest && (forall|i: int|
            0 <= i < rest.len() ==> (#[trigger] rest[i]) != ':' && rest[i] != '&');
    lemma_colon_only_concat(watch_prefix(), rest);
    lemma_free_concat(watch_prefix(), rest, '&');
    assert(y[24] == 'w');
    lemma_absent_by_colon(y, live_prefix(), 24);
    assert(spec_link_step1(y) == y);
    lemma_watch_witness(rest);
    lemma_absent_by_char(y, list_marker(), '&');
    lemma_absent_by_char(y, index_marker(), '&');
    assert(spec_link_step2(y) == y);
    assert(y[8] == 'w');
    lemma_absent_by_colon(y, short_prefix(), 8);
    assert(spec_link_step3(y) == y);
}

/// A canonical result carries the `v=` marker of its identifier.
proof fn lemma_normalized_marker(y: Seq<char>)
    requires
        is_normalized(y),
    ensures
        spec_contains(y, seq!['v', '=']),
{
    lemma_fragment_chars();
    let rest = choose|rest: Seq<char>|
        y == watch_prefix() + rest && (forall|i: int|
            0 <= i < rest.len() ==> (#[trigger] rest[i]) != ':' && rest[i] != '&');
    assert(y.subrange(30, 32) =~= seq!['v', '=']) by {
        assert(y[30] == 'v' && y[31] == '=');
    }
    assert(is_match_at(y, seq!['v', '='], 30));
    lemma_match_implies_found(y, seq!['v', '='], 30);
}

/// A watch-shape link normalizes to the bare canonical watch URL.
#[verifier::rlimit(100)]
proof fn lemma_watch_result(s: Seq<char>, id: Seq<char>, tail: Seq<char>)
    requires
        is_watch_shape(s, id, tail),
    ensures
        spec_handle_link(s) == watch_prefix() + id,
{
    lemma_fragment_chars();
    lemma_plain_chars(id);
    let w = watch_prefix();
    let y = w + id + tail;
    let aidx = 32 + id.len() as int;
    // every tail is colon-free
    assert forall|i: int| 0 <= i < tail.len() implies (#[trigger] tail[i]) != ':' by {
        if tail == Seq::<char>::empty() {
        } else if exists|q: Seq<char>|
            all_plain(q) && (tail == list_marker() + q || tail == index_marker() + q) {
            let q = choose|q: Seq<char>|
                all_plain(q) && (tail == list_marker() + q || tail == index_marker() + q);
            lemma_plain_chars(q);
            if tail == list_marker() + q {
                assert(tail[i] == (list_marker() + q)[i]);
            } else {
                assert(tail[i] == (index_marker() + q)[i]);
            }
        } else {
            let (q1, q2) = choose|q1: Seq<char>, q2: Seq<char>|
                all_plain(q1) && all_plain(q2) && tail == list_marker() + q1 + index_marker() + q2;
            lemma_plain_chars(q1);
            lemma_plain_chars(q2);
            assert(tail[i] == (list_marker() + q1 + index_marker() + q2)[i]);
        }
    }
    lemma_colon_only_concat(w, id);
    assert(w + id + tail =~= (w + id) + tail);
    lemma_colon_only_concat(w + id, tail);
    // step 1: no live form inside
    assert(y[24] == 'w');
    lemma_absent_by_colon(y, live_prefix(), 24);
    assert(spec_link_step1(s) == s);
    // step 2: the watch branch, cut down to the bare watch URL
    lemma_watch_witness(id + tail);
    assert(w + id + tail =~= w + (id + tail));
    lemma_free_concat(w, id, '&');
    if tail == Seq::<char>::empty() {
        assert(y =~= w + id);
        lemma_absent_by_char(w + id, list_marker(), '&');
        lemma_absent_by_char(w + id, index_marker(), '&');
        assert(spec_link_step2(y) == y);
        assert(spec_link_step2(y) =~= w + id);
    } else if exists|q: Seq<char>|
        all_plain(q) && (tail == list_marker() + q || tail == index_marker() + q) {
        let q = choose|q: Seq<char>|
            all_plain(q) && (tail == list_marker() + q || tail == index_marker() + q);
        lemma_plain_chars(q);
        // the single & of the whole string stands where the tail begins
        assert forall|j: int| 0 <= j < y.len() && j != aidx implies (#[trigger] y[j]) != '&' by {
            if j < 32 {
                assert(y[j] == w[j]);
            } else if j < aidx {
                assert(y[j] == id[j - 32]);
            } else {
                assert(y[j] == tail[j - aidx]);
                if tail == list_marker() + q {
                    if j - aidx < 6 {
                        assert(tail[j - aidx] == list_marker()[j - aidx]);
                    } else {
                        assert(tail[j - aidx] == q[j - aidx - 6]);
                    }
                } else {
                    if j - aidx < 7 {
                        assert(tail[j - aidx] == index_marker()[j - aidx]);
                    } else {
                        assert(tail[j - aidx] == q[j - aidx - 7]);
                    }
                }
            }
        }
        if tail == list_marker() + q {
            assert(y.subrange(aidx, aidx + 6) =~= list_marker()) by {
                assert forall|t: int| 0 <= t < 6 implies y.subrange(aidx, aidx + 6)[t]
                    == list_marker()[t] by {
                    assert(y[aidx + t] == tail[t]);
                    assert(tail[t] == list_marker()[t]);
                }
            }
            assert(is_match_at(y, list_marker(), aidx));
            assert forall|p: int| 0 <= p < aidx implies !is_match_at(y, list_marker(), p) by {
                if is_match_at(y, list_marker(), p) {
                    lemma_match_char(y, list_marker(), p, 0);
                }
            }
            lemma_first_match_find(y, list_marker(), aidx);
            let a = y.subrange(0, aidx);
            assert(a =~= w + id);
            lemma_absent_by_char(w + id, index_marker(), '&');
            assert(spec_link_step2(y) == w + id);
        } else {
            // no playlist marker anywhere: the single & is followed by `i`
            assert forall|p: int| !is_match_at(y, list_marker(), p) by {
                if is_match_at(y, list_marker(), p) {
                    lemma_match_char(y, list_marker(), p, 0);
                    assert(p == aidx);
                    lemma_match_char(y, list_marker(), p, 1);
                    assert(y[aidx + 1] == tail[1]);
                    assert(tail[1] == index_marker()[1]);
                }
            }
            lemma_no_match_find(y, list_marker());
            assert(y.subrange(aidx, aidx + 7) =~= index_marker()) by {
                assert forall|t: int| 0 <= t < 7 implies y.subrange(aidx, aidx + 7)[t]
                    == index_marker()[t] by {
                    assert(y[aidx + t] == tail[t]);
                    assert(tail[t] == index_marker()[t]);
                }
            }
            assert(is_match_at(y, index_marker(), aidx));
            assert forall|p: int| 0 <= p < aidx implies !is_match_at(y, index_marker(), p) by {
                if is_match_at(y, index_marker(), p) {
                    lemma_match_char(y, index_marker(), p, 0);
                }
            }
            lemma_first_match_find(y, index_marker(), aidx);
            assert(y.subrange(0, aidx) =~= w + id);
            assert(spec_link_step2(y) == w + id);
        }
    } else {
        let (q1, q2) = choose|q1: Seq<char>, q2: Seq<char>|
            all_plain(q1) && all_plain(q2) && tail == list_marker() + q1 + index_marker() + q2;
        lemma_plain_chars(q1);
        lemma_plain_chars(q2);
        let bidx = aidx + 6 + q1.len() as int;
        // the two & of the whole string stand at the two markers
        assert forall|j: int|
            0 <= j < y.len() && j != aidx && j != bidx implies (#[trigger] y[j]) != '&' by {
            if j < 32 {
                assert(y[j] == w[j]);
            } else if j < aidx {
                assert(y[j] == id[j - 32]);
            } else {
                let t = j - aidx;
                assert(y[j] == tail[t]);
                assert(tail =~= list_marker() + q1 + index_marker() + q2);
                if t < 6 {
                    assert(tail[t] == list_marker()[t]);
                } else if t < 6 + q1.len() {
                    assert(tail[t] == q1[t - 6]);
                } else if t < 6 + q1.len() + 7 {
                    assert(tail[t] == index_marker()[t - 6 - q1.len()]);
                } else {
                    assert(tail[t] == q2[t - 13 - q1.len()]);
                }
            }
        }
        assert(y.subrange(aidx, aidx + 6) =~= list_marker()) by {
            assert forall|t: int| 0 <= t < 6 implies y.subrange(aidx, aidx + 6)[t]
                == list_marker()[t] by {
                assert(y[aidx + t] == tail[t]);
                assert(tail[t] == list_marker()[t]);
            }
        }
        assert(is_match_at(y, list_marker(), aidx));
        assert forall|p: int| 0 <= p < aidx implies !is_match_at(y, list_marker(), p) by {
            if is_match_at(y, list_marker(), p) {
                lemma_match_char(y, list_marker(), p, 0);
            }
        }
        lemma_first_match_find(y, list_marker(), aidx);
        let a = y.subrange(0, aidx);
        assert(a =~= w + id);
        lemma_absent_by_char(w + id, index_marker(), '&');
        assert(spec_link_step2(y) == w + id);
    }
    // step 3: no short form in the bare watch URL
    lemma_colon_only_concat(w, id);
    assert((w + id)[8] == 'w');
    lemma_absent_by_colon(w + id, short_prefix(), 8);
    assert(spec_link_step3(w + id) == w + id);
}

/// After the live step, a short-form string normalizes to a canonical
/// result that still begins with the watch prefix and the identifier.
#[verifier::rlimit(100)]
proof fn lemma_short_result(s1: Seq<char>, id: Seq<char>, tail: Seq<char>)
    requires
        valid_video_id(id),
        s1 == short_prefix() + id + tail,
        is_query_tail(tail),
    ensures
        is_normalized(spec_link_step3(spec_link_step2(s1))),
{
    lemma_fragment_chars();
    lemma_plain_chars(id);
    let sp = short_prefix();
    let w = watch_prefix();
    let y = sp + id + tail;
    // the tail is free of : and &
    assert forall|i: int| 0 <= i < tail.len() implies (#[trigger] tail[i]) != ':' && tail[i]
        != '&' by {
        if tail != Seq::<char>::empty() {
            let q = choose|q: Seq<char>| all_plain(q) && tail == qsi_marker() + q;
            lemma_plain_chars(q);
            if i < 4 {
                assert(tail[i] == qsi_marker()[i]);
            } else {
                assert(tail[i] == q[i - 4]);
            }
        }
    }
    lemma_free_concat(id, tail, ':');
    lemma_free_concat(id, tail, '&');
    lemma_free_concat(sp, id, '&');
    assert(sp + id + tail =~= sp + (id + tail));
    assert(sp + id + tail =~= (sp + id) + tail);
    lemma_colon_only_concat(sp, id + tail);
    lemma_free_concat(sp, id + tail, '&');
    if spec_contains(y, "watch"@) {
        // the watch branch: nothing to cut, then the short prefix becomes
        // the watch prefix over the whole remainder
        lemma_absent_by_char(y, list_marker(), '&');
        lemma_absent_by_char(y, index_marker(), '&');
        assert(spec_link_step2(y) == y);
        assert(y.subrange(0, 17) =~= sp);
        assert(is_match_at(y, sp, 0));
        lemma_match_implies_found(y, sp, 0);
        lemma_replace_whole_prefix(sp, id + tail, w);
        assert(spec_replace(y, sp, w) == w + (id + tail));
        assert(spec_link_step3(y) == w + (id + tail));
        assert(is_normalized(w + (id + tail)));
    } else {
        if tail == Seq::<char>::empty() {
            // no query: nothing changes, then the prefix is replaced
            assert forall|i: int| 0 <= i < y.len() implies (#[trigger] y[i]) != '?' by {
                if i < 17 {
                    assert(y[i] == sp[i]);
                } else if i < 17 + id.len() {
                    assert(y[i] == id[i - 17]);
                    assert(is_plain_char(id[i - 17]));
                } else {
                    assert(y[i] == tail[i - 17 - id.len()]);
                }
            }
            lemma_absent_by_char(y, "?"@, '?');
            assert(spec_link_step2(y) == y);
            assert(y.subrange(0, 17) =~= sp);
            assert(is_match_at(y, sp, 0));
            lemma_match_implies_found(y, sp, 0);
            lemma_replace_whole_prefix(sp, id + tail, w);
            assert(spec_link_step3(y) == w + (id + tail));
            assert(is_normalized(w + (id + tail)));
        } else {
            // a query: cut at the first ?, strip the short prefix, rebuild
            let q = choose|q: Seq<char>| all_plain(q) && tail == qsi_marker() + q;
            lemma_plain_chars(q);
            let fidx = 17 + id.len() as int;
            assert(y.subrange(fidx, fidx + 1) =~= "?"@) by {
                assert(y[fidx] == tail[0]);
                assert(tail[0] == qsi_marker()[0]);
            }
            assert(is_match_at(y, "?"@, fidx));
            assert forall|p: int| 0 <= p < fidx implies !is_match_at(y, "?"@, p) by {
                if is_match_at(y, "?"@, p) {
                    lemma_match_char(y, "?"@, p, 0);
                    if p < 17 {
                        assert(y[p] == sp[p]);
                    } else {
                        assert(y[p] == id[p - 17]);
                        assert(is_plain_char(id[p - 17]));
                    }
                }
            }
            lemma_first_match_find(y, "?"@, fidx);
            let cut = y.subrange(0, fidx);
            assert(cut =~= sp + id);
            lemma_replace_whole_prefix(sp, id, Seq::<char>::empty());
            assert(spec_replace(cut, sp, Seq::<char>::empty()) == Seq::<char>::empty() + id);
            assert(Seq::<char>::empty() + id =~= id);
            assert(spec_link_step2(y) == w + id);
            lemma_colon_only_concat(w, id);
            assert((w + id)[8] == 'w');
            lemma_absent_by_colon(w + id, short_prefix(), 8);
            assert(spec_link_step3(w + id) == w + id);
            assert(is_normalized(w + id));
        }
    }
}

/// Normalization is idempotent on every supported link shape, and its
/// result carries the `v=` marker of an extractable video identifier.
#[verifier::rlimit(100)]
pub proof fn lemma_normalize_idempotent(s: Seq<char>)
    requires
        is_supported_link(s),
    ensures
        spec_handle_link(spec_handle_link(s)) == spec_handle_link(s),
        spec_link_id(s) is Some,
{
    lemma_fragment_chars();
    let (id, tail) = choose|id: Seq<char>, tail: Seq<char>|
        is_watch_shape(s, id, tail) || is_short_shape(s, id, tail) || is_live_shape(s, id, tail);
    lemma_plain_chars(id);
    if is_watch_shape(s, id, tail) {
        lemma_watch_result(s, id, tail);
        assert(is_normalized(watch_prefix() + id)) by {
            assert(forall|i: int|
                0 <= i < id.len() ==> (#[trigger] id[i]) != ':' && id[i] != '&');
        }
    } else {
        // both remaining shapes run through the short form
        assert forall|i: int| 0 <= i < tail.len() implies (#[trigger] tail[i]) != ':' by {
            if tail != Seq::<char>::empty() {
                let q = choose|q: Seq<char>| all_plain(q) && tail == qsi_marker() + q;
                lemma_plain_chars(q);
                if i < 4 {
                    assert(tail[i] == qsi_marker()[i]);
                } else {
                    assert(tail[i] == q[i - 4]);
                }
            }
        }
        lemma_free_concat(id, tail, ':');
        if is_short_shape(s, id, tail) {
            // no live form inside a short link
            assert(s == short_prefix() + id + tail);
            assert(short_prefix() + id + tail =~= short_prefix() + (id + tail));
            lemma_colon_only_concat(short_prefix(), id + tail);
            assert(s[8] == 'y');
            lemma_absent_by_colon(s, live_prefix(), 8);
            assert(spec_link_step1(s) == s);
            lemma_short_result(s, id, tail);
        } else {
            // the live prefix becomes the short prefix, then as above
            assert(is_live_shape(s, id, tail));
            assert(s == live_prefix() + id + tail);
            assert(live_prefix() + id + tail =~= live_prefix() + (id + tail));
            assert(s.subrange(0, 29) =~= live_prefix());
            assert(is_match_at(s, live_prefix(), 0));
            lemma_match_implies_found(s, live_prefix(), 0);
            lemma_replace_whole_prefix(live_prefix(), id + tail, short_prefix());
            assert(spec_link_step1(s) == short_prefix() + (id + tail));
            assert(short_prefix() + (id + tail) =~= short_prefix() + id + tail);
            lemma_short_result(short_prefix() + id + tail, id, tail);
        }
    }
    let y = spec_handle_link(s);
    assert(is_normalized(y));
    lemma_normalized_fixed(y);
    lemma_normalized_marker(y);
    // the identifier extraction finds the marker in the canonical form
    lemma_find_props(y, seq!['v', '=']);
}

} // verus!

//! Clip requests and their grouping by video identifier.
//!
//! A spreadsheet row (start, end, link) normalizes to a `VideoLink`; rows
//! are grouped per canonical video identifier, first-sight order of the
//! identifiers and row order within each group both preserved. One
//! malformed row aborts the whole grouping with the error of the first
//! failing row.

use vstd::prelude::*;

use crate::normalize::{handle_link, handle_time, spec_handle_link, spec_normalize_time};
use crate::strutil::{find_sub, lemma_find_props, spec_find};
use crate::ClipError;

verus! {

/// View of one clip request: identifier, start timecode, end timecode.
pub type ClipView = (Seq<char>, Seq<char>, Seq<char>);

/// View of one video group: identifier and its clip requests in order.
pub type GroupView = (Seq<char>, Seq<ClipView>);

/// One clip request against one video.
pub struct VideoLink {
    pub id: String,
    pub start_time: String,
    pub end_time: String,
}

impl Clone for VideoLink {
    fn clone(&self) -> (r: Self)
        ensures
            r == *self,
    {
        VideoLink {
            id: self.id.clone(),
            start_time: self.start_time.clone(),
            end_time: self.end_time.clone(),
        }
    }
}

/// The abstract value of a clip request.
pub open spec fn clip_view(v: VideoLink) -> ClipView {
    (v.id@, v.start_time@, v.end_time@)
}

/// The identifier that a raw link yields: the canonical form's first
/// segment strictly between the first `v=` marker and the next one, or
/// everything after the marker when it occurs once; nothing when the
/// canonical form holds no marker.
pub open spec fn spec_link_id(s: Seq<char>) -> Option<Seq<char>> {
    let c = spec_handle_link(s);
    let marker = seq!['v', '='];
    match spec_find(c, marker) {
        None => None,
        Some(i) => {
            let after = c.subrange(i + 2, c.len() as int);
            match spec_find(after, marker) {
                None => Some(after),
                Some(j) => Some(after.subrange(0, j)),
            }
        },
    }
}

impl VideoLink {
    /// Normalizes a raw link and extracts the video identifier; the start
    /// and end timecodes begin at their placeholder value.
    pub fn new(link: &str) -> (r: Result<VideoLink, ClipError>)
        ensures
            match r {
                Ok(v) => spec_link_id(link@) == Some(v.id@) && v.start_time@ == "00:00"@
                    && v.end_time@ == "00:00"@,
                Err(e) => spec_link_id(link@) is None && e == ClipError::MalformedLink,
            },
    {
        let canon = handle_link(link);
        proof {
            reveal_strlit("v=");
            assert("v="@ =~= seq!['v', '=']);
        }
        match find_sub(canon.as_str(), "v=") {
            None => Err(ClipError::MalformedLink),
            Some(i) => {
                proof {
                    lemma_find_props(canon@, "v="@);
                }
                let cl = canon.unicode_len();
                let after = canon.as_str().substring_char(i + 2, cl).to_owned();
                let id = match find_sub(after.as_str(), "v=") {
                    None => after,
                    Some(j) => {
                        proof {
                            lemma_find_props(after@, "v="@);
                        }
                        after.as_str().substring_char(0, j).to_owned()
                    },
                };
                Ok(
                    VideoLink {
                        id,
                        start_time: String::from_str("00:00"),
                        end_time: String::from_str("00:00"),
                    },
                )
            },
        }
    }

    /// Replaces the start timecode with the canonical form of `time`.
    pub fn set_start_time(&mut self, time: &str) -> (r: Result<(), ClipError>)
        ensures
            match r {
                Ok(_) => spec_normalize_time(time@) == Some(final (self).start_time@)
                    && final (self).id == old(self).id
                    && final (self).end_time == old(self).end_time,
                Err(e) => spec_normalize_time(time@) is None && e
                    == ClipError::InvalidTimeFormat && *final (self) == *old(self),
            },
    {
        match handle_time(time) {
            Ok(t) => {
                self.start_time = t;
                Ok(())
            },
            Err(e) => Err(e),
        }
    }

    /// Replaces the end timecode with the canonical form of `time`.
    pub fn set_end_time(&mut self, time: &str) -> (r: Result<(), ClipError>)
        ensures
            match r {
                Ok(_) => spec_normalize_time(time@) == Some(final (self).end_time@)
                    && final (self).id == old(self).id
                    && final (self).start_time == old(self).start_time,
                Err(e) => spec_normalize_time(time@) is None && e
                    == ClipError::InvalidTimeFormat && *final (self) == *old(self),
            },
    {
        match handle_time(time) {
            Ok(t) => {
                self.end_time = t;
                Ok(())
            },
            Err(e) => Err(e),
        }
    }
}

/// One spreadsheet row as raw text: start time, end time, link.
pub struct Row {
    pub start: String,
    pub end: String,
    pub link: String,
}

/// The abstract value of a row.
pub open spec fn row_view(r: Row) -> (Seq<char>, Seq<char>, Seq<char>) {
    (r.start@, r.end@, r.link@)
}

/// One video group: identifier and its clip requests in row order.
pub struct VideoGroup {
    pub id: String,
    pub clips: Vec<VideoLink>,
}

/// The abstract value of a group.
pub open spec fn group_view(g: VideoGroup) -> GroupView {
    (g.id@, g.clips@.map_values(|c: VideoLink| clip_view(c)))
}

/// The clip a row normalizes to, if each of its three fields is accepted.
pub open spec fn spec_row_clip(rv: (Seq<char>, Seq<char>, Seq<char>)) -> Option<ClipView> {
    match spec_link_id(rv.2) {
        None => None,
        Some(id) => match spec_normalize_time(rv.0) {
            None => None,
            Some(s) => match spec_normalize_time(rv.1) {
                None => None,
                Some(e) => Some((id, s, e)),
            },
        },
    }
}

/// Whether a row normalizes.
pub open spec fn spec_row_ok(rv: (Seq<char>, Seq<char>, Seq<char>)) -> bool {
    spec_row_clip(rv) is Some
}

/// The error a failing row reports: the link is checked first, then the
/// two times.
pub open spec fn spec_row_err(rv: (Seq<char>, Seq<char>, Seq<char>)) -> ClipError {
    if spec_link_id(rv.2) is None {
        ClipError::MalformedLink
    } else {
        ClipError::InvalidTimeFormat
    }
}

/// `k` is the first row of `rvs` that does not normalize.
pub open spec fn spec_first_bad(rvs: Seq<(Seq<char>, Seq<char>, Seq<char>)>, k: int) -> bool {
    0 <= k < rvs.len() && !spec_row_ok(rvs[k]) && (forall|j: int|
        0 <= j < k ==> spec_row_ok(#[trigger] rvs[j]))
}

/// The clips of a sequence of rows that all normalize.
pub open spec fn spec_clips_of(rvs: Seq<(Seq<char>, Seq<char>, Seq<char>)>) -> Seq<ClipView> {
    rvs.map_values(|rv: (Seq<char>, Seq<char>, Seq<char>)| spec_row_clip(rv)->Some_0)
}

/// A clip appended to the group carrying its identifier, or to a fresh
/// group at the end when no group carries it yet.
pub open spec fn spec_insert_clip(gs: Seq<GroupView>, c: ClipView) -> Seq<GroupView>
    decreases gs.len(),
{
    if gs.len() == 0 {
        seq![(c.0, seq![c])]
    } else if gs[0].0 == c.0 {
        seq![(gs[0].0, gs[0].1 + seq![c])] + gs.subrange(1, gs.len() as int)
    } else {
        seq![gs[0]] + spec_insert_clip(gs.subrange(1, gs.len() as int), c)
    }
}

/// The groups of a sequence of clips, inserted one by one in order.
pub open spec fn spec_groups(clips: Seq<ClipView>) -> Seq<GroupView>
    decreases clips.len(),
{
    if clips.len() == 0 {
        Seq::<GroupView>::empty()
    } else {
        spec_insert_clip(spec_groups(clips.drop_last()), clips.last())
    }
}

/// Inserting a clip whose identifier the groups already carry extends
/// exactly that group.
pub proof fn lemma_insert_found(gs: Seq<GroupView>, c: ClipView, i: int)
    requires
        0 <= i < gs.len(),
        gs[i].0 == c.0,
        forall|t: int| 0 <= t < i ==> (#[trigger] gs[t]).0 != c.0,
    ensures
        spec_insert_clip(gs, c) == gs.update(i, (gs[i].0, gs[i].1 + seq![c])),
    decreases i,
{
    if i == 0 {
        assert(spec_insert_clip(gs, c) =~= gs.update(0, (gs[0].0, gs[0].1 + seq![c])));
    } else {
        let rest = gs.subrange(1, gs.len() as int);
        lemma_insert_found(rest, c, i - 1);
        assert(spec_insert_clip(gs, c) =~= gs.update(i, (gs[i].0, gs[i].1 + seq![c])));
    }
}

/// Inserting a clip whose identifier no group carries appends a fresh
/// group at the end.
pub proof fn lemma_insert_missing(gs: Seq<GroupView>, c: ClipView)
    requires
        forall|t: int| 0 <= t < gs.len() ==> (#[trigger] gs[t]).0 != c.0,
    ensures
        spec_insert_clip(gs, c) == gs + seq![(c.0, seq![c])],
    decreases gs.len(),
{
    if gs.len() == 0 {
        assert(spec_insert_clip(gs, c) =~= gs + seq![(c.0, seq![c])]);
    } else {
        let rest = gs.subrange(1, gs.len() as int);
        lemma_insert_missing(rest, c);
        assert(spec_insert_clip(gs, c) =~= gs + seq![(c.0, seq![c])]);
    }
}

/// Pairwise distinct group identifiers.
pub open spec fn distinct_ids(gs: Seq<GroupView>) -> bool {
    forall|i: int, j: int| 0 <= i < j < gs.len() ==> (#[trigger] gs[i]).0 != (#[trigger] gs[j]).0
}

/// An inserted clip adds no identifier but its own.
proof fn lemma_insert_clip_ids(gs: Seq<GroupView>, c: ClipView, j: int)
    requires
        0 <= j < spec_insert_clip(gs, c).len(),
    ensures
        spec_insert_clip(gs, c)[j].0 == c.0 || (exists|t: int|
            0 <= t < gs.len() && (#[trigger] gs[t]).0 == spec_insert_clip(gs, c)[j].0),
    decreases gs.len(),
{
    let out = spec_insert_clip(gs, c);
    if gs.len() == 0 {
    } else if gs[0].0 == c.0 {
        if j > 0 {
            assert(out[j] == gs.subrange(1, gs.len() as int)[j - 1]);
            assert(gs[j].0 == out[j].0);
        }
    } else {
        if j == 0 {
            assert(out[0] == gs[0]);
        } else {
            let rest = gs.subrange(1, gs.len() as int);
            assert(out[j] == spec_insert_clip(rest, c)[j - 1]);
            lemma_insert_clip_ids(rest, c, j - 1);
            if spec_insert_clip(rest, c)[j - 1].0 != c.0 {
                let t = choose|t: int|
                    0 <= t < rest.len() && (#[trigger] rest[t]).0 == spec_insert_clip(
                        rest,
                        c,
                    )[j - 1].0;
                assert(gs[t + 1].0 == out[j].0);
            }
        }
    }
}

/// Insertion keeps the group identifiers pairwise distinct.
proof fn lemma_insert_clip_distinct(gs: Seq<GroupView>, c: ClipView)
    requires
        distinct_ids(gs),
    ensures
        distinct_ids(spec_insert_clip(gs, c)),
    decreases gs.len(),
{
    let out = spec_insert_clip(gs, c);
    if gs.len() == 0 {
    } else if gs[0].0 == c.0 {
        assert forall|i: int, j: int| 0 <= i < j < out.len() implies (#[trigger] out[i]).0 != (
        #[trigger] out[j]).0 by {
            assert(out[j] == gs.subrange(1, gs.len() as int)[j - 1]);
            assert(out[j].0 == gs[j].0);
            if i > 0 {
                assert(out[i] == gs.subrange(1, gs.len() as int)[i - 1]);
                assert(out[i].0 == gs[i].0);
            } else {
                assert(out[0].0 == gs[0].0);
            }
        }
    } else {
        let rest = gs.subrange(1, gs.len() as int);
        assert(distinct_ids(rest)) by {
            assert forall|i: int, j: int|
                0 <= i < j < rest.len() implies (#[trigger] rest[i]).0 != (
            #[trigger] rest[j]).0 by {
                assert(rest[i] == gs[i + 1]);
                assert(rest[j] == gs[j + 1]);
            }
        }
        lemma_insert_clip_distinct(rest, c);
        assert forall|i: int, j: int| 0 <= i < j < out.len() implies (#[trigger] out[i]).0 != (
        #[trigger] out[j]).0 by {
            if i == 0 {
                assert(out[0] == gs[0]);
                assert(out[j] == spec_insert_clip(rest, c)[j - 1]);
                lemma_insert_clip_ids(rest, c, j - 1);
                if spec_insert_clip(rest, c)[j - 1].0 != c.0 {
                    let t = choose|t: int|
                        0 <= t < rest.len() && (#[trigger] rest[t]).0 == spec_insert_clip(
                            rest,
                            c,
                        )[j - 1].0;
                    assert(rest[t] == gs[t + 1]);
                    assert(gs[0].0 != gs[t + 1].0);
                }
            } else {
                assert(out[i] == spec_insert_clip(rest, c)[i - 1]);
                assert(out[j] == spec_insert_clip(rest, c)[j - 1]);
            }
        }
    }
}

/// Each video identifier heads at most one group, so the run holds at
/// most one job, and at most one download, per video.
pub proof fn lemma_group_ids_distinct(clips: Seq<ClipView>)
    ensures
        distinct_ids(spec_groups(clips)),
    decreases clips.len(),
{
    if clips.len() == 0 {
    } else {
        lemma_group_ids_distinct(clips.drop_last());
        lemma_insert_clip_distinct(spec_groups(clips.drop_last()), clips.last());
    }
}

/// Grouping is stable: two rows of one identifier followed by a row of
/// another group into exactly two groups, the first carrying both clips
/// in row order, the second carrying the third clip.
pub proof fn lemma_grouping_stable(c0: ClipView, c1: ClipView, c2: ClipView)
    requires
        c0.0 == c1.0,
        c2.0 != c0.0,
    ensures
        spec_groups(seq![c0, c1, c2]) == seq![(c0.0, seq![c0, c1]), (c2.0, seq![c2])],
{
    let s = seq![c0, c1, c2];
    assert(s.drop_last() =~= seq![c0, c1]);
    assert(seq![c0, c1].drop_last() =~= seq![c0]);
    assert(seq![c0].drop_last() =~= Seq::<ClipView>::empty());
    assert(spec_groups(Seq::<ClipView>::empty()) =~~= Seq::<GroupView>::empty());
    assert(spec_groups(seq![c0]) =~~= seq![(c0.0, seq![c0])]);
    let g1 = spec_insert_clip(seq![(c0.0, seq![c0])], c1);
    assert(g1 =~~= seq![(c0.0, seq![c0, c1])]) by {
        assert(seq![(c0.0, seq![c0])][0].1 + seq![c1] =~= seq![c0, c1]);
        assert(seq![(c0.0, seq![c0])].subrange(1, 1) =~= Seq::<GroupView>::empty());
    }
    assert(spec_groups(seq![c0, c1]) =~~= seq![(c0.0, seq![c0, c1])]);
    let g2 = spec_insert_clip(seq![(c0.0, seq![c0, c1])], c2);
    assert(g2 =~~= seq![(c0.0, seq![c0, c1]), (c2.0, seq![c2])]) by {
        let rest = seq![(c0.0, seq![c0, c1])].subrange(1, 1);
        assert(rest =~= Seq::<GroupView>::empty());
        assert(spec_insert_clip(rest, c2) =~~= seq![(c2.0, seq![c2])]);
        assert(g2 =~~= seq![(c0.0, seq![c0, c1])] + spec_insert_clip(rest, c2));
    }
    assert(spec_groups(s) == spec_insert_clip(spec_groups(seq![c0, c1]), c2));
    assert(spec_insert_clip(spec_groups(seq![c0, c1]), c2) =~~= seq![
        (c0.0, seq![c0, c1]),
        (c2.0, seq![c2]),
    ]) by {
        assert(spec_groups(seq![c0, c1]) == seq![(c0.0, seq![c0, c1])]);
    }
}

/// Index of the group carrying `id`, if one does.
pub fn find_group(groups: &Vec<VideoGroup>, id: &String) -> (r: Option<usize>)
    ensures
        match r {
            Some(i) => i < groups@.len() && groups@[i as int].id@ == id@ && (forall|t: int|
                0 <= t < i ==> (#[trigger] groups@[t]).id@ != id@),
            None => forall|t: int| 0 <= t < groups@.len() ==> (#[trigger] groups@[t]).id@ != id@,
        },
{
    let mut gi: usize = 0;
    while gi < groups.len()
        invariant
            gi <= groups@.len(),
            forall|t: int| 0 <= t < gi ==> (#[trigger] groups@[t]).id@ != id@,
        decreases groups@.len() - gi,
    {
        if groups[gi].id == *id {
            return Some(gi);
        }
        gi += 1;
    }
    None
}

/// Normalizes every row and groups the clips by video identifier, keeping
/// first-sight order of the identifiers and row order within each group;
/// the first row that does not normalize aborts the whole grouping with
/// its error.
pub fn organize_videos(rows: &Vec<Row>) -> (r: Result<Vec<VideoGroup>, ClipError>)
    ensures
        match r {
            Ok(gs) => (forall|j: int|
                0 <= j < rows@.len() ==> spec_row_ok(row_view(#[trigger] rows@[j]))) && gs@
                .map_values(|g: VideoGroup| group_view(g)) == spec_groups(
                spec_clips_of(rows@.map_values(|row: Row| row_view(row))),
            ),
            Err(e) => exists|k: int|
                spec_first_bad(rows@.map_values(|row: Row| row_view(row)), k) && e == spec_row_err(
                    row_view(rows@[k]),
                ),
        },
{
    let ghost rvs = rows@.map_values(|row: Row| row_view(row));
    let mut groups: Vec<VideoGroup> = Vec::new();
    let mut k: usize = 0;
    proof {
        assert(groups@.map_values(|g: VideoGroup| group_view(g)) =~= spec_groups(
            spec_clips_of(rvs.take(0)),
        ));
    }
    while k < rows.len()
        invariant
            k <= rows@.len(),
            rvs == rows@.map_values(|row: Row| row_view(row)),
            forall|j: int| 0 <= j < k ==> spec_row_ok(#[trigger] rvs[j]),
            groups@.map_values(|g: VideoGroup| group_view(g)) == spec_groups(
                spec_clips_of(rvs.take(k as int)),
            ),
        decreases rows@.len() - k,
    {
        let row = &rows[k];
        let mut v = match VideoLink::new(row.link.as_str()) {
            Ok(v) => v,
            Err(e) => {
                proof {
                    assert(spec_first_bad(rvs, k as int));
                }
                return Err(e);
            },
        };
        match v.set_start_time(row.start.as_str()) {
            Ok(_) => (),
            Err(e) => {
                proof {
                    assert(spec_first_bad(rvs, k as int));
                }
                return Err(e);
            },
        };
        match v.set_end_time(row.end.as_str()) {
            Ok(_) => (),
            Err(e) => {
                proof {
                    assert(spec_first_bad(rvs, k as int));
                }
                return Err(e);
            },
        };
        let ghost c = clip_view(v);
        proof {
            assert(spec_row_clip(rvs[k as int]) == Some(c));
        }
        let ghost old_gv = groups@.map_values(|g: VideoGroup| group_view(g));
        match find_group(&groups, &v.id) {
            Some(gi) => {
                let mut g = groups.remove(gi);
                g.clips.push(v);
                groups.insert(gi, g);
                proof {
                    lemma_insert_found(old_gv, c, gi as int);
                    let oldg = old_gv[gi as int];
                    assert(group_view(g) == (oldg.0, oldg.1 + seq![c])) by {
                        assert(g.clips@.map_values(|cl: VideoLink| clip_view(cl)) =~= oldg.1
                            + seq![c]);
                    }
                    assert(groups@.map_values(|g2: VideoGroup| group_view(g2)) =~~= old_gv.update(
                        gi as int,
                        (oldg.0, oldg.1 + seq![c]),
                    ));
                }
            },
            None => {
                let mut clips: Vec<VideoLink> = Vec::new();
                let id2 = v.id.clone();
                clips.push(v);
                let g = VideoGroup { id: id2, clips };
                groups.push(g);
                proof {
                    lemma_insert_missing(old_gv, c);
                    assert(g.clips@.map_values(|cl: VideoLink| clip_view(cl)) =~= seq![c]);
                    assert(groups@.map_values(|g2: VideoGroup| group_view(g2)) =~~= old_gv + seq![
                        (c.0, seq![c]),
                    ]);
                }
            },
        }
        proof {
            assert(spec_clips_of(rvs.take(k + 1)).drop_last() =~= spec_clips_of(
                rvs.take(k as int),
            ));
            assert(spec_clips_of(rvs.take(k + 1)).last() == c);
            assert(spec_groups(spec_clips_of(rvs.take(k + 1))) == spec_insert_clip(
                spec_groups(spec_clips_of(rvs.take(k as int))),
                c,
            ));
        }
        k += 1;
    }
    proof {
        assert(rvs.take(rows@.len() as int) =~= rvs);
        assert forall|j: int| 0 <= j < rows@.len() implies spec_row_ok(
            row_view(#[trigger] rows@[j]),
        ) by {
            assert(rvs[j] == row_view(rows@[j]));
            assert(spec_row_ok(rvs[j]));
        }
    }
    Ok(groups)
}

} // verus!

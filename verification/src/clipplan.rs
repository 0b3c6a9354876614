//! Planning of the clip extractions for one fetched video.
//!
//! For a video and its ordered clip requests the planner yields one job
//! per request, 1-indexed, each naming the source path, the two
//! timecodes, and the output file `<root>/<id>/<id> [<n>].mp4`. A group
//! whose output directory already existed is an idempotent skip: it gets
//! no jobs at all.

use vstd::prelude::*;

use crate::requests::VideoLink;

verus! {

/// The character of one decimal digit.
pub open spec fn spec_digit(d: int) -> char {
    if d == 0 {
        '0'
    } else if d == 1 {
        '1'
    } else if d == 2 {
        '2'
    } else if d == 3 {
        '3'
    } else if d == 4 {
        '4'
    } else if d == 5 {
        '5'
    } else if d == 6 {
        '6'
    } else if d == 7 {
        '7'
    } else if d == 8 {
        '8'
    } else {
        '9'
    }
}

/// The decimal numeral of a non-negative number.
pub open spec fn spec_dec(n: int) -> Seq<char>
    decreases n,
{
    if n < 10 {
        seq![spec_digit(n)]
    } else {
        spec_dec(n / 10) + seq![spec_digit(n % 10)]
    }
}

/// One decimal digit as text.
fn digit_str(d: usize) -> (r: &'static str)
    requires
        d < 10,
    ensures
        r@ == seq![spec_digit(d as int)],
{
    proof {
        reveal_strlit("0");
        reveal_strlit("1");
        reveal_strlit("2");
        reveal_strlit("3");
        reveal_strlit("4");
        reveal_strlit("5");
        reveal_strlit("6");
        reveal_strlit("7");
        reveal_strlit("8");
        reveal_strlit("9");
    }
    match d {
        0 => "0",
        1 => "1",
        2 => "2",
        3 => "3",
        4 => "4",
        5 => "5",
        6 => "6",
        7 => "7",
        8 => "8",
        _ => "9",
    }
}

/// A number printed as its decimal numeral.
pub fn usize_to_string(n: usize) -> (r: String)
    ensures
        r@ == spec_dec(n as int),
    decreases n,
{
    if n < 10 {
        digit_str(n).to_owned()
    } else {
        let mut s = usize_to_string(n / 10);
        s.append(digit_str(n % 10));
        s
    }
}

/// The output file of clip number `idx` of video `id` under `root`.
pub open spec fn spec_output_path(root: Seq<char>, id: Seq<char>, idx: int) -> Seq<char> {
    root + seq!['/'] + id + seq!['/'] + id + seq![' ', '['] + spec_dec(idx) + seq![']', '.', 'm', 'p', '4']
}

/// The output directory of video `id` under `root`.
pub open spec fn spec_output_dir(root: Seq<char>, id: Seq<char>) -> Seq<char> {
    root + seq!['/'] + id
}

/// The directory that the clips of `video_id` are written into.
pub fn output_dir(out_root: &str, video_id: &str) -> (r: String)
    ensures
        r@ == spec_output_dir(out_root@, video_id@),
{
    let mut s = out_root.to_owned();
    s.append("/");
    s.append(video_id);
    proof {
        reveal_strlit("/");
        assert("/"@ =~= seq!['/']);
        assert(s@ =~= spec_output_dir(out_root@, video_id@));
    }
    s
}

/// One planned invocation of the external trim tool.
pub struct ClipJob {
    /// 1-based position of the clip within its video group.
    pub index: usize,
    pub start_time: String,
    pub end_time: String,
    /// The local path of the fetched source video.
    pub input: String,
    /// The output file `<root>/<id>/<id> [<index>].mp4`.
    pub output: String,
}

/// The output file of clip number `idx`, as text.
fn build_output_path(out_root: &str, video_id: &str, idx: usize) -> (r: String)
    ensures
        r@ == spec_output_path(out_root@, video_id@, idx as int),
{
    let mut s = out_root.to_owned();
    s.append("/");
    s.append(video_id);
    s.append("/");
    s.append(video_id);
    s.append(" [");
    let num = usize_to_string(idx);
    s.append(num.as_str());
    s.append("].mp4");
    proof {
        reveal_strlit("/");
        reveal_strlit(" [");
        reveal_strlit("].mp4");
        assert("/"@ =~= seq!['/']);
        assert(" ["@ =~= seq![' ', '[']);
        assert("].mp4"@ =~= seq![']', '.', 'm', 'p', '4']);
        assert(s@ =~= spec_output_path(out_root@, video_id@, idx as int));
    }
    s
}

/// One trim job per clip request, in request order, 1-indexed, each with
/// the fetched source path and its own output file.
pub fn clip_jobs(video_id: &str, video_path: &str, out_root: &str, clips: &Vec<VideoLink>) -> (r:
    Vec<ClipJob>)
    requires
        clips@.len() < usize::MAX,
    ensures
        r@.len() == clips@.len(),
        forall|i: int|
            0 <= i < r@.len() ==> (#[trigger] r@[i]).index == i + 1 && r@[i].start_time@
                == clips@[i].start_time@ && r@[i].end_time@ == clips@[i].end_time@ && r@[i].input@
                == video_path@ && r@[i].output@ == spec_output_path(out_root@, video_id@, i + 1),
{
    let mut out: Vec<ClipJob> = Vec::new();
    let mut k: usize = 0;
    while k < clips.len()
        invariant
            k <= clips@.len(),
            clips@.len() < usize::MAX,
            out@.len() == k,
            forall|i: int|
                0 <= i < k ==> (#[trigger] out@[i]).index == i + 1 && out@[i].start_time@
                    == clips@[i].start_time@ && out@[i].end_time@ == clips@[i].end_time@
                    && out@[i].input@ == video_path@ && out@[i].output@ == spec_output_path(
                    out_root@,
                    video_id@,
                    i + 1,
                ),
        decreases clips@.len() - k,
    {
        let clip = &clips[k];
        let job = ClipJob {
            index: k + 1,
            start_time: clip.start_time.clone(),
            end_time: clip.end_time.clone(),
            input: video_path.to_owned(),
            output: build_output_path(out_root, video_id, k + 1),
        };
        out.push(job);
        k += 1;
    }
    out
}

/// The jobs of one group run: none at all when the output directory
/// already existed, else one per clip request.
pub fn plan_clips(
    dir_created: bool,
    video_id: &str,
    video_path: &str,
    out_root: &str,
    clips: &Vec<VideoLink>,
) -> (r: Vec<ClipJob>)
    requires
        clips@.len() < usize::MAX,
    ensures
        !dir_created ==> r@.len() == 0,
        dir_created ==> r@.len() == clips@.len() && (forall|i: int|
            0 <= i < r@.len() ==> (#[trigger] r@[i]).index == i + 1 && r@[i].start_time@
                == clips@[i].start_time@ && r@[i].end_time@ == clips@[i].end_time@ && r@[i].input@
                == video_path@ && r@[i].output@ == spec_output_path(out_root@, video_id@, i + 1)),
{
    if dir_created {
        clip_jobs(video_id, video_path, out_root, clips)
    } else {
        Vec::new()
    }
}

} // verus!

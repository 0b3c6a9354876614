use clipcut::cache::{check_cache, check_folder, plan_fetch, CacheEntry, FetchPlan};
use clipcut::clipplan::{clip_jobs, output_dir, plan_clips, usize_to_string};
use clipcut::jobstate::{batch_outcomes, job_outcome, job_step, JobEvent, JobResult, JobState};
use clipcut::requests::{organize_videos, Row};
use clipcut::schedule::schedule_order;
use clipcut::ClipError;

fn row(start: &str, end: &str, link: &str) -> Row {
    Row { start: start.to_string(), end: end.to_string(), link: link.to_string() }
}

fn entry(id: &str, path: &str) -> CacheEntry {
    CacheEntry { id: id.to_string(), path: path.to_string() }
}

#[test]
fn grouping_is_stable() {
    let rows = vec![
        row("1", "2", "https://youtu.be/aaa"),
        row("3", "4", "https://youtu.be/aaa"),
        row("5", "6", "https://youtu.be/bbb"),
    ];
    let groups = organize_videos(&rows).unwrap();
    assert_eq!(groups.len(), 2);
    assert_eq!(groups[0].id, "aaa");
    assert_eq!(groups[0].clips.len(), 2);
    assert_eq!(groups[0].clips[0].start_time, "00:00:01");
    assert_eq!(groups[0].clips[1].start_time, "00:00:03");
    assert_eq!(groups[1].id, "bbb");
    assert_eq!(groups[1].clips.len(), 1);
    assert_eq!(groups[1].clips[0].end_time, "00:00:06");
}

#[test]
fn grouping_aborts_on_malformed_link() {
    let rows = vec![row("1", "2", "https://youtu.be/aaa"), row("3", "4", "not a link")];
    let r = organize_videos(&rows);
    assert!(matches!(r, Err(ClipError::MalformedLink)));
}

#[test]
fn grouping_aborts_on_bad_time() {
    let rows = vec![row("1:2:3:4", "2", "https://youtu.be/aaa")];
    let r = organize_videos(&rows);
    assert!(matches!(r, Err(ClipError::InvalidTimeFormat)));
}

#[test]
fn grouping_of_no_rows_is_empty() {
    let rows: Vec<Row> = Vec::new();
    let groups = organize_videos(&rows).unwrap();
    assert_eq!(groups.len(), 0);
}

#[test]
fn cache_lookup_hits_and_misses() {
    let index = check_cache(vec![entry("aaa", "./cache/aaa.mp4"), entry("bbb", "./cache/bbb.webm")]);
    assert_eq!(index.get("aaa").unwrap().as_str(), "./cache/aaa.mp4");
    assert_eq!(index.get("bbb").unwrap().as_str(), "./cache/bbb.webm");
    assert!(index.get("ccc").is_none());
}

#[test]
fn cache_later_entry_wins() {
    let index = check_cache(vec![entry("aaa", "./cache/aaa.mp4"), entry("aaa", "./cache/aaa.webm")]);
    assert_eq!(index.get("aaa").unwrap().as_str(), "./cache/aaa.webm");
}

#[test]
fn folder_scan_finds_first_match() {
    let entries = vec![entry("aaa", "./cache/aaa.mp4"), entry("bbb", "./cache/bbb.webm")];
    assert_eq!(check_folder(&entries, "bbb").unwrap(), "./cache/bbb.webm");
}

#[test]
fn folder_scan_reports_missing_video() {
    let entries = vec![entry("aaa", "./cache/aaa.mp4")];
    let r = check_folder(&entries, "zzz");
    assert!(matches!(r, Err(ClipError::VideoNotFound)));
}

#[test]
fn cached_videos_are_submitted_first() {
    let rows = vec![
        row("1", "2", "https://youtu.be/aid"),
        row("3", "4", "https://youtu.be/bid"),
        row("5", "6", "https://youtu.be/cid"),
    ];
    let groups = organize_videos(&rows).unwrap();
    let index = check_cache(vec![entry("bid", "./cache/bid.mp4")]);
    let order = schedule_order(&groups, &index);
    assert_eq!(order, vec!["bid".to_string(), "aid".to_string(), "cid".to_string()]);
}

#[test]
fn fetch_plan_reuses_cached_path() {
    let index = check_cache(vec![entry("aaa", "./cache/aaa.mp4")]);
    match plan_fetch("aaa", &index) {
        FetchPlan::Reuse(p) => assert_eq!(p, "./cache/aaa.mp4"),
        FetchPlan::Download => panic!("expected a cache hit"),
    }
    assert!(matches!(plan_fetch("zzz", &index), FetchPlan::Download));
}

#[test]
fn numerals_print_in_decimal() {
    assert_eq!(usize_to_string(0), "0");
    assert_eq!(usize_to_string(7), "7");
    assert_eq!(usize_to_string(10), "10");
    assert_eq!(usize_to_string(123), "123");
}

#[test]
fn clip_jobs_name_outputs_in_order() {
    let rows = vec![
        row("10", "20", "https://youtu.be/abc123"),
        row("30", "40", "https://youtu.be/abc123"),
    ];
    let groups = organize_videos(&rows).unwrap();
    let jobs = clip_jobs("abc123", "./cache/abc123.mp4", "./video", &groups[0].clips);
    assert_eq!(jobs.len(), 2);
    assert_eq!(jobs[0].index, 1);
    assert_eq!(jobs[0].start_time, "00:00:10");
    assert_eq!(jobs[0].end_time, "00:00:20");
    assert_eq!(jobs[0].input, "./cache/abc123.mp4");
    assert_eq!(jobs[0].output, "./video/abc123/abc123 [1].mp4");
    assert_eq!(jobs[1].index, 2);
    assert_eq!(jobs[1].output, "./video/abc123/abc123 [2].mp4");
}

#[test]
fn end_to_end_single_row_plan() {
    let rows = vec![row("10", "20", "https://youtu.be/abc123")];
    let groups = organize_videos(&rows).unwrap();
    assert_eq!(groups.len(), 1);
    assert_eq!(groups[0].id, "abc123");
    let index = check_cache(Vec::new());
    assert!(matches!(plan_fetch("abc123", &index), FetchPlan::Download));
    let jobs = plan_clips(true, "abc123", "./cache/abc123.mp4", "./video", &groups[0].clips);
    assert_eq!(jobs.len(), 1);
    assert_eq!(jobs[0].output, "./video/abc123/abc123 [1].mp4");
    assert_eq!(jobs[0].start_time, "00:00:10");
    assert_eq!(jobs[0].end_time, "00:00:20");
}

#[test]
fn existing_output_directory_skips_all_writes() {
    let rows = vec![row("10", "20", "https://youtu.be/abc123")];
    let groups = organize_videos(&rows).unwrap();
    let jobs = plan_clips(false, "abc123", "./cache/abc123.mp4", "./video", &groups[0].clips);
    assert_eq!(jobs.len(), 0);
}

#[test]
fn output_directory_is_named_after_the_video() {
    assert_eq!(output_dir("./video", "abc123"), "./video/abc123");
}

#[test]
fn job_state_machine_follows_the_design() {
    let s = job_step(JobState::Pending, JobEvent::Begin);
    assert_eq!(s, JobState::Fetching);
    assert_eq!(job_step(s, JobEvent::FetchOk), JobState::Fetched);
    assert_eq!(job_step(s, JobEvent::FetchErr), JobState::FetchFailed);
    let c = job_step(JobState::Fetched, JobEvent::ClipsBegin);
    assert_eq!(c, JobState::Clipping);
    assert_eq!(job_step(c, JobEvent::ClipErr), JobState::ClipFailed);
    assert_eq!(job_step(c, JobEvent::ClipsDone), JobState::Done);
    // terminal states absorb every event
    assert_eq!(job_step(JobState::Done, JobEvent::FetchErr), JobState::Done);
    assert_eq!(job_step(JobState::FetchFailed, JobEvent::Begin), JobState::FetchFailed);
}

#[test]
fn job_outcomes_from_reports() {
    let ok = JobResult { fetch_ok: true, dir_created: true, clip_oks: vec![true, true] };
    let skipped = JobResult { fetch_ok: true, dir_created: false, clip_oks: vec![] };
    let clip_fail = JobResult { fetch_ok: true, dir_created: true, clip_oks: vec![true, false] };
    let fetch_fail = JobResult { fetch_ok: false, dir_created: true, clip_oks: vec![] };
    assert_eq!(job_outcome(&ok), JobState::Done);
    assert_eq!(job_outcome(&skipped), JobState::Done);
    assert_eq!(job_outcome(&clip_fail), JobState::ClipFailed);
    assert_eq!(job_outcome(&fetch_fail), JobState::FetchFailed);
}

#[test]
fn one_fetch_failure_leaves_other_jobs_done() {
    let jobs = vec![
        JobResult { fetch_ok: true, dir_created: true, clip_oks: vec![true] },
        JobResult { fetch_ok: false, dir_created: true, clip_oks: vec![] },
        JobResult { fetch_ok: true, dir_created: true, clip_oks: vec![true, true] },
    ];
    let outcomes = batch_outcomes(&jobs);
    assert_eq!(outcomes, vec![JobState::Done, JobState::FetchFailed, JobState::Done]);
}

use clipcut::normalize::{handle_link, handle_time};
use clipcut::requests::VideoLink;
use clipcut::ClipError;

#[test]
fn time_seconds_only() {
    assert_eq!(handle_time("5").unwrap(), "00:00:05");
}

#[test]
fn time_minutes_seconds() {
    assert_eq!(handle_time("1:30").unwrap(), "00:01:30");
}

#[test]
fn time_full_form() {
    assert_eq!(handle_time("1:02:03").unwrap(), "01:02:03");
}

#[test]
fn time_wide_segments_kept() {
    assert_eq!(handle_time("10:20").unwrap(), "00:10:20");
    assert_eq!(handle_time("99").unwrap(), "00:00:99");
}

#[test]
fn time_empty_is_padded() {
    assert_eq!(handle_time("").unwrap(), "00:00:00");
}

#[test]
fn time_too_many_segments() {
    assert_eq!(handle_time("1:2:3:4"), Err(ClipError::InvalidTimeFormat));
    assert_eq!(handle_time("::::"), Err(ClipError::InvalidTimeFormat));
}

#[test]
fn link_watch_with_playlist_params() {
    let r = handle_link("https://www.youtube.com/watch?v=abc123&list=PL0x&index=2");
    assert_eq!(r, "https://www.youtube.com/watch?v=abc123");
}

#[test]
fn link_watch_with_index_only() {
    let r = handle_link("https://www.youtube.com/watch?v=abc123&index=7");
    assert_eq!(r, "https://www.youtube.com/watch?v=abc123");
}

#[test]
fn link_short_form() {
    let r = handle_link("https://youtu.be/oKK4H33nUIs");
    assert_eq!(r, "https://www.youtube.com/watch?v=oKK4H33nUIs");
}

#[test]
fn link_short_form_with_query() {
    let r = handle_link("https://youtu.be/oKK4H33nUIs?si=LTe469e_gP5Co6yd");
    assert_eq!(r, "https://www.youtube.com/watch?v=oKK4H33nUIs");
}

#[test]
fn link_live_form() {
    let r = handle_link("https://www.youtube.com/live/xy-z_09");
    assert_eq!(r, "https://www.youtube.com/watch?v=xy-z_09");
}

#[test]
fn link_normalization_idempotent() {
    let inputs = [
        "https://www.youtube.com/watch?v=abc123&list=PL0x&index=2",
        "https://www.youtube.com/watch?v=abc123",
        "https://youtu.be/oKK4H33nUIs?si=LTe469e_gP5Co6yd",
        "https://www.youtube.com/live/xy-z_09",
    ];
    for raw in inputs {
        let once = handle_link(raw);
        let twice = handle_link(&once);
        assert_eq!(twice, once);
    }
}

#[test]
fn video_link_extracts_id() {
    let v = VideoLink::new("https://youtu.be/abc123").unwrap();
    assert_eq!(v.id, "abc123");
    assert_eq!(v.start_time, "00:00");
    assert_eq!(v.end_time, "00:00");
}

#[test]
fn video_link_rejects_markerless_text() {
    let r = VideoLink::new("no marker here");
    assert!(matches!(r, Err(ClipError::MalformedLink)));
}

#[test]
fn video_link_set_times() {
    let mut v = VideoLink::new("https://youtu.be/abc123").unwrap();
    v.set_start_time("7").unwrap();
    v.set_end_time("1:5").unwrap();
    assert_eq!(v.start_time, "00:00:07");
    assert_eq!(v.end_time, "00:01:05");
}

#[test]
fn video_link_set_time_rejects_bad_segments() {
    let mut v = VideoLink::new("https://youtu.be/abc123").unwrap();
    let r = v.set_start_time("1:2:3:4");
    assert!(matches!(r, Err(ClipError::InvalidTimeFormat)));
    assert_eq!(v.start_time, "00:00");
}

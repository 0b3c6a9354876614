//! Verified core of a batch video-clipping tool.
//!
//! The library turns spreadsheet rows of (start time, end time, video link)
//! into a fully planned batch run: canonical video identifiers, normalized
//! `HH:MM:SS` timecodes, per-video clip groups, a cache index, a
//! cached-first dispatch order, and the exact output paths of the clips.
//! All file, network and process work stays outside, in the application
//! around this crate.

use vstd::prelude::*;

pub mod strutil;
pub mod normalize;
pub mod linklaws;
pub mod requests;
pub mod cache;
pub mod schedule;
pub mod clipplan;
pub mod jobstate;

verus! {

/// The errors of the planning core.
#[derive(Clone, Copy, Debug, PartialEq, Eq, Structural)]
pub enum ClipError {
    /// A raw link holds no extractable video identifier.
    MalformedLink,
    /// A raw time string has more than three colon-separated segments.
    InvalidTimeFormat,
    /// After a download, no cache entry carries the video identifier.
    VideoNotFound,
}

} // verus!

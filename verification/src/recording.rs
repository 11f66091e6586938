//! Per-camera recording parameters, derived from the global configuration
//! and the camera's own entry.

use vstd::prelude::*;

use crate::config::{CameraConfig, GlobalConfig, SinkConfig};

verus! {

/// Default segment length in seconds.
pub const VIDEO_DURATION: u64 = 2;

/// Default video geometry.
pub const VIDEO_WIDTH: i64 = 1920;

pub const VIDEO_HEIGHT: i64 = 1080;

pub const VIDEO_FRAMERATE: i64 = 30;

/// Parameters one camera's recording pipeline runs with.
#[derive(Debug)]
pub struct RecordingConfig {
    pub recording_dir: String,
    pub video_duration: u64,
    pub video_width: i64,
    pub video_height: i64,
    pub frame_rate: i64,
}

/// A directory joined with one more component: exactly one separator stands
/// between them, whether or not the directory already ends in one.
pub open spec fn spec_dir_join(root: Seq<char>, name: Seq<char>) -> Seq<char> {
    if root.len() > 0 && root.last() == '/' {
        root + name
    } else {
        root + "/"@ + name
    }
}

/// The segment duration the first sink of one kind asks for, scanning in
/// sink order: 0 for ring sinks, 1 for NVR sinks, 2 for live-view sinks.
pub open spec fn spec_first_duration(sinks: Seq<SinkConfig>, kind: u8) -> Option<int>
    decreases sinks.len(),
{
    if sinks.len() == 0 {
        None
    } else if spec_sink_kind_matches(sinks[0], kind) {
        Some(spec_sink_duration(sinks[0]))
    } else {
        spec_first_duration(sinks.skip(1), kind)
    }
}

/// The segment duration a camera's sinks ask for: the first ring sink's,
/// else the first NVR sink's, else the first live-view sink's, else the
/// default.
pub open spec fn spec_chosen_duration(sinks: Seq<SinkConfig>) -> int {
    match spec_first_duration(sinks, 0) {
        Some(d) => d,
        None => match spec_first_duration(sinks, 1) {
            Some(d) => d,
            None => match spec_first_duration(sinks, 2) {
                Some(d) => d,
                None => VIDEO_DURATION as int,
            },
        },
    }
}

impl RecordingConfig {
    /// Recording parameters for one camera: the recordings live under
    /// `recording_root/<camera key>`, the geometry comes from the camera's
    /// entry where set and from the defaults where not, and the segment
    /// duration follows the camera's sinks.
    pub fn for_camera(global: &GlobalConfig, cam: &CameraConfig) -> (r: RecordingConfig)
        ensures
            r.recording_dir@ == spec_dir_join(global.recording_root@, cam.key@),
            r.video_width == (match cam.video_width {
                Some(w) => w,
                None => VIDEO_WIDTH,
            }),
            r.video_height == (match cam.video_height {
                Some(h) => h,
                None => VIDEO_HEIGHT,
            }),
            r.frame_rate == (match cam.video_framerate {
                Some(f) => f,
                None => VIDEO_FRAMERATE,
            }),
            r.video_duration == spec_chosen_duration(cam.sinks@),
    {
        proof {
            reveal_strlit("/");
        }
        let mut dir = global.recording_root.clone();
        let root_len = dir.as_str().unicode_len();
        let ends_in_separator = root_len > 0 && dir.as_str().get_char(root_len - 1) == '/';
        if !ends_in_separator {
            dir.append("/");
        }
        dir.append(cam.key.as_str());
        proof {
            assert(dir@ =~= spec_dir_join(global.recording_root@, cam.key@));
        }
        let video_width = match cam.video_width {
            Some(w) => w,
            None => VIDEO_WIDTH,
        };
        let video_height = match cam.video_height {
            Some(h) => h,
            None => VIDEO_HEIGHT,
        };
        let frame_rate = match cam.video_framerate {
            Some(f) => f,
            None => VIDEO_FRAMERATE,
        };
        let video_duration = Self::chosen_duration(&cam.sinks);
        RecordingConfig { recording_dir: dir, video_duration, video_width, video_height, frame_rate }
    }

    /// The duration of the first sink of each kind, in preference order.
    fn chosen_duration(sinks: &Vec<SinkConfig>) -> (r: u64)
        ensures
            r as int == spec_chosen_duration(sinks@),
    {
        match Self::first_duration_of_kind(sinks, 0) {
            Some(d) => d,
            None => match Self::first_duration_of_kind(sinks, 1) {
                Some(d) => d,
                None => match Self::first_duration_of_kind(sinks, 2) {
                    Some(d) => d,
                    None => VIDEO_DURATION,
                },
            },
        }
    }

    /// The duration of the first sink of one kind: 0 for ring sinks, 1 for
    /// NVR sinks, 2 for live-view sinks.
    fn first_duration_of_kind(sinks: &Vec<SinkConfig>, kind: u8) -> (r: Option<u64>)
        ensures
            match r {
                Some(d) => spec_first_duration(sinks@, kind) == Some(d as int),
                None => spec_first_duration(sinks@, kind) is None,
            },
    {
        let n = sinks.len();
        let mut i: usize = 0;
        proof {
            assert(sinks@.skip(0) =~= sinks@);
        }
        while i < n
            invariant
                n == sinks.len(),
                i <= n,
                spec_first_duration(sinks@, kind) == spec_first_duration(
                    sinks@.skip(i as int),
                    kind,
                ),
            decreases n - i,
        {
            proof {
                let suffix = sinks@.skip(i as int);
                assert(suffix[0] == sinks@[i as int]);
                assert(suffix.skip(1) =~= sinks@.skip(i as int + 1));
            }
            match sinks[i] {
                SinkConfig::DashcamTs { segment_duration_sec, .. } => {
                    if kind == 0 {
                        return Some(segment_duration_sec);
                    }
                },
                SinkConfig::NvrTs { segment_duration_sec, .. } => {
                    if kind == 1 {
                        return Some(segment_duration_sec);
                    }
                },
                SinkConfig::Hls { segment_duration_sec, .. } => {
                    if kind == 2 {
                        return Some(segment_duration_sec);
                    }
                },
            }
            i += 1;
        }
        proof {
            assert(sinks@.skip(n as int) =~= Seq::<SinkConfig>::empty());
        }
        None
    }
}

impl Default for RecordingConfig {
    /// Installation defaults: the stock recording directory, two-second
    /// segments, and the default geometry.
    fn default() -> (r: RecordingConfig)
        ensures
            r.recording_dir@ == crate::constants::RECORDING_DIR@,
            r.video_duration == VIDEO_DURATION,
            r.video_width == VIDEO_WIDTH,
            r.video_height == VIDEO_HEIGHT,
            r.frame_rate == VIDEO_FRAMERATE,
    {
        RecordingConfig {
            recording_dir: crate::constants::RECORDING_DIR.to_owned(),
            video_duration: VIDEO_DURATION,
            video_width: VIDEO_WIDTH,
            video_height: VIDEO_HEIGHT,
            frame_rate: VIDEO_FRAMERATE,
        }
    }
}

/// Whether a sink is of the given kind: 0 for ring sinks, 1 for NVR sinks,
/// 2 for live-view sinks.
pub open spec fn spec_sink_kind_matches(s: SinkConfig, kind: u8) -> bool {
    match s {
        SinkConfig::DashcamTs { .. } => kind == 0,
        SinkConfig::NvrTs { .. } => kind == 1,
        SinkConfig::Hls { .. } => kind == 2,
    }
}

/// A sink's configured segment duration.
pub open spec fn spec_sink_duration(s: SinkConfig) -> int {
    match s {
        SinkConfig::DashcamTs { segment_duration_sec, .. } => segment_duration_sec as int,
        SinkConfig::NvrTs { segment_duration_sec, .. } => segment_duration_sec as int,
        SinkConfig::Hls { segment_duration_sec, .. } => segment_duration_sec as int,
    }
}

} // verus!

//! Configuration surface of the service: cameras, their capture sources and
//! their sinks, and the validation rule applied at construction.

use vstd::prelude::*;

verus! {

/// Whole service configuration.
#[derive(Debug)]
pub struct AppConfig {
    pub global: GlobalConfig,
    pub cameras: Vec<CameraConfig>,
}

/// Paths and defaults shared by every camera.
#[derive(Debug)]
pub struct GlobalConfig {
    pub main_dir: String,
    pub recording_root: String,
    pub db_path: String,
    pub schema_path: String,
    pub log_level: Option<String>,
}

/// One camera: stable key, display name, capture source and sinks.
#[derive(Debug)]
pub struct CameraConfig {
    pub key: String,
    pub name: String,
    pub enabled: bool,
    pub role: CameraRole,
    pub video_width: Option<i64>,
    pub video_height: Option<i64>,
    pub video_framerate: Option<i64>,
    pub source: SourceConfig,
    pub sinks: Vec<SinkConfig>,
}

#[derive(Clone, Copy, Debug, PartialEq, Eq, Structural)]
pub enum CameraRole {
    Dashcam,
    Nvr,
    Preview,
}

/// Where a camera's video comes from.
#[derive(Debug)]
pub struct SourceConfig {
    pub kind: SourceKind,
    pub rtsp_url: Option<String>,
    pub device: Option<String>,
}

#[derive(Clone, Copy, Debug, PartialEq, Eq, Structural)]
pub enum SourceKind {
    Libcamera,
    Rtsp,
    V4l2,
}

/// One sink of a camera; only `DashcamTs` sinks own ring state.
#[derive(Clone, Copy, Debug, PartialEq, Eq, Structural)]
pub enum SinkConfig {
    DashcamTs { max_segments: i64, segment_duration_sec: u64, sink_id: i64 },
    NvrTs { segment_duration_sec: u64, sink_id: i64 },
    Hls { segment_duration_sec: u64, sink_id: i64 },
}

/// Two source descriptors describe the same capture source.
pub open spec fn spec_source_eq(a: SourceConfig, b: SourceConfig) -> bool {
    &&& a.kind == b.kind
    &&& (match (a.rtsp_url, b.rtsp_url) {
        (Some(x), Some(y)) => x@ == y@,
        (None, None) => true,
        _ => false,
    })
    &&& (match (a.device, b.device) {
        (Some(x), Some(y)) => x@ == y@,
        (None, None) => true,
        _ => false,
    })
}

/// A configuration is acceptable when no two enabled cameras share a
/// capture source, every RTSP source names its URL, and every local-device
/// source names its device.
pub open spec fn spec_config_ok(cfg: AppConfig) -> bool {
    &&& forall|i: int, j: int|
        0 <= i < j < cfg.cameras@.len() && (#[trigger] cfg.cameras@[i]).enabled && (
        #[trigger] cfg.cameras@[j]).enabled ==> !spec_source_eq(
            cfg.cameras@[i].source,
            cfg.cameras@[j].source,
        )
    &&& forall|i: int|
        0 <= i < cfg.cameras@.len() && (#[trigger] cfg.cameras@[i]).source.kind
            == SourceKind::Rtsp ==> cfg.cameras@[i].source.rtsp_url is Some
    &&& forall|i: int|
        0 <= i < cfg.cameras@.len() && (#[trigger] cfg.cameras@[i]).source.kind
            == SourceKind::V4l2 ==> cfg.cameras@[i].source.device is Some
}

/// Compare two source descriptors.
fn source_config_eq(a: &SourceConfig, b: &SourceConfig) -> (r: bool)
    ensures
        r == spec_source_eq(*a, *b),
{
    if !(a.kind == b.kind) {
        return false;
    }
    let urls_match = match (&a.rtsp_url, &b.rtsp_url) {
        (Some(x), Some(y)) => *x == *y,
        (None, None) => true,
        _ => false,
    };
    if !urls_match {
        return false;
    }
    match (&a.device, &b.device) {
        (Some(x), Some(y)) => *x == *y,
        (None, None) => true,
        _ => false,
    }
}

/// Validate a configuration: no two enabled cameras may share a source, an
/// RTSP source needs its URL, and a local-device source needs its device.
pub fn verify_app_config(app_config: &AppConfig) -> (r: bool)
    ensures
        r == spec_config_ok(*app_config),
{
    let n = app_config.cameras.len();
    let mut i: usize = 0;
    while i < n
        invariant
            n == app_config.cameras.len(),
            i <= n,
            forall|a: int, b: int|
                0 <= a < b < i && (#[trigger] app_config.cameras@[a]).enabled && (
                #[trigger] app_config.cameras@[b]).enabled ==> !spec_source_eq(
                    app_config.cameras@[a].source,
                    app_config.cameras@[b].source,
                ),
            forall|a: int|
                0 <= a < i && (#[trigger] app_config.cameras@[a]).source.kind == SourceKind::Rtsp
                    ==> app_config.cameras@[a].source.rtsp_url is Some,
            forall|a: int|
                0 <= a < i && (#[trigger] app_config.cameras@[a]).source.kind == SourceKind::V4l2
                    ==> app_config.cameras@[a].source.device is Some,
        decreases n - i,
    {
        let cam = &app_config.cameras[i];
        if cam.source.kind == SourceKind::Rtsp && cam.source.rtsp_url.is_none() {
            return false;
        }
        if cam.source.kind == SourceKind::V4l2 && cam.source.device.is_none() {
            return false;
        }
        if cam.enabled {
            let mut j: usize = 0;
            while j < i
                invariant
                    n == app_config.cameras.len(),
                    i < n,
                    j <= i,
                    *cam == app_config.cameras@[i as int],
                    app_config.cameras@[i as int].enabled,
                    forall|a: int|
                        0 <= a < j && (#[trigger] app_config.cameras@[a]).enabled
                            ==> !spec_source_eq(
                            app_config.cameras@[a].source,
                            app_config.cameras@[i as int].source,
                        ),
                decreases i - j,
            {
                if app_config.cameras[j].enabled && source_config_eq(
                    &app_config.cameras[j].source,
                    &cam.source,
                ) {
                    return false;
                }
                j += 1;
            }
        }
        i += 1;
    }
    true
}

} // verus!

use dashcam_rs::config::{CameraConfig, CameraRole, GlobalConfig, SinkConfig, SourceConfig, SourceKind};
use dashcam_rs::recording::RecordingConfig;

fn global() -> GlobalConfig {
    GlobalConfig {
        main_dir: "/var/lib/recorder".to_string(),
        recording_root: "/var/lib/recorder/recordings".to_string(),
        db_path: "/var/lib/recorder/db.sqlite".to_string(),
        schema_path: "/var/lib/recorder/schema.sql".to_string(),
        log_level: None,
    }
}

fn camera(sinks: Vec<SinkConfig>) -> CameraConfig {
    CameraConfig {
        key: "front".to_string(),
        name: "Front".to_string(),
        enabled: true,
        role: CameraRole::Dashcam,
        video_width: Some(1280),
        video_height: None,
        video_framerate: Some(15),
        source: SourceConfig {
            kind: SourceKind::V4l2,
            rtsp_url: None,
            device: Some("/dev/video0".to_string()),
        },
        sinks,
    }
}

#[test]
fn recording_config_derives_from_camera_entry() {
    let cam = camera(vec![
        SinkConfig::Hls { segment_duration_sec: 6, sink_id: 2 },
        SinkConfig::DashcamTs { max_segments: 100, segment_duration_sec: 4, sink_id: 0 },
    ]);
    let rc = RecordingConfig::for_camera(&global(), &cam);
    assert_eq!(rc.recording_dir, "/var/lib/recorder/recordings/front");
    assert_eq!(rc.video_width, 1280);
    assert_eq!(rc.video_height, 1080, "unset geometry falls back to the default");
    assert_eq!(rc.frame_rate, 15);
    assert_eq!(rc.video_duration, 4, "the ring sink's duration wins");
}

#[test]
fn recording_dir_join_adds_exactly_one_separator() {
    let mut g = global();
    g.recording_root = "/var/lib/recorder/recordings/".to_string();
    let cam = camera(vec![]);
    let rc = RecordingConfig::for_camera(&g, &cam);
    assert_eq!(rc.recording_dir, "/var/lib/recorder/recordings/front");
}

#[test]
fn recording_duration_falls_back_by_sink_kind() {
    let nvr_only = camera(vec![SinkConfig::NvrTs { segment_duration_sec: 8, sink_id: 1 }]);
    assert_eq!(RecordingConfig::for_camera(&global(), &nvr_only).video_duration, 8);

    let hls_only = camera(vec![SinkConfig::Hls { segment_duration_sec: 6, sink_id: 2 }]);
    assert_eq!(RecordingConfig::for_camera(&global(), &hls_only).video_duration, 6);

    let none = camera(vec![]);
    assert_eq!(RecordingConfig::for_camera(&global(), &none).video_duration, 2);
}

#[test]
fn recording_config_default_uses_installation_paths() {
    let rc = RecordingConfig::default();
    assert_eq!(rc.recording_dir, dashcam_rs::constants::RECORDING_DIR);
    assert_eq!(rc.video_duration, 2);
    assert_eq!(rc.video_width, 1920);
    assert_eq!(rc.video_height, 1080);
    assert_eq!(rc.frame_rate, 30);
}

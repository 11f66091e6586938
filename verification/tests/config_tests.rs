use dashcam_rs::config::{
    AppConfig, CameraConfig, CameraRole, GlobalConfig, SinkConfig, SourceConfig, SourceKind,
    verify_app_config,
};

fn global() -> GlobalConfig {
    GlobalConfig {
        main_dir: "/var/lib/recorder".to_string(),
        recording_root: "/var/lib/recorder/recordings".to_string(),
        db_path: "/var/lib/recorder/db.sqlite".to_string(),
        schema_path: "/var/lib/recorder/schema.sql".to_string(),
        log_level: Some("info".to_string()),
    }
}

fn camera(key: &str, enabled: bool, source: SourceConfig) -> CameraConfig {
    CameraConfig {
        key: key.to_string(),
        name: format!("Camera {}", key),
        enabled,
        role: CameraRole::Dashcam,
        video_width: Some(1920),
        video_height: Some(1080),
        video_framerate: Some(30),
        source,
        sinks: vec![SinkConfig::DashcamTs {
            sink_id: 0,
            segment_duration_sec: 2,
            max_segments: 86400,
        }],
    }
}

fn v4l2(device: &str) -> SourceConfig {
    SourceConfig {
        kind: SourceKind::V4l2,
        rtsp_url: None,
        device: Some(device.to_string()),
    }
}

#[test]
fn valid_config_passes() {
    let cfg = AppConfig {
        global: global(),
        cameras: vec![
            camera("front", true, v4l2("/dev/video0")),
            camera("rear", true, v4l2("/dev/video1")),
        ],
    };
    assert!(verify_app_config(&cfg));
}

#[test]
fn two_enabled_cameras_may_not_share_a_source() {
    let cfg = AppConfig {
        global: global(),
        cameras: vec![
            camera("front", true, v4l2("/dev/video0")),
            camera("rear", true, v4l2("/dev/video0")),
        ],
    };
    assert!(!verify_app_config(&cfg));

    // The same source on a disabled camera is tolerated.
    let cfg2 = AppConfig {
        global: global(),
        cameras: vec![
            camera("front", true, v4l2("/dev/video0")),
            camera("rear", false, v4l2("/dev/video0")),
        ],
    };
    assert!(verify_app_config(&cfg2));
}

#[test]
fn rtsp_requires_a_url() {
    let no_url = SourceConfig {
        kind: SourceKind::Rtsp,
        rtsp_url: None,
        device: None,
    };
    let cfg = AppConfig {
        global: global(),
        cameras: vec![camera("front", false, no_url)],
    };
    assert!(!verify_app_config(&cfg));

    let with_url = SourceConfig {
        kind: SourceKind::Rtsp,
        rtsp_url: Some("rtsp://10.0.0.2/stream".to_string()),
        device: None,
    };
    let cfg2 = AppConfig {
        global: global(),
        cameras: vec![camera("front", true, with_url)],
    };
    assert!(verify_app_config(&cfg2));
}

#[test]
fn v4l2_requires_a_device() {
    let no_device = SourceConfig {
        kind: SourceKind::V4l2,
        rtsp_url: None,
        device: None,
    };
    let cfg = AppConfig {
        global: global(),
        cameras: vec![camera("front", true, no_device)],
    };
    assert!(!verify_app_config(&cfg));
}

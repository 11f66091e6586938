use tempfile::TempDir;

use dashcam_rs::config::{
    AppConfig, CameraConfig, CameraRole, GlobalConfig, SinkConfig, SourceConfig, SourceKind,
};
use dashcam_rs::errors::DbError;
use dashcam_rs::store::{default_schema, DashcamDb};

/// Helper to build a minimal CameraConfig with one DashcamTs sink.
fn make_test_camera(
    key: &str,
    sink_id: i64,
    segment_duration_sec: u64,
    max_segments: i64,
) -> CameraConfig {
    CameraConfig {
        key: key.to_string(),
        name: format!("Camera {}", key),
        enabled: true,
        role: CameraRole::Dashcam,
        video_width: None,
        video_height: None,
        video_framerate: None,
        source: SourceConfig {
            kind: SourceKind::V4l2,
            rtsp_url: None,
            device: Some("/dev/video0".to_string()),
        },
        sinks: vec![SinkConfig::DashcamTs {
            sink_id,
            segment_duration_sec,
            max_segments,
        }],
    }
}

fn make_test_app_config(db_path: &str, schema_path: &str) -> AppConfig {
    AppConfig {
        global: GlobalConfig {
            main_dir: ".".to_string(),
            recording_root: "./recordings".to_string(),
            db_path: db_path.to_string(),
            schema_path: schema_path.to_string(),
            log_level: None,
        },
        cameras: vec![make_test_camera("cam1", 0, 2, 10)],
    }
}

fn open_test_db(dir: &TempDir, cameras: Vec<CameraConfig>) -> DashcamDb {
    let db_path = dir.path().join("db.sqlite");
    DashcamDb::setup_with_paths_and_schema(db_path.to_str().unwrap(), default_schema(), &cameras)
        .unwrap()
}

#[test]
fn it_creates_and_initializes_camera_state() {
    let tmp = TempDir::new().unwrap();
    let cameras = vec![make_test_camera("cam1", 0, 2, 10)];
    let db = open_test_db(&tmp, cameras);

    let camera_id = db.get_camera_id_by_key("cam1").unwrap();
    let sink_id = 0;

    let idx = db.get_segment_index(camera_id, sink_id).unwrap();
    let gent = db.get_segment_generation(camera_id, sink_id).unwrap();
    let abs = db.get_absolute_segments(camera_id, sink_id).unwrap();

    assert_eq!(idx, 0, "fresh DB should start at index 0");
    assert_eq!(gent, 0, "fresh DB should start with generation 0");
    assert_eq!(abs, 0, "fresh DB should start with absolute_segments 0");
}

#[test]
fn increment_wraps_and_bumps_generation_per_sink() {
    let tmp = TempDir::new().unwrap();
    let max_segments = 5;
    let cameras = vec![make_test_camera("cam1", 0, 2, max_segments)];
    let mut db = open_test_db(&tmp, cameras);

    let camera_id = db.get_camera_id_by_key("cam1").unwrap();
    let sink_id = 0;

    for _ in 0..(max_segments - 1) {
        db.increment_segment_index(camera_id, sink_id, max_segments)
            .unwrap();
    }

    let idx_before = db.get_segment_index(camera_id, sink_id).unwrap();
    let gen_before = db.get_segment_generation(camera_id, sink_id).unwrap();
    assert_eq!(idx_before, max_segments - 1);

    let idx = db
        .increment_segment_index(camera_id, sink_id, max_segments)
        .unwrap();
    let gen_after = db.get_segment_generation(camera_id, sink_id).unwrap();

    assert_eq!(idx, 0, "index should wrap to 0 at ring boundary");
    assert_eq!(
        gen_after,
        gen_before + 1,
        "generation should increment on wrap"
    );
}

#[test]
fn update_segment_counters_advances_and_wraps_absolute() {
    let tmp = TempDir::new().unwrap();
    let max_segments = 10;
    let cameras = vec![make_test_camera("cam1", 0, 2, max_segments)];
    let mut db = open_test_db(&tmp, cameras);

    let camera_id = db.get_camera_id_by_key("cam1").unwrap();
    let sink_id = 0;

    db.update_segment_counters(camera_id, sink_id, 3, max_segments)
        .unwrap();

    let idx = db.get_segment_index(camera_id, sink_id).unwrap();
    let gent = db.get_segment_generation(camera_id, sink_id).unwrap();
    let abs = db.get_absolute_segments(camera_id, sink_id).unwrap();

    assert_eq!(idx, 3, "segment_index should move to 3");
    assert_eq!(gent, 0, "no wrap yet, generation stays 0");
    assert_eq!(abs, 3, "absolute should be 3 after first advance");

    db.set_segment_index(camera_id, sink_id, 8).unwrap();
    db.set_segment_generation(camera_id, sink_id, 0).unwrap();
    db.set_absolute_segments(camera_id, sink_id, 8).unwrap();

    db.update_segment_counters(camera_id, sink_id, 2, max_segments)
        .unwrap();

    let idx2 = db.get_segment_index(camera_id, sink_id).unwrap();
    let gen2 = db.get_segment_generation(camera_id, sink_id).unwrap();
    let abs2 = db.get_absolute_segments(camera_id, sink_id).unwrap();

    assert_eq!(idx2, 2, "segment_index should be updated to 2 after wrap");
    assert_eq!(gen2, 1, "generation should have incremented on wrap");
    assert_eq!(abs2, 12, "absolute_segments should have advanced by 4");
}

#[test]
fn clamp_segment_index_reduces_to_ring_size() {
    let tmp = TempDir::new().unwrap();
    let max_segments = 10;
    let cameras = vec![make_test_camera("cam1", 0, 2, max_segments)];
    let mut db = open_test_db(&tmp, cameras);

    let camera_id = db.get_camera_id_by_key("cam1").unwrap();
    let sink_id = 0;

    db.set_segment_index(camera_id, sink_id, 25).unwrap();

    db.clamp_segment_index(camera_id, sink_id, max_segments)
        .unwrap();

    let idx = db.get_segment_index(camera_id, sink_id).unwrap();
    assert_eq!(
        idx,
        25 % max_segments,
        "segment_index should be clamped mod max_segments"
    );
}

#[test]
fn setup_from_app_config_values_initializes_camera() {
    // The original loads AppConfig paths from disk; here the config's
    // values are handed to the library directly.
    let tmp = TempDir::new().unwrap();
    let db_path = tmp.path().join("db.sqlite");
    let cfg = make_test_app_config(db_path.to_str().unwrap(), "unused-schema-path");

    let db = DashcamDb::setup_with_paths_and_schema(
        &cfg.global.db_path,
        default_schema(),
        &cfg.cameras,
    )
    .unwrap();

    let camera_id = db.get_camera_id_by_key("cam1").unwrap();
    let idx = db.get_segment_index(camera_id, 0).unwrap();
    assert_eq!(idx, 0);
}

#[test]
fn update_to_current_index_is_a_no_op() {
    let tmp = TempDir::new().unwrap();
    let max_segments = 10;
    let cameras = vec![make_test_camera("cam1", 0, 2, max_segments)];
    let mut db = open_test_db(&tmp, cameras);
    let camera_id = db.get_camera_id_by_key("cam1").unwrap();

    db.update_segment_counters(camera_id, 0, 3, max_segments).unwrap();
    db.update_segment_counters(camera_id, 0, 3, max_segments).unwrap();

    assert_eq!(db.get_segment_index(camera_id, 0).unwrap(), 3);
    assert_eq!(db.get_segment_generation(camera_id, 0).unwrap(), 0);
    assert_eq!(db.get_absolute_segments(camera_id, 0).unwrap(), 3);
}

#[test]
fn clamp_twice_equals_clamp_once() {
    let tmp = TempDir::new().unwrap();
    let max_segments = 10;
    let cameras = vec![make_test_camera("cam1", 0, 2, max_segments)];
    let mut db = open_test_db(&tmp, cameras);
    let camera_id = db.get_camera_id_by_key("cam1").unwrap();

    db.set_segment_index(camera_id, 0, 25).unwrap();
    db.clamp_segment_index(camera_id, 0, max_segments).unwrap();
    let once = db.get_segment_index(camera_id, 0).unwrap();
    db.clamp_segment_index(camera_id, 0, max_segments).unwrap();
    let twice = db.get_segment_index(camera_id, 0).unwrap();
    assert_eq!(once, 5);
    assert_eq!(twice, once);
}

#[test]
fn reopen_returns_last_committed_counters() {
    let tmp = TempDir::new().unwrap();
    let max_segments = 10;
    {
        let cameras = vec![make_test_camera("cam1", 0, 2, max_segments)];
        let mut db = open_test_db(&tmp, cameras);
        let camera_id = db.get_camera_id_by_key("cam1").unwrap();
        for _ in 0..13 {
            db.increment_segment_index(camera_id, 0, max_segments).unwrap();
        }
        assert_eq!(db.get_segment_index(camera_id, 0).unwrap(), 3);
        assert_eq!(db.get_segment_generation(camera_id, 0).unwrap(), 1);
        assert_eq!(db.get_absolute_segments(camera_id, 0).unwrap(), 13);
    }
    let cameras = vec![make_test_camera("cam1", 0, 2, max_segments)];
    let db = open_test_db(&tmp, cameras);
    let camera_id = db.get_camera_id_by_key("cam1").unwrap();
    assert_eq!(db.get_segment_index(camera_id, 0).unwrap(), 3);
    assert_eq!(db.get_segment_generation(camera_id, 0).unwrap(), 1);
    assert_eq!(db.get_absolute_segments(camera_id, 0).unwrap(), 13);
}

#[test]
fn missing_rows_and_bad_ring_sizes_are_reported() {
    let tmp = TempDir::new().unwrap();
    let cameras = vec![make_test_camera("cam1", 0, 2, 10)];
    let mut db = open_test_db(&tmp, cameras);
    let camera_id = db.get_camera_id_by_key("cam1").unwrap();

    assert!(db.get_camera_id_by_key("nope").is_none());
    assert!(db.get_segment_index(camera_id, 7).is_none());
    assert!(matches!(
        db.increment_segment_index(camera_id, 7, 10),
        Err(DbError::NotFound)
    ));
    assert!(matches!(
        db.increment_segment_index(camera_id, 0, 0),
        Err(DbError::Logic)
    ));
    assert!(matches!(
        db.update_segment_counters(camera_id, 0, 12, 10),
        Err(DbError::Logic)
    ));
    assert!(matches!(
        db.is_trip_fully_evicted(999, 10),
        Err(DbError::NotFound)
    ));
}

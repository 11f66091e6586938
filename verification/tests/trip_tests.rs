use tempfile::TempDir;

use dashcam_rs::config::{CameraConfig, CameraRole, SinkConfig, SourceConfig, SourceKind};
use dashcam_rs::store::{default_schema, DashcamDb};

fn make_camera(key: &str, max_segments: i64) -> CameraConfig {
    CameraConfig {
        key: key.to_string(),
        name: format!("Camera {}", key),
        enabled: true,
        role: CameraRole::Dashcam,
        video_width: None,
        video_height: None,
        video_framerate: None,
        source: SourceConfig {
            kind: SourceKind::V4l2,
            rtsp_url: None,
            device: Some("/dev/video0".to_string()),
        },
        sinks: vec![SinkConfig::DashcamTs {
            sink_id: 0,
            segment_duration_sec: 2,
            max_segments,
        }],
    }
}

fn open_db(dir: &TempDir, max_segments: i64) -> (DashcamDb, i64) {
    let db_path = dir.path().join("db.sqlite");
    let cameras = vec![make_camera("cam1", max_segments)];
    let db = DashcamDb::setup_with_paths_and_schema(
        db_path.to_str().unwrap(),
        default_schema(),
        &cameras,
    )
    .unwrap();
    let camera_id = db.get_camera_id_by_key("cam1").unwrap();
    (db, camera_id)
}

#[test]
fn new_trip_closes_at_previous_position() {
    let tmp = TempDir::new().unwrap();
    let max = 10;
    let (mut db, cam) = open_db(&tmp, max);

    for _ in 0..5 {
        db.increment_segment_index(cam, 0, max).unwrap();
    }
    let first = db.new_trip_at(cam, max, 1000).unwrap();
    assert_eq!(first.start_segment, 5);
    assert_eq!(first.start_gen, 0);
    assert_eq!(first.start_time_utc, 1000);
    assert_eq!(first.start_clock_source, "boot");
    assert!(first.final_segment.is_none());

    for _ in 0..3 {
        db.increment_segment_index(cam, 0, max).unwrap();
    }
    let second = db.new_trip_at(cam, max, 2000).unwrap();
    assert_eq!(second.start_segment, 8);
    assert_eq!(second.start_gen, 0);

    let trips = db.trips();
    assert_eq!(trips.len(), 2);
    let closed = &trips[0];
    assert_eq!(closed.id, first.id);
    assert_eq!(closed.final_segment, Some(7));
    assert_eq!(closed.end_gen, Some(0));
    assert_eq!(closed.end_time_utc, Some(2000));
    assert_eq!(closed.end_clock_source.as_deref(), Some("boot"));

    let open = db.open_current_trip(cam).unwrap();
    assert_eq!(open.id, second.id);
}

#[test]
fn new_trip_at_same_position_returns_existing_open_trip() {
    let tmp = TempDir::new().unwrap();
    let max = 10;
    let (mut db, cam) = open_db(&tmp, max);

    let first = db.new_trip_at(cam, max, 100).unwrap();
    let again = db.new_trip_at(cam, max, 200).unwrap();
    assert_eq!(again.id, first.id);
    assert_eq!(db.trips().len(), 1);
}

#[test]
fn only_one_open_trip_per_camera() {
    let tmp = TempDir::new().unwrap();
    let max = 10;
    let (mut db, cam) = open_db(&tmp, max);

    db.insert_trip_at(cam, 0, 50).unwrap();
    assert!(db.insert_trip_at(cam, 1, 60).is_err());

    let trips = db.trips();
    let open_count = trips.iter().filter(|t| t.final_segment.is_none()).count();
    assert_eq!(open_count, 1);
}

#[test]
fn insert_then_finalize_matches_new_trip() {
    let max = 10;

    // Route one: insert at the current position, finalize later.
    let tmp1 = TempDir::new().unwrap();
    let (mut db1, cam1) = open_db(&tmp1, max);
    for _ in 0..5 {
        db1.increment_segment_index(cam1, 0, max).unwrap();
    }
    db1.insert_trip_at(cam1, 5, 1000).unwrap();
    for _ in 0..3 {
        db1.increment_segment_index(cam1, 0, max).unwrap();
    }
    db1.finalize_open_trip_at(cam1, 7, 2000).unwrap();

    // Route two: let close-then-open close the trip in passing.
    let tmp2 = TempDir::new().unwrap();
    let (mut db2, cam2) = open_db(&tmp2, max);
    for _ in 0..5 {
        db2.increment_segment_index(cam2, 0, max).unwrap();
    }
    db2.new_trip_at(cam2, max, 1000).unwrap();
    for _ in 0..3 {
        db2.increment_segment_index(cam2, 0, max).unwrap();
    }
    db2.new_trip_at(cam2, max, 2000).unwrap();

    let a = &db1.trips()[0];
    let b = &db2.trips()[0];
    assert_eq!(a.camera_id, b.camera_id);
    assert_eq!(a.start_segment, b.start_segment);
    assert_eq!(a.start_gen, b.start_gen);
    assert_eq!(a.start_time_utc, b.start_time_utc);
    assert_eq!(a.final_segment, b.final_segment);
    assert_eq!(a.end_gen, b.end_gen);
    assert_eq!(a.end_time_utc, b.end_time_utc);
    assert_eq!(a.end_clock_source, b.end_clock_source);
    assert_eq!(a.fully_evicted, b.fully_evicted);
}

#[test]
fn mark_evicts_overwritten_trips_once() {
    let tmp = TempDir::new().unwrap();
    let max = 10;
    let (mut db, cam) = open_db(&tmp, max);

    // A closed trip spanning segments 5..=7 of generation zero.
    for _ in 0..5 {
        db.increment_segment_index(cam, 0, max).unwrap();
    }
    let first = db.new_trip_at(cam, max, 1000).unwrap();
    for _ in 0..3 {
        db.increment_segment_index(cam, 0, max).unwrap();
    }
    db.new_trip_at(cam, max, 2000).unwrap();

    // Advance far beyond one full ring so abs_end = 7 < abs_latest - 9.
    for _ in 0..21 {
        db.increment_segment_index(cam, 0, max).unwrap();
    }
    assert!(db.get_absolute_segments(cam, 0).unwrap() > max + 10);

    let stamped = db.mark_fully_evicted_trips_at(cam, max, 9000).unwrap();
    assert!(stamped >= 1);
    assert!(db.is_trip_fully_evicted(first.id, max).unwrap());

    let active = db.list_active_trips(cam);
    assert!(active.iter().all(|t| t.id != first.id));

    // Repeating the pass stamps nothing further.
    let again = db.mark_fully_evicted_trips_at(cam, max, 9500).unwrap();
    assert_eq!(again, 0);
    let evicted_at: Vec<Option<i64>> = db
        .trips()
        .iter()
        .filter(|t| t.id == first.id)
        .map(|t| t.evicted_at_utc)
        .collect();
    assert_eq!(evicted_at, vec![Some(9000)]);
}

#[test]
fn list_active_trips_is_newest_first() {
    let tmp = TempDir::new().unwrap();
    let max = 10;
    let (mut db, cam) = open_db(&tmp, max);

    for _ in 0..2 {
        db.increment_segment_index(cam, 0, max).unwrap();
    }
    let first = db.new_trip_at(cam, max, 100).unwrap();
    for _ in 0..2 {
        db.increment_segment_index(cam, 0, max).unwrap();
    }
    let second = db.new_trip_at(cam, max, 200).unwrap();
    for _ in 0..2 {
        db.increment_segment_index(cam, 0, max).unwrap();
    }
    let third = db.new_trip_at(cam, max, 300).unwrap();

    let active = db.list_active_trips(cam);
    let ids: Vec<i64> = active.iter().map(|t| t.id).collect();
    assert_eq!(ids, vec![third.id, second.id, first.id]);
}

#[test]
fn open_trip_is_never_evicted() {
    let tmp = TempDir::new().unwrap();
    let max = 10;
    let (mut db, cam) = open_db(&tmp, max);
    let open = db.new_trip_at(cam, max, 100).unwrap();
    for _ in 0..25 {
        db.increment_segment_index(cam, 0, max).unwrap();
    }
    assert!(!db.is_trip_fully_evicted(open.id, max).unwrap());
    assert_eq!(db.mark_fully_evicted_trips_at(cam, max, 200).unwrap(), 0);
}

#[test]
fn save_trip_records_saved_dir() {
    let tmp = TempDir::new().unwrap();
    let max = 10;
    let (mut db, cam) = open_db(&tmp, max);

    for _ in 0..5 {
        db.increment_segment_index(cam, 0, max).unwrap();
    }
    db.new_trip_at(cam, max, 1000).unwrap();
    for _ in 0..3 {
        db.increment_segment_index(cam, 0, max).unwrap();
    }
    let (new_trip, closed_id, closed_start, closed_end) = db
        .save_trip_and_start_new_at(cam, "/tmp/saved/1700000000", max, 3000)
        .unwrap();

    assert!(closed_id != 0);
    assert!(closed_end >= closed_start);
    assert_eq!(closed_start, 5);
    assert_eq!(closed_end, 7);
    assert_eq!(new_trip.start_segment, 8);

    let saved = db.saved_trips();
    assert_eq!(saved.len(), 1);
    assert_eq!(saved[0].trip_id, closed_id);
    assert_eq!(saved[0].saved_dir, "/tmp/saved/1700000000");
    assert_eq!(saved[0].saved_at_utc, 3000);
}

#[test]
fn save_trip_without_open_trip_reports_zero() {
    let tmp = TempDir::new().unwrap();
    let max = 10;
    let (mut db, cam) = open_db(&tmp, max);

    let (new_trip, closed_id, closed_start, closed_end) = db
        .save_trip_and_start_new_at(cam, "/tmp/saved/none", max, 500)
        .unwrap();
    assert_eq!(closed_id, 0);
    assert_eq!(closed_start, 0);
    assert_eq!(closed_end, 0);
    assert_eq!(new_trip.start_segment, 0);
    assert!(db.saved_trips().is_empty());
}

#[test]
fn boot_id_and_clock_source_are_stamped() {
    let tmp = TempDir::new().unwrap();
    let max = 10;
    let (mut db, cam) = open_db(&tmp, max);

    assert_eq!(db.boot_id().as_str(), "unknown_boot_id");
    db.set_boot_id(Some("boot-1234".to_string()));
    let t = db.insert_trip_at(cam, 0, 42).unwrap();
    assert_eq!(t.boot_id, "boot-1234");
    assert_eq!(t.start_clock_source, "boot");
    assert!(t.note.is_none());

    let mut db2 = db;
    db2.set_boot_id(None);
    assert_eq!(db2.boot_id().as_str(), "unknown_boot_id");
}

#[test]
fn trips_survive_reopen() {
    let tmp = TempDir::new().unwrap();
    let max = 10;
    let first_id;
    {
        let (mut db, cam) = open_db(&tmp, max);
        for _ in 0..5 {
            db.increment_segment_index(cam, 0, max).unwrap();
        }
        first_id = db.new_trip_at(cam, max, 1234).unwrap().id;
    }
    let (db, cam) = open_db(&tmp, max);
    let open = db.open_current_trip(cam).unwrap();
    assert_eq!(open.id, first_id);
    assert_eq!(open.start_segment, 5);
    assert_eq!(open.start_time_utc, 1234);
}

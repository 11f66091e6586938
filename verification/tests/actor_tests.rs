use tempfile::TempDir;

use dashcam_rs::actor::{handle_message, DBMessage, DBReply};
use dashcam_rs::config::{CameraConfig, CameraRole, SinkConfig, SourceConfig, SourceKind};
use dashcam_rs::store::{default_schema, DashcamDb};

fn open_db(dir: &TempDir, max_segments: i64) -> (DashcamDb, i64) {
    let cameras = vec![CameraConfig {
        key: "cam1".to_string(),
        name: "Camera cam1".to_string(),
        enabled: true,
        role: CameraRole::Dashcam,
        video_width: None,
        video_height: None,
        video_framerate: None,
        source: SourceConfig {
            kind: SourceKind::V4l2,
            rtsp_url: None,
            device: Some("/dev/video0".to_string()),
        },
        sinks: vec![SinkConfig::DashcamTs {
            sink_id: 0,
            segment_duration_sec: 2,
            max_segments,
        }],
    }];
    let db_path = dir.path().join("db.sqlite");
    let db = DashcamDb::setup_with_paths_and_schema(
        db_path.to_str().unwrap(),
        default_schema(),
        &cameras,
    )
    .unwrap();
    let camera_id = db.get_camera_id_by_key("cam1").unwrap();
    (db, camera_id)
}

#[test]
fn segment_update_then_read_back() {
    let tmp = TempDir::new().unwrap();
    let (mut db, cam) = open_db(&tmp, 10);

    let r = handle_message(
        &mut db,
        DBMessage::SegmentUpdate {
            camera_id: cam,
            sink_id: 0,
            new_segment_index: 4,
            max_segments: 10,
        },
    );
    assert!(matches!(r, DBReply::Done));

    let r = handle_message(
        &mut db,
        DBMessage::GetSegmentIndex { camera_id: cam, sink_id: 0 },
    );
    match r {
        DBReply::Int(v) => assert_eq!(v, 4),
        _ => panic!("expected an integer reply"),
    }
}

#[test]
fn missing_rows_degrade_to_sentinels() {
    let tmp = TempDir::new().unwrap();
    let (mut db, cam) = open_db(&tmp, 10);

    let r = handle_message(
        &mut db,
        DBMessage::GetSegmentIndex { camera_id: cam, sink_id: 9 },
    );
    match r {
        DBReply::Int(v) => assert_eq!(v, 0, "an unknown row reads as zero"),
        _ => panic!("expected an integer reply"),
    }

    let r = handle_message(
        &mut db,
        DBMessage::GetCameraIdByKey { camera_key: "nope".to_string() },
    );
    match r {
        DBReply::OptInt(o) => assert!(o.is_none()),
        _ => panic!("expected an optional integer reply"),
    }

    let r = handle_message(
        &mut db,
        DBMessage::NewTrip { camera_id: -1, max_segments: 10 },
    );
    assert!(matches!(r, DBReply::Failure(_)));
}

#[test]
fn clamp_message_reduces_the_index() {
    let tmp = TempDir::new().unwrap();
    let (mut db, cam) = open_db(&tmp, 10);
    db.set_segment_index(cam, 0, 25).unwrap();

    let r = handle_message(
        &mut db,
        DBMessage::ClampSegmentIndex { camera_id: cam, sink_id: 0, max_segments: 10 },
    );
    assert!(matches!(r, DBReply::Done));
    assert_eq!(db.get_segment_index(cam, 0).unwrap(), 5);
}

#[test]
fn trip_messages_drive_the_ledger() {
    let tmp = TempDir::new().unwrap();
    let (mut db, cam) = open_db(&tmp, 10);
    for _ in 0..5 {
        db.increment_segment_index(cam, 0, 10).unwrap();
    }

    let r = handle_message(&mut db, DBMessage::NewTrip { camera_id: cam, max_segments: 10 });
    let first = match r {
        DBReply::Trip(t) => t,
        _ => panic!("expected a trip reply"),
    };
    assert_eq!(first.start_segment, 5);

    for _ in 0..3 {
        db.increment_segment_index(cam, 0, 10).unwrap();
    }
    let r = handle_message(
        &mut db,
        DBMessage::SaveTrip {
            camera_id: cam,
            saved_dir: "/tmp/saved/1".to_string(),
            max_segments: 10,
        },
    );
    match r {
        DBReply::SaveOutcome(t, closed_id, closed_start, closed_end) => {
            assert_eq!(closed_id, first.id);
            assert_eq!(closed_start, 5);
            assert_eq!(closed_end, 7);
            assert_eq!(t.start_segment, 8);
        },
        _ => panic!("expected a save outcome"),
    }

    for _ in 0..25 {
        db.increment_segment_index(cam, 0, 10).unwrap();
    }
    let r = handle_message(&mut db, DBMessage::MarkEvicted { camera_id: cam, max_segments: 10 });
    match r {
        DBReply::Count(c) => assert_eq!(c, 1),
        _ => panic!("expected a count reply"),
    }
}

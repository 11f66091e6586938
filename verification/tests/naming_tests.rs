use dashcam_rs::naming::{i64_to_dec, is_live_artifact_name, segment_bucket_dir, segment_file_path, SegmentNamer};

#[test]
fn decimal_formatting_is_exact() {
    assert_eq!(i64_to_dec(0), "0");
    assert_eq!(i64_to_dec(7), "7");
    assert_eq!(i64_to_dec(10), "10");
    assert_eq!(i64_to_dec(86399), "86399");
    assert_eq!(i64_to_dec(i64::MAX), "9223372036854775807");
}

#[test]
fn segment_paths_follow_the_ring_layout() {
    assert_eq!(segment_file_path("/rec/cam1", 5), "/rec/cam1/0/output_5.ts");
    assert_eq!(segment_file_path("/rec/cam1", 999), "/rec/cam1/0/output_999.ts");
    assert_eq!(
        segment_file_path("/rec/cam1", 1000),
        "/rec/cam1/1/output_1000.ts"
    );
    assert_eq!(
        segment_file_path("/rec/cam1", 12345),
        "/rec/cam1/12/output_12345.ts"
    );
    assert_eq!(segment_bucket_dir("/rec/cam1", 12345), "/rec/cam1/12");
}

#[test]
fn namer_advances_and_wraps() {
    let mut namer = SegmentNamer::new(1, 0, 3, "/rec/cam1".to_string(), 0);
    let (p0, n0) = namer.next_path();
    assert_eq!(p0, "/rec/cam1/0/output_0.ts");
    assert_eq!(n0, 1);
    let (p1, n1) = namer.next_path();
    assert_eq!(p1, "/rec/cam1/0/output_1.ts");
    assert_eq!(n1, 2);
    let (p2, n2) = namer.next_path();
    assert_eq!(p2, "/rec/cam1/0/output_2.ts");
    assert_eq!(n2, 0, "the ring position wraps to zero");
}

#[test]
fn namer_seeds_from_persisted_index() {
    let mut namer = SegmentNamer::new(1, 0, 10, "/rec/cam1".to_string(), 7);
    let (p, n) = namer.next_path();
    assert_eq!(p, "/rec/cam1/0/output_7.ts");
    assert_eq!(n, 8);

    // A stale index outside the ring starts over at slot zero.
    let mut stale = SegmentNamer::new(1, 0, 10, "/rec/cam1".to_string(), 42);
    let (p2, _) = stale.next_path();
    assert_eq!(p2, "/rec/cam1/0/output_0.ts");
}

#[test]
fn live_artifacts_match_and_ring_files_do_not() {
    assert!(is_live_artifact_name("livestream.m3u8"));
    assert!(is_live_artifact_name("segment012.ts"));
    assert!(is_live_artifact_name("segment1.ts"));
    assert!(is_live_artifact_name("segment.ts"));
    assert!(!is_live_artifact_name("output_5.ts"));
    assert!(!is_live_artifact_name("segment01.mp4"));
    assert!(!is_live_artifact_name("segment0a.ts"));
    assert!(!is_live_artifact_name("asegment0.ts"));
    assert!(!is_live_artifact_name(""));
}

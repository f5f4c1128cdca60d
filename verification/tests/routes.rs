use minitube::error::Error;
use minitube::routes::detect_labels_event;
use minitube::routes::route_for;
use minitube::routes::search_query_labels;
use minitube::routes::thumbnail_job;
use minitube::routes::thumbnail_object_key;
use minitube::routes::video_object_key;
use minitube::routes::GenerateThumbnail;
use minitube::routes::Route;

const GOOD_ID: &str = "v1_aaaaaaaaaaaaaaaaaaa";

#[test]
fn known_paths_route() {
    assert_eq!(route_for("/search"), Route::Search);
    assert_eq!(route_for("/createVideo"), Route::CreateVideo);
    assert_eq!(route_for("/generateThumbnail"), Route::GenerateThumbnail);
}

#[test]
fn unknown_paths_are_invalid() {
    assert_eq!(route_for("/"), Route::Invalid);
    assert_eq!(route_for("/Search"), Route::Invalid);
    assert_eq!(route_for("/search/"), Route::Invalid);
    assert_eq!(route_for(""), Route::Invalid);
}

#[test]
fn object_keys_append_extensions() {
    assert_eq!(video_object_key(GOOD_ID), format!("{}.mp4", GOOD_ID));
    assert_eq!(thumbnail_object_key(GOOD_ID), format!("{}.png", GOOD_ID));
}

#[test]
fn thumbnail_job_accepts_valid_id() {
    let req = GenerateThumbnail {
        video_id: GOOD_ID.to_string(),
        timestamp: 42,
    };
    let job = thumbnail_job(&req).unwrap();
    assert_eq!(job.video_key, format!("{}.mp4", GOOD_ID));
    assert_eq!(job.timestamp, 42);
}

#[test]
fn thumbnail_job_rejects_invalid_id() {
    let req = GenerateThumbnail {
        video_id: "../../etc/passwd".to_string(),
        timestamp: 0,
    };
    let err = thumbnail_job(&req).unwrap_err();
    assert!(matches!(err, Error::InvalidRequest { info } if info == "Invalid `video_id`"));
}

#[test]
fn detect_labels_event_targets_thumbnail_bucket() {
    let event = detect_labels_event(&GOOD_ID.to_string()).unwrap();
    assert_eq!(event.video_id, GOOD_ID);
    assert_eq!(event.bucket, "minitube.thumbnails");
}

#[test]
fn detect_labels_event_rejects_invalid_id() {
    let err = detect_labels_event(&"nope".to_string()).unwrap_err();
    assert!(matches!(err, Error::InvalidRequest { .. }));
}

#[test]
fn free_text_query_splits_on_spaces() {
    let q = search_query_labels("funny  Cat videos ");
    assert_eq!(q.labels, vec!["funny", "Cat", "videos"]);
    assert!(search_query_labels("").labels.is_empty());
    assert!(search_query_labels("   ").labels.is_empty());
}

use wherehaveibeen::{overlaps, BoundingBox, TrackInformation, TracksDatabase};

const DEGREE: i64 = 10_000_000;

fn rect(nw_lat: i64, nw_lon: i64, se_lat: i64, se_lon: i64, activity: &str) -> TrackInformation {
    TrackInformation::new(
        nw_lat * DEGREE,
        nw_lon * DEGREE,
        se_lat * DEGREE,
        se_lon * DEGREE,
        "2023-05-01T10:00:00+00:00".to_string(),
        activity.to_string(),
    )
}

#[test]
fn overlapping_extent_is_returned() {
    let mut db = TracksDatabase::new();
    db.insert_new_file("a.gpx".to_string(), rect(10, 10, 0, 20, "cycling"), false);
    let stored = rect(10, 10, 0, 20, "").bounds();
    let query = rect(5, 15, -5, 25, "");
    assert!(overlaps(&stored, &query.bounds()));
    assert_eq!(db.get_tracks_inside_location(&query), vec!["a.gpx".to_string()]);
}

#[test]
fn disjoint_extent_is_not_returned() {
    let mut db = TracksDatabase::new();
    db.insert_new_file("a.gpx".to_string(), rect(10, 10, 5, 15, "cycling"), false);
    let stored = rect(10, 10, 5, 15, "").bounds();
    let query = rect(0, 0, -5, 5, "");
    assert!(!overlaps(&stored, &query.bounds()));
    assert!(db.get_tracks_inside_location(&query).is_empty());
}

#[test]
fn overlap_is_symmetric() {
    let boxes = [
        BoundingBox::new(10, 10, 0, 20),
        BoundingBox::new(5, 15, -5, 25),
        BoundingBox::new(10, 10, 5, 15),
        BoundingBox::new(0, 0, -5, 5),
        BoundingBox::new(0, 20, -3, 30),
    ];
    for a in boxes.iter() {
        for b in boxes.iter() {
            assert_eq!(overlaps(a, b), overlaps(b, a));
        }
    }
}

#[test]
fn touching_corners_overlap_and_adjacent_gaps_do_not() {
    let a = BoundingBox::new(10, 0, 0, 10);
    assert!(overlaps(&a, &BoundingBox::new(0, 10, -5, 20)));
    assert!(overlaps(&a, &BoundingBox::new(20, 10, 10, 20)));
    assert!(!overlaps(&a, &BoundingBox::new(0, 11, -5, 20)));
    assert!(!overlaps(&a, &BoundingBox::new(-1, 0, -5, 10)));
}

#[test]
fn query_filters_by_activity_type() {
    let mut db = TracksDatabase::new();
    db.insert_new_file("ride.gpx".to_string(), rect(10, 10, 0, 20, "cycling"), false);
    db.insert_new_file("walk.gpx".to_string(), rect(10, 10, 0, 20, "walking"), false);
    let all = db.get_tracks_inside_location(&rect(5, 15, -5, 25, ""));
    assert_eq!(all, vec!["ride.gpx".to_string(), "walk.gpx".to_string()]);
    let walks = db.get_tracks_inside_location(&rect(5, 15, -5, 25, "walking"));
    assert_eq!(walks, vec!["walk.gpx".to_string()]);
    assert!(db.get_tracks_inside_location(&rect(5, 15, -5, 25, "swimming")).is_empty());
}

#[test]
fn empty_track_is_never_returned() {
    let mut db = TracksDatabase::new();
    db.insert_new_file("broken.fit".to_string(), TrackInformation::create_empty_track(), true);
    db.insert_new_file("good.gpx".to_string(), rect(1, -1, -1, 1, "cycling"), false);
    let everywhere = rect(90, -180, -90, 180, "");
    assert_eq!(db.get_tracks_inside_location(&everywhere), vec!["good.gpx".to_string()]);
    let at_origin = TrackInformation::create_empty_track();
    assert_eq!(db.get_tracks_inside_location(&at_origin), vec!["good.gpx".to_string()]);
    assert_eq!(
        db.get_all_filenames(),
        vec!["broken.fit".to_string(), "good.gpx".to_string()]
    );
}

#[test]
fn activity_types_are_distinct_and_non_empty() {
    let mut db = TracksDatabase::new();
    db.insert_new_file("a".to_string(), rect(1, 1, 0, 2, "cycling"), false);
    db.insert_new_file("b".to_string(), TrackInformation::create_empty_track(), true);
    db.insert_new_file("c".to_string(), rect(1, 1, 0, 2, "walking"), false);
    db.insert_new_file("d".to_string(), rect(1, 1, 0, 2, "cycling"), false);
    assert_eq!(
        db.get_all_activity_types(),
        vec!["cycling".to_string(), "walking".to_string()]
    );
    assert!(db.contains_filename(&"b".to_string()));
    assert!(!db.contains_filename(&"e".to_string()));
}

use wherehaveibeen::{
    ingest_all, ingest_file, track_insert_params, HeatmapAccumulator, HeatmapDatabase,
    TrackFile, TrackInformation, TrackInput, TrackPoint, TrackRecord, TracksDatabase,
};

fn point(lat: i64, lon: i64) -> TrackPoint {
    TrackPoint::new(lat, lon, None, "2023-05-01T10:00:00Z".to_string())
}

fn inputs() -> Vec<TrackInput> {
    vec![
        TrackInput::new(
            "a.gpx".to_string(),
            Some(TrackFile::new(
                vec![point(471_234_567, 85_000_000), point(471_234_571, 85_000_001)],
                "cycling".to_string(),
            )),
        ),
        TrackInput::new("broken.fit".to_string(), None),
        TrackInput::new(
            "empty.gpx".to_string(),
            Some(TrackFile::new(vec![], "walking".to_string())),
        ),
    ]
}

#[test]
fn ingestion_stores_one_row_per_file() {
    let mut tracks = TracksDatabase::new();
    let mut acc = HeatmapAccumulator::new();
    ingest_all(&mut tracks, &mut acc, &inputs());
    assert_eq!(
        tracks.get_all_filenames(),
        vec!["a.gpx".to_string(), "broken.fit".to_string(), "empty.gpx".to_string()]
    );
    // both points of a.gpx quantize to one key
    let entries = acc.entries();
    assert_eq!(entries.len(), 1);
    assert_eq!((entries[0].latitude, entries[0].longitude, entries[0].frequency), (4_712_346, 850_000, 2));
    assert_eq!(acc.total(), 2);
}

#[test]
fn rerunning_ingestion_changes_nothing() {
    let mut tracks = TracksDatabase::new();
    let mut heatmap = HeatmapDatabase::new();
    let mut first = HeatmapAccumulator::new();
    ingest_all(&mut tracks, &mut first, &inputs());
    heatmap.update_heatmap(&first.entries());

    let mut second = HeatmapAccumulator::new();
    ingest_all(&mut tracks, &mut second, &inputs());
    assert_eq!(tracks.len(), 3);
    assert!(second.entries().is_empty());
    heatmap.update_heatmap(&second.entries());
    assert_eq!(heatmap.frequency(4_712_346, 850_000), 2);
}

#[test]
fn known_file_is_skipped() {
    let mut tracks = TracksDatabase::new();
    tracks.insert_new_file("a.gpx".to_string(), TrackInformation::create_empty_track(), true);
    let mut acc = HeatmapAccumulator::new();
    let input = &inputs()[0];
    assert!(!ingest_file(&mut tracks, &mut acc, &input.filename, &input.track));
    assert_eq!(tracks.len(), 1);
    assert!(acc.entries().is_empty());
}

#[test]
fn failed_files_get_the_empty_sentinel() {
    let mut tracks = TracksDatabase::new();
    let mut acc = HeatmapAccumulator::new();
    ingest_all(&mut tracks, &mut acc, &inputs());
    let everywhere = TrackInformation::new(
        900_000_000,
        -1_800_000_000,
        -900_000_000,
        1_800_000_000,
        String::new(),
        String::new(),
    );
    assert_eq!(tracks.get_tracks_inside_location(&everywhere), vec!["a.gpx".to_string()]);
}

#[test]
fn track_row_parameters() {
    let row = TrackRecord {
        filename: "a.gpx".to_string(),
        information: TrackInformation::new(
            471_234_571,
            85_000_000,
            471_234_567,
            85_000_001,
            "2023-05-01T10:00:00+00:00".to_string(),
            "cycling".to_string(),
        ),
        is_empty_track: false,
    };
    assert_eq!(
        track_insert_params(&row),
        vec![
            "a.gpx",
            "47.1234571",
            "8.5000000",
            "47.1234567",
            "8.5000001",
            "0",
            "2023-05-01T10:00:00+00:00",
            "cycling"
        ]
    );
}

use std::io::Write;

use wherehaveibeen::{
    decompress_gz, get_activity_type_conversions, get_cache_directory, get_database_path,
    get_destination_path, get_tracks_directory, parse_activity_type_conversions,
    sanitize_activity_type, DecompressError, ACTIVITY_TYPE_CONVERSIONS,
};

fn gzip(data: &[u8]) -> Vec<u8> {
    let mut encoder = flate2::write::GzEncoder::new(Vec::new(), flate2::Compression::default());
    encoder.write_all(data).unwrap();
    encoder.finish().unwrap()
}

#[test]
fn test_decompress_gz_file() {
    let compressed = gzip(b"fit file contents");
    let result = decompress_gz(&compressed);
    assert!(result.is_ok());
    assert_eq!(result.unwrap(), b"fit file contents".to_vec());
}

#[test]
fn test_get_destination_path() {
    let destination = get_destination_path("/Dev/track-fit/1934901223.fit.gz").unwrap();
    assert_eq!("/Dev/track-fit/1934901223.fit", destination);
}

#[test]
fn destination_path_edge_cases() {
    assert_eq!(get_destination_path("track.gpx").unwrap(), "track");
    assert_eq!(get_destination_path("dir/.hidden").unwrap(), "dir/.hidden");
    assert_eq!(get_destination_path("dir.d/plain").unwrap(), "dir.d/plain");
    assert_eq!(get_destination_path("dir/"), None);
    assert_eq!(get_destination_path(""), None);
    assert_eq!(get_destination_path("a/.."), None);
}

#[test]
fn decompress_rejects_invalid_data() {
    let result = decompress_gz(b"not gzip at all");
    assert_eq!(result, Err(DecompressError::InvalidData));
}

#[test]
fn test_conversion() {
    let conversions =
        parse_activity_type_conversions(&get_activity_type_conversions(None)).unwrap();
    let result = sanitize_activity_type("StandUpPaddling", &conversions);
    assert_eq!(result, "Stand Up Paddling".to_string());
}

#[test]
fn activity_type_without_conversion() {
    let conversions = parse_activity_type_conversions(ACTIVITY_TYPE_CONVERSIONS).unwrap();
    assert_eq!(sanitize_activity_type("running", &conversions), "running");
    assert_eq!(sanitize_activity_type("", &conversions), "other");
    assert_eq!(sanitize_activity_type("biking", &conversions), "cycling");
}

#[test]
fn invalid_conversions_json() {
    assert!(parse_activity_type_conversions("{ not json").is_none());
    assert!(parse_activity_type_conversions("[1, 2]").is_none());
}

#[test]
fn settings_fall_back_to_defaults() {
    assert_eq!(get_database_path(None), "tracks_database.db");
    assert_eq!(get_database_path(Some("x.db".to_string())), "x.db");
    assert_eq!(get_cache_directory(None), ".//.cached_tracks");
    assert_eq!(get_tracks_directory(Some("/t".to_string())), "/t");
}

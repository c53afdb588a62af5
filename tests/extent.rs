use wherehaveibeen::{
    compute_bounds, extract_track_coordinates, extract_track_information, BoundingBox, Coordinate,
    TrackError, TrackFile, TrackPoint,
};

fn point(lat: i64, lon: i64, time: &str) -> TrackPoint {
    TrackPoint::new(lat, lon, Some(1000), time.to_string())
}

#[test]
fn extent_takes_extrema_per_axis() {
    let points = vec![
        point(475_000_000, 85_000_000, "2023-05-01T10:00:00Z"),
        point(476_000_000, 84_000_000, "2023-05-01T10:00:01Z"),
        point(474_000_000, 86_000_000, "2023-05-01T10:00:02Z"),
    ];
    let info = extract_track_information(&TrackFile::new(points, "cycling".to_string())).unwrap();
    assert_eq!(info.north_west_latitude, 476_000_000);
    assert_eq!(info.north_west_longitude, 84_000_000);
    assert_eq!(info.south_east_latitude, 474_000_000);
    assert_eq!(info.south_east_longitude, 86_000_000);
    assert_eq!(info.date, "2023-05-01T10:00:00+00:00");
    assert_eq!(info.activity_type, "cycling");
}

#[test]
fn extent_does_not_depend_on_point_order() {
    let a = vec![point(1, 9, "t"), point(-5, 3, "t"), point(7, -2, "t"), point(0, 0, "t")];
    let b = vec![point(0, 0, "t"), point(7, -2, "t"), point(1, 9, "t"), point(-5, 3, "t")];
    let expected = BoundingBox::new(7, -2, -5, 9);
    assert_eq!(compute_bounds(&a), Some(expected));
    assert_eq!(compute_bounds(&b), Some(expected));
}

#[test]
fn single_point_gives_zero_area_extent() {
    let points = vec![point(-337_000_000, 1_510_000_000, "2020-01-02T03:04:05+02:00")];
    let info = extract_track_information(&TrackFile::new(points, "walking".to_string())).unwrap();
    assert_eq!(info.north_west_latitude, -337_000_000);
    assert_eq!(info.south_east_latitude, -337_000_000);
    assert_eq!(info.north_west_longitude, 1_510_000_000);
    assert_eq!(info.south_east_longitude, 1_510_000_000);
    assert_eq!(info.date, "2020-01-02T03:04:05+02:00");
}

#[test]
fn empty_track_has_no_valid_points() {
    let result = extract_track_information(&TrackFile::new(vec![], "cycling".to_string()));
    assert_eq!(result.unwrap_err(), TrackError::NoValidPoints);
    assert_eq!(compute_bounds(&vec![]), None);
}

#[test]
fn unparsable_first_timestamp_is_invalid_date() {
    let points = vec![point(1, 1, "yesterday"), point(2, 2, "2023-05-01T10:00:00Z")];
    let result = extract_track_information(&TrackFile::new(points, "cycling".to_string()));
    assert_eq!(result.unwrap_err(), TrackError::InvalidDate);
}

#[test]
fn coordinates_follow_points() {
    let track = TrackFile::new(vec![point(1, 2, "t"), point(3, 4, "t")], "x".to_string());
    assert_eq!(
        extract_track_coordinates(&track),
        vec![Coordinate::new(1, 2), Coordinate::new(3, 4)]
    );
}

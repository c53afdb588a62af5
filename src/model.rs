use vstd::prelude::*;

use crate::decimal::{digits_of, fixed_point_text, fixed_point_text_of, unsigned_text};
use crate::geo::BoundingBox;

verus! {

/// A raw position, in units of `10^-7` degrees.
#[derive(Clone, Copy, Debug, PartialEq, Eq, Structural)]
pub struct Coordinate {
    pub latitude: i64,
    pub longitude: i64,
}

impl Coordinate {
    pub fn new(latitude: i64, longitude: i64) -> (r: Coordinate)
        ensures
            r.latitude == latitude,
            r.longitude == longitude,
    {
        Coordinate { latitude, longitude }
    }
}

/// One recorded point of a track: position in `10^-7` degrees, elevation in
/// millimetres when known, and the timestamp as written in the source file.
#[derive(Clone, Debug)]
pub struct TrackPoint {
    pub latitude: i64,
    pub longitude: i64,
    pub elevation: Option<i64>,
    pub time: String,
}

impl TrackPoint {
    pub fn new(latitude: i64, longitude: i64, elevation: Option<i64>, time: String) -> (r:
        TrackPoint)
        ensures
            r.latitude == latitude,
            r.longitude == longitude,
            r.elevation == elevation,
            r.time == time,
    {
        TrackPoint { latitude, longitude, elevation, time }
    }
}

/// The ordered points of one track file and its normalized activity type.
#[derive(Clone, Debug)]
pub struct TrackFile {
    pub track_points: Vec<TrackPoint>,
    pub activity_type: String,
}

impl TrackFile {
    pub fn new(track_points: Vec<TrackPoint>, activity_type: String) -> (r: TrackFile)
        ensures
            r.track_points == track_points,
            r.activity_type == activity_type,
    {
        TrackFile { track_points, activity_type }
    }
}

/// The extent of a track with its metadata. Also used as a query rectangle,
/// where `activity_type` is the optional filter (empty for none).
#[derive(Clone, Debug)]
pub struct TrackInformation {
    pub north_west_latitude: i64,
    pub north_west_longitude: i64,
    pub south_east_latitude: i64,
    pub south_east_longitude: i64,
    pub date: String,
    pub activity_type: String,
}

impl TrackInformation {
    pub open spec fn spec_bounds(&self) -> BoundingBox {
        BoundingBox {
            north_west_latitude: self.north_west_latitude,
            north_west_longitude: self.north_west_longitude,
            south_east_latitude: self.south_east_latitude,
            south_east_longitude: self.south_east_longitude,
        }
    }

    pub fn new(
        north_west_latitude: i64,
        north_west_longitude: i64,
        south_east_latitude: i64,
        south_east_longitude: i64,
        date: String,
        activity_type: String,
    ) -> (r: TrackInformation)
        ensures
            r.north_west_latitude == north_west_latitude,
            r.north_west_longitude == north_west_longitude,
            r.south_east_latitude == south_east_latitude,
            r.south_east_longitude == south_east_longitude,
            r.date == date,
            r.activity_type == activity_type,
    {
        TrackInformation {
            north_west_latitude,
            north_west_longitude,
            south_east_latitude,
            south_east_longitude,
            date,
            activity_type,
        }
    }

    /// The all-zero record stored for a file whose track could not be read.
    pub fn create_empty_track() -> (r: TrackInformation)
        ensures
            r.spec_bounds() == (BoundingBox {
                north_west_latitude: 0,
                north_west_longitude: 0,
                south_east_latitude: 0,
                south_east_longitude: 0,
            }),
            r.date@ == Seq::<char>::empty(),
            r.activity_type@ == Seq::<char>::empty(),
    {
        TrackInformation {
            north_west_latitude: 0,
            north_west_longitude: 0,
            south_east_latitude: 0,
            south_east_longitude: 0,
            date: String::new(),
            activity_type: String::new(),
        }
    }

    pub fn bounds(&self) -> (r: BoundingBox)
        ensures
            r == self.spec_bounds(),
    {
        BoundingBox {
            north_west_latitude: self.north_west_latitude,
            north_west_longitude: self.north_west_longitude,
            south_east_latitude: self.south_east_latitude,
            south_east_longitude: self.south_east_longitude,
        }
    }
}

/// A quantized coordinate, in units of `10^-5` degrees, with its visit count.
#[derive(Clone, Copy, Debug, PartialEq, Eq, Structural)]
pub struct HeatmapEntry {
    pub latitude: i64,
    pub longitude: i64,
    pub frequency: u64,
}

impl HeatmapEntry {
    pub open spec fn key(self) -> (int, int) {
        (self.latitude as int, self.longitude as int)
    }

    pub fn new(latitude: i64, longitude: i64, frequency: u64) -> (r: HeatmapEntry)
        ensures
            r.latitude == latitude,
            r.longitude == longitude,
            r.frequency == frequency,
    {
        HeatmapEntry { latitude, longitude, frequency }
    }
}

/// A quantized coordinate rendered as decimal text with five decimals.
#[derive(Clone, Debug)]
pub struct StringifiedCoordinate {
    pub latitude: String,
    pub longitude: String,
}

impl StringifiedCoordinate {
    pub fn new(latitude: String, longitude: String) -> (r: StringifiedCoordinate)
        ensures
            r.latitude == latitude,
            r.longitude == longitude,
    {
        StringifiedCoordinate { latitude, longitude }
    }
}

/// A heatmap entry as handed to the serving layer, every field as text.
#[derive(Clone, Debug)]
pub struct HeatmapCoordinate {
    pub latitude: String,
    pub longitude: String,
    pub frequency: String,
}

impl HeatmapCoordinate {
    pub fn new(latitude: String, longitude: String, frequency: String) -> (r: HeatmapCoordinate)
        ensures
            r.latitude == latitude,
            r.longitude == longitude,
            r.frequency == frequency,
    {
        HeatmapCoordinate { latitude, longitude, frequency }
    }

    /// The entry as text: key components with five decimals, the frequency
    /// in decimal.
    pub fn from_entry(entry: &HeatmapEntry) -> (r: HeatmapCoordinate)
        ensures
            r.latitude@ == fixed_point_text_of(entry.latitude as int, 5),
            r.longitude@ == fixed_point_text_of(entry.longitude as int, 5),
            r.frequency@ == digits_of(entry.frequency as nat),
    {
        HeatmapCoordinate {
            latitude: fixed_point_text(entry.latitude, 5),
            longitude: fixed_point_text(entry.longitude, 5),
            frequency: unsigned_text(entry.frequency),
        }
    }
}

} // verus!

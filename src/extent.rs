use vstd::prelude::*;

use crate::geo::BoundingBox;
use crate::model::{Coordinate, TrackFile, TrackInformation, TrackPoint};

verus! {

/// Why no extent could be computed for a track.
#[derive(Clone, Copy, Debug, PartialEq, Eq, Structural)]
pub enum TrackError {
    /// The track holds no point.
    NoValidPoints,
    /// The first point's timestamp is not an RFC 3339 date.
    InvalidDate,
}

/// `b` is the minimal rectangle covering `points`: every point lies inside it,
/// and each of its four sides is reached by some point.
pub open spec fn is_bounds_of(points: Seq<TrackPoint>, b: BoundingBox) -> bool {
    &&& forall|i: int|
        0 <= i < points.len() ==> {
            &&& b.south() <= (#[trigger] points[i]).latitude <= b.north()
            &&& b.west() <= points[i].longitude <= b.east()
        }
    &&& exists|i: int| 0 <= i < points.len() && points[i].latitude == b.north()
    &&& exists|i: int| 0 <= i < points.len() && points[i].latitude == b.south()
    &&& exists|i: int| 0 <= i < points.len() && points[i].longitude == b.west()
    &&& exists|i: int| 0 <= i < points.len() && points[i].longitude == b.east()
}

/// What an RFC 3339 timestamp reads as once parsed and written back in
/// canonical form; `None` where it does not parse.
pub uninterp spec fn rfc3339_canonical(s: Seq<char>) -> Option<Seq<char>>;

/// Relies on chrono's `DateTime::parse_from_rfc3339` to accept or reject the
/// text, and `DateTime::to_rfc3339` to write the parsed value back; the result
/// depends on the text alone.
#[verifier::external_body]
fn canonical_rfc3339(s: &str) -> (r: Option<String>)
    ensures
        match r {
            Some(d) => rfc3339_canonical(s@) == Some(d@),
            None => rfc3339_canonical(s@) is None,
        },
{
    match chrono::DateTime::parse_from_rfc3339(s) {
        Ok(d) => Some(d.to_rfc3339()),
        Err(_) => None,
    }
}

/// Minimal bounding rectangle of `points`, `None` when there is none.
///
/// Each of the four sides starts unset, is set from the first point, and is
/// then moved only by a strictly larger or smaller value on its own axis.
pub fn compute_bounds(points: &Vec<TrackPoint>) -> (r: Option<BoundingBox>)
    ensures
        r is None <==> points@.len() == 0,
        r matches Some(b) ==> is_bounds_of(points@, b) && b.well_formed(),
{
    let mut north: Option<i64> = None;
    let mut south: Option<i64> = None;
    let mut west: Option<i64> = None;
    let mut east: Option<i64> = None;
    let n = points.len();
    let mut i: usize = 0;
    while i < n
        invariant
            n == points@.len(),
            i <= n,
            i == 0 ==> north is None && south is None && west is None && east is None,
            i > 0 ==> north is Some && south is Some && west is Some && east is Some,
            north matches Some(v) ==> {
                &&& forall|j: int| 0 <= j < i ==> #[trigger] points@[j].latitude <= v
                &&& exists|j: int| 0 <= j < i && points@[j].latitude == v
            },
            south matches Some(v) ==> {
                &&& forall|j: int| 0 <= j < i ==> #[trigger] points@[j].latitude >= v
                &&& exists|j: int| 0 <= j < i && points@[j].latitude == v
            },
            west matches Some(v) ==> {
                &&& forall|j: int| 0 <= j < i ==> #[trigger] points@[j].longitude >= v
                &&& exists|j: int| 0 <= j < i && points@[j].longitude == v
            },
            east matches Some(v) ==> {
                &&& forall|j: int| 0 <= j < i ==> #[trigger] points@[j].longitude <= v
                &&& exists|j: int| 0 <= j < i && points@[j].longitude == v
            },
        decreases n - i,
    {
        let lat = points[i].latitude;
        let lon = points[i].longitude;
        match north {
            Some(v) => {
                if lat > v {
                    north = Some(lat);
                }
            },
            None => {
                north = Some(lat);
            },
        }
        match south {
            Some(v) => {
                if lat < v {
                    south = Some(lat);
                }
            },
            None => {
                south = Some(lat);
            },
        }
        match west {
            Some(v) => {
                if lon < v {
                    west = Some(lon);
                }
            },
            None => {
                west = Some(lon);
            },
        }
        match east {
            Some(v) => {
                if lon > v {
                    east = Some(lon);
                }
            },
            None => {
                east = Some(lon);
            },
        }
        i = i + 1;
    }
    match (north, south, west, east) {
        (Some(n), Some(s), Some(w), Some(e)) => {
            let b = BoundingBox {
                north_west_latitude: n,
                north_west_longitude: w,
                south_east_latitude: s,
                south_east_longitude: e,
            };
            assert(points@[0].latitude <= n && points@[0].latitude >= s);
            assert(points@[0].longitude >= w && points@[0].longitude <= e);
            Some(b)
        },
        _ => None,
    }
}

/// The extent record of a track from its points, the canonical form of its
/// first timestamp (`None` where that did not parse) and its activity type.
pub fn track_information_from(
    points: &Vec<TrackPoint>,
    canonical_date: Option<String>,
    activity_type: &str,
) -> (r: Result<TrackInformation, TrackError>)
    ensures
        points@.len() == 0 ==> r == Err::<TrackInformation, TrackError>(TrackError::NoValidPoints),
        points@.len() > 0 && canonical_date is None ==> r == Err::<TrackInformation, TrackError>(
            TrackError::InvalidDate,
        ),
        points@.len() > 0 && canonical_date is Some ==> (r matches Ok(info) && {
            &&& is_bounds_of(points@, info.spec_bounds())
            &&& info.spec_bounds().well_formed()
            &&& info.date@ == canonical_date->0@
            &&& info.activity_type@ == activity_type@
        }),
{
    match compute_bounds(points) {
        None => Err(TrackError::NoValidPoints),
        Some(b) => match canonical_date {
            None => Err(TrackError::InvalidDate),
            Some(date) => Ok(
                TrackInformation::new(
                    b.north_west_latitude,
                    b.north_west_longitude,
                    b.south_east_latitude,
                    b.south_east_longitude,
                    date,
                    activity_type.to_string(),
                ),
            ),
        },
    }
}

/// The extent record of a track file; its date is the first point's
/// timestamp in canonical RFC 3339 form.
pub fn extract_track_information(track_file: &TrackFile) -> (r: Result<
    TrackInformation,
    TrackError,
>)
    ensures
        track_file.track_points@.len() == 0 ==> r == Err::<TrackInformation, TrackError>(
            TrackError::NoValidPoints,
        ),
        track_file.track_points@.len() > 0 ==> {
            let date = rfc3339_canonical(track_file.track_points@[0].time@);
            match date {
                None => r == Err::<TrackInformation, TrackError>(TrackError::InvalidDate),
                Some(d) => (r matches Ok(info) && {
                    &&& is_bounds_of(track_file.track_points@, info.spec_bounds())
                    &&& info.spec_bounds().well_formed()
                    &&& info.date@ == d
                    &&& info.activity_type@ == track_file.activity_type@
                }),
            }
        },
{
    if track_file.track_points.len() == 0 {
        return Err(TrackError::NoValidPoints);
    }
    let date = canonical_rfc3339(track_file.track_points[0].time.as_str());
    track_information_from(&track_file.track_points, date, track_file.activity_type.as_str())
}

/// The positions of `points`, in order.
pub open spec fn coordinates_of(points: Seq<TrackPoint>) -> Seq<Coordinate> {
    points.map_values(|p: TrackPoint| Coordinate { latitude: p.latitude, longitude: p.longitude })
}

/// The positions of a track file's points, in order.
pub fn extract_track_coordinates(track_file: &TrackFile) -> (r: Vec<Coordinate>)
    ensures
        r@ == coordinates_of(track_file.track_points@),
{
    let mut coordinates: Vec<Coordinate> = Vec::new();
    let n = track_file.track_points.len();
    let mut i: usize = 0;
    while i < n
        invariant
            n == track_file.track_points@.len(),
            i <= n,
            coordinates@.len() == i,
            forall|j: int|
                0 <= j < i ==> #[trigger] coordinates@[j] == (Coordinate {
                    latitude: track_file.track_points@[j].latitude,
                    longitude: track_file.track_points@[j].longitude,
                }),
        decreases n - i,
    {
        let p = &track_file.track_points[i];
        coordinates.push(Coordinate::new(p.latitude, p.longitude));
        i = i + 1;
    }
    assert(coordinates@ =~= coordinates_of(track_file.track_points@));
    coordinates
}

/// The bounding rectangle depends only on which points a track holds, not on
/// their order: two sequences holding the same points have the same extent,
/// with the largest latitude as north, the smallest as south, the smallest
/// longitude as west and the largest as east.
pub proof fn lemma_bounds_of_same_points(
    p: Seq<TrackPoint>,
    q: Seq<TrackPoint>,
    a: BoundingBox,
    b: BoundingBox,
)
    requires
        forall|x: TrackPoint| p.contains(x) <==> q.contains(x),
        is_bounds_of(p, a),
        is_bounds_of(q, b),
    ensures
        a == b,
{
    let i1 = choose|i: int| 0 <= i < p.len() && p[i].latitude == a.north();
    let i2 = choose|i: int| 0 <= i < p.len() && p[i].latitude == a.south();
    let i3 = choose|i: int| 0 <= i < p.len() && p[i].longitude == a.west();
    let i4 = choose|i: int| 0 <= i < p.len() && p[i].longitude == a.east();
    let j1 = choose|i: int| 0 <= i < q.len() && q[i].latitude == b.north();
    let j2 = choose|i: int| 0 <= i < q.len() && q[i].latitude == b.south();
    let j3 = choose|i: int| 0 <= i < q.len() && q[i].longitude == b.west();
    let j4 = choose|i: int| 0 <= i < q.len() && q[i].longitude == b.east();
    assert(p.contains(p[i1]) && p.contains(p[i2]) && p.contains(p[i3]) && p.contains(p[i4]));
    assert(q.contains(q[j1]) && q.contains(q[j2]) && q.contains(q[j3]) && q.contains(q[j4]));
    let k1 = choose|k: int| 0 <= k < q.len() && q[k] == p[i1];
    let k2 = choose|k: int| 0 <= k < q.len() && q[k] == p[i2];
    let k3 = choose|k: int| 0 <= k < q.len() && q[k] == p[i3];
    let k4 = choose|k: int| 0 <= k < q.len() && q[k] == p[i4];
    let l1 = choose|k: int| 0 <= k < p.len() && p[k] == q[j1];
    let l2 = choose|k: int| 0 <= k < p.len() && p[k] == q[j2];
    let l3 = choose|k: int| 0 <= k < p.len() && p[k] == q[j3];
    let l4 = choose|k: int| 0 <= k < p.len() && p[k] == q[j4];
    assert(q[k1].latitude <= b.north());
    assert(p[l1].latitude <= a.north());
    assert(q[k2].latitude >= b.south());
    assert(p[l2].latitude >= a.south());
    assert(q[k3].longitude >= b.west());
    assert(p[l3].longitude >= a.west());
    assert(q[k4].longitude <= b.east());
    assert(p[l4].longitude <= a.east());
}

} // verus!

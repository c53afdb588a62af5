use vstd::prelude::*;

verus! {

/// An axis-aligned rectangle in the north-west / south-east convention.
///
/// The north-west corner holds the largest latitude and the smallest longitude;
/// the south-east corner holds the smallest latitude and the largest longitude.
/// Each value is in units of `10^-7` degrees.
#[derive(Clone, Copy, Debug, PartialEq, Eq, Structural)]
pub struct BoundingBox {
    pub north_west_latitude: i64,
    pub north_west_longitude: i64,
    pub south_east_latitude: i64,
    pub south_east_longitude: i64,
}

impl BoundingBox {
    pub open spec fn north(self) -> int {
        self.north_west_latitude as int
    }

    pub open spec fn south(self) -> int {
        self.south_east_latitude as int
    }

    pub open spec fn west(self) -> int {
        self.north_west_longitude as int
    }

    pub open spec fn east(self) -> int {
        self.south_east_longitude as int
    }

    /// The corners are not inverted: north is not below south, west not beyond east.
    pub open spec fn well_formed(self) -> bool {
        self.south() <= self.north() && self.west() <= self.east()
    }

    pub fn new(
        north_west_latitude: i64,
        north_west_longitude: i64,
        south_east_latitude: i64,
        south_east_longitude: i64,
    ) -> (r: BoundingBox)
        ensures
            r.north_west_latitude == north_west_latitude,
            r.north_west_longitude == north_west_longitude,
            r.south_east_latitude == south_east_latitude,
            r.south_east_longitude == south_east_longitude,
    {
        BoundingBox {
            north_west_latitude,
            north_west_longitude,
            south_east_latitude,
            south_east_longitude,
        }
    }
}

pub open spec fn max_int(a: int, b: int) -> int {
    if a >= b { a } else { b }
}

pub open spec fn min_int(a: int, b: int) -> int {
    if a <= b { a } else { b }
}

/// Two rectangles overlap when their latitude ranges and their longitude ranges
/// both intersect. Shared edges and corners count as overlap.
pub open spec fn spec_overlaps(a: BoundingBox, b: BoundingBox) -> bool {
    &&& max_int(a.south(), b.south()) <= min_int(a.north(), b.north())
    &&& max_int(a.west(), b.west()) <= min_int(a.east(), b.east())
}

/// Inclusive axis-aligned intersection test, used for track extents.
pub fn overlaps(a: &BoundingBox, b: &BoundingBox) -> (r: bool)
    ensures
        r == spec_overlaps(*a, *b),
{
    let south = if a.south_east_latitude >= b.south_east_latitude {
        a.south_east_latitude
    } else {
        b.south_east_latitude
    };
    let north = if a.north_west_latitude <= b.north_west_latitude {
        a.north_west_latitude
    } else {
        b.north_west_latitude
    };
    let west = if a.north_west_longitude >= b.north_west_longitude {
        a.north_west_longitude
    } else {
        b.north_west_longitude
    };
    let east = if a.south_east_longitude <= b.south_east_longitude {
        a.south_east_longitude
    } else {
        b.south_east_longitude
    };
    south <= north && west <= east
}

/// Overlap does not depend on the order of its arguments.
pub proof fn lemma_overlaps_symmetric(a: BoundingBox, b: BoundingBox)
    ensures
        spec_overlaps(a, b) == spec_overlaps(b, a),
{
}

} // verus!

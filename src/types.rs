//! Value types shared by the whole library.

use vstd::prelude::*;

verus! {

/// Mean Earth radius (WGS84) in nanometers.
pub const EARTH_RADIUS_NANOMETERS: u128 = 6_371_008_800_000_000;

/// Latitude bounds in nanodegrees.
pub const MIN_LAT_NDEG: i64 = -90_000_000_000;
pub const MAX_LAT_NDEG: i64 = 90_000_000_000;

/// Longitude bounds in nanodegrees.
pub const MIN_LON_NDEG: i64 = -180_000_000_000;
pub const MAX_LON_NDEG: i64 = 180_000_000_000;

/// A geographic position; `lat` and `lon` are in nanodegrees.
#[derive(Debug, Clone, Copy, PartialEq, Eq, Structural)]
pub struct Point {
    pub lat: i64,
    pub lon: i64,
}

pub open spec fn lat_in_range(lat: int) -> bool {
    MIN_LAT_NDEG <= lat <= MAX_LAT_NDEG
}

pub open spec fn lon_in_range(lon: int) -> bool {
    MIN_LON_NDEG <= lon <= MAX_LON_NDEG
}

impl Point {
    /// A point is valid when both coordinates lie within their ranges.
    pub open spec fn valid(self) -> bool {
        lat_in_range(self.lat as int) && lon_in_range(self.lon as int)
    }

    /// Build a validated point from nanodegrees.
    pub fn new(lat: i64, lon: i64) -> (r: Result<Point, GeodistError>)
        ensures
            r == validated(Point { lat, lon }),
    {
        let p = Point { lat, lon };
        match p.validate() {
            Ok(()) => Ok(p),
            Err(e) => Err(e),
        }
    }

    /// Check both coordinates, latitude first.
    pub fn validate(&self) -> (r: Result<(), GeodistError>)
        ensures
            r == check_point(*self),
    {
        if self.lat < MIN_LAT_NDEG || self.lat > MAX_LAT_NDEG {
            return Err(GeodistError::InvalidLatitude(self.lat));
        }
        if self.lon < MIN_LON_NDEG || self.lon > MAX_LON_NDEG {
            return Err(GeodistError::InvalidLongitude(self.lon));
        }
        Ok(())
    }
}

/// The outcome of validating a point: the first offending axis, latitude first.
pub open spec fn check_point(p: Point) -> Result<(), GeodistError> {
    if !lat_in_range(p.lat as int) {
        Err(GeodistError::InvalidLatitude(p.lat))
    } else if !lon_in_range(p.lon as int) {
        Err(GeodistError::InvalidLongitude(p.lon))
    } else {
        Ok(())
    }
}

pub open spec fn validated(p: Point) -> Result<Point, GeodistError> {
    match check_point(p) {
        Ok(_) => Ok(p),
        Err(e) => Err(e),
    }
}

/// A non-negative distance in nanometers.
#[derive(Debug, Clone, Copy, PartialEq, Eq, Structural)]
pub struct Distance {
    nanometers: u64,
}

impl Distance {
    pub closed spec fn view_nm(self) -> nat {
        self.nanometers as nat
    }

    pub fn from_nanometers(nanometers: u64) -> (r: Distance)
        ensures
            r.view_nm() == nanometers,
    {
        Distance { nanometers }
    }

    pub fn nanometers(&self) -> (r: u64)
        ensures
            r == self.view_nm(),
    {
        self.nanometers
    }
}

/// Which coordinate of a vertex failed validation, with its value.
#[derive(Debug, Clone, Copy, PartialEq, Eq, Structural)]
pub enum VertexValidationError {
    Latitude(i64),
    Longitude(i64),
}

/// Winding direction of a polygon ring.
#[derive(Debug, Clone, Copy, PartialEq, Eq, Structural)]
pub enum RingOrientation {
    Clockwise,
    CounterClockwise,
}

/// Every failure the library reports.
#[derive(Debug, Clone, Copy, PartialEq, Eq, Structural)]
pub enum GeodistError {
    InvalidLatitude(i64),
    InvalidLongitude(i64),
    InvalidVertex { part_index: Option<usize>, vertex_index: usize, error: VertexValidationError },
    DegeneratePolyline { part_index: Option<usize> },
    MissingDensificationKnob,
    SampleCapExceeded { expected: usize, cap: usize, part_index: Option<usize> },
    EmptyPointSet,
    InvalidBoundingBox { min_lat: i64, max_lat: i64, min_lon: i64, max_lon: i64 },
}

/// An inclusive latitude/longitude box in nanodegrees.
#[derive(Debug, Clone, Copy, PartialEq, Eq, Structural)]
pub struct BoundingBox {
    pub min_lat: i64,
    pub max_lat: i64,
    pub min_lon: i64,
    pub max_lon: i64,
}

impl BoundingBox {
    pub open spec fn well_formed(self) -> bool {
        lat_in_range(self.min_lat as int) && lat_in_range(self.max_lat as int)
            && lon_in_range(self.min_lon as int) && lon_in_range(self.max_lon as int)
            && self.min_lat <= self.max_lat && self.min_lon <= self.max_lon
    }

    /// Build a box from `(min_lat, max_lat, min_lon, max_lon)`; rejects an
    /// inverted or out-of-range box.
    pub fn new(min_lat: i64, max_lat: i64, min_lon: i64, max_lon: i64) -> (r: Result<
        BoundingBox,
        GeodistError,
    >)
        ensures
            ({
                let b = BoundingBox { min_lat, max_lat, min_lon, max_lon };
                &&& b.well_formed() ==> r == Ok::<BoundingBox, GeodistError>(b)
                &&& !b.well_formed() ==> r == Err::<BoundingBox, GeodistError>(
                    GeodistError::InvalidBoundingBox { min_lat, max_lat, min_lon, max_lon },
                )
            }),
    {
        let b = BoundingBox { min_lat, max_lat, min_lon, max_lon };
        if min_lat < MIN_LAT_NDEG || min_lat > MAX_LAT_NDEG || max_lat < MIN_LAT_NDEG
            || max_lat > MAX_LAT_NDEG || min_lon < MIN_LON_NDEG || min_lon > MAX_LON_NDEG
            || max_lon < MIN_LON_NDEG || max_lon > MAX_LON_NDEG || min_lat > max_lat
            || min_lon > max_lon {
            return Err(GeodistError::InvalidBoundingBox { min_lat, max_lat, min_lon, max_lon });
        }
        Ok(b)
    }

    pub open spec fn holds(self, p: Point) -> bool {
        self.min_lat <= p.lat <= self.max_lat && self.min_lon <= p.lon <= self.max_lon
    }

    /// Inclusive containment test.
    pub fn contains(&self, p: &Point) -> (r: bool)
        ensures
            r == self.holds(*p),
    {
        self.min_lat <= p.lat && p.lat <= self.max_lat && self.min_lon <= p.lon && p.lon
            <= self.max_lon
    }
}

} // verus!

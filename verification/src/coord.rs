use vstd::prelude::*;

verus! {

/// Largest legal latitude, in nanodegrees (90°).
pub const LAT_LIMIT: i64 = 90_000_000_000;

/// Largest legal longitude, in nanodegrees (180°).
pub const LON_LIMIT: i64 = 180_000_000_000;

/// Error returned when a latitude or longitude lies outside its range.
#[derive(Debug, Clone, Copy, PartialEq, Eq)]
pub struct InvalidCoordinate;

/// A geodetic coordinate pair, both angles in nanodegrees (10⁻⁹ degree).
#[derive(Debug, Clone, Copy, PartialEq, Eq)]
pub struct Coord {
    /// Latitude in nanodegrees, in `[-90°, 90°]`.
    pub lat: i64,
    /// Longitude in nanodegrees, in `[-180°, 180°]`.
    pub lon: i64,
}

impl Coord {
    /// Both fields lie within their documented ranges.
    pub open spec fn wf(self) -> bool {
        &&& -LAT_LIMIT <= self.lat <= LAT_LIMIT
        &&& -LON_LIMIT <= self.lon <= LON_LIMIT
    }

    /// Fail-fast constructor: a latitude outside `[-90°, 90°]` or a
    /// longitude outside `[-180°, 180°]` is rejected, never reduced.
    pub fn new(lat: i64, lon: i64) -> (r: Result<Coord, InvalidCoordinate>)
        ensures
            r == if -LAT_LIMIT <= lat <= LAT_LIMIT && -LON_LIMIT <= lon <= LON_LIMIT {
                Ok::<Coord, InvalidCoordinate>(Coord { lat, lon })
            } else {
                Err::<Coord, InvalidCoordinate>(InvalidCoordinate)
            },
            r is Ok ==> r->Ok_0.wf(),
    {
        if -LAT_LIMIT <= lat && lat <= LAT_LIMIT && -LON_LIMIT <= lon && lon <= LON_LIMIT {
            Ok(Coord { lat, lon })
        } else {
            Err(InvalidCoordinate)
        }
    }
}

} // verus!

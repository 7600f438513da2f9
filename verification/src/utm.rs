use crate::coord::Coord;
use vstd::prelude::*;

verus! {

/// A Universal Transverse Mercator coordinate.
///
/// Easting and northing are carried in micrometers (10⁻⁶ meter), the
/// resolution at which the MGRS grid codec works, so that every grid
/// computation on them is exact.
#[derive(Debug, Clone, Copy, PartialEq, Eq)]
pub struct Utm {
    /// Easting from the zone's false origin, in micrometers.
    pub easting: u64,
    /// Northing from the hemisphere's false origin, in micrometers.
    pub northing: u64,
    /// True on and north of the equator.
    pub north: bool,
    /// Zone number, `1..=60`; `0` marks the polar case.
    pub zone: i32,
    /// Latitude band letter, `C..=X` without `I` and `O`.
    pub band: char,
    /// True outside the UTM latitude range (polar caps).
    pub ups: bool,
}

impl Utm {
    /// Plain field constructor, no validation beyond the types.
    pub fn new(easting: u64, northing: u64, north: bool, zone: i32, band: char, ups: bool) -> (r:
        Utm)
        ensures
            r == (Utm { easting, northing, north, zone, band, ups }),
    {
        Utm { easting, northing, north, zone, band, ups }
    }
}

/// Latitude band letter of a latitude in nanodegrees: twenty 8°-wide bands
/// `C..=X` (skipping `I` and `O`) from -80° northward, the top band `X`
/// stretched to cover up to 84°.
pub open spec fn spec_lat_band(lat: int) -> char {
    if lat < -72_000_000_000 {
        'C'
    } else if lat < -64_000_000_000 {
        'D'
    } else if lat < -56_000_000_000 {
        'E'
    } else if lat < -48_000_000_000 {
        'F'
    } else if lat < -40_000_000_000 {
        'G'
    } else if lat < -32_000_000_000 {
        'H'
    } else if lat < -24_000_000_000 {
        'J'
    } else if lat < -16_000_000_000 {
        'K'
    } else if lat < -8_000_000_000 {
        'L'
    } else if lat < 0 {
        'M'
    } else if lat < 8_000_000_000 {
        'N'
    } else if lat < 16_000_000_000 {
        'P'
    } else if lat < 24_000_000_000 {
        'Q'
    } else if lat < 32_000_000_000 {
        'R'
    } else if lat < 40_000_000_000 {
        'S'
    } else if lat < 48_000_000_000 {
        'T'
    } else if lat < 56_000_000_000 {
        'U'
    } else if lat < 64_000_000_000 {
        'V'
    } else if lat < 72_000_000_000 {
        'W'
    } else {
        'X'
    }
}

/// A longitude of exactly 180° belongs to the first zone, so it is reduced
/// to -180°; every other in-range longitude stands as it is.
pub open spec fn spec_norm_lon(lon: int) -> int {
    if lon == 180_000_000_000 {
        -180_000_000_000
    } else {
        lon
    }
}

/// True outside the UTM latitude range `[-80°, 84°)`, where UTM gives way
/// to the polar (UPS) system.
pub open spec fn spec_is_ups(lat: int) -> bool {
    lat < -80_000_000_000 || lat >= 84_000_000_000
}

/// UTM zone of a non-polar coordinate in nanodegrees: the regular 6°-wide
/// zone `floor((lon + 186°) / 6°)`, with the Norway exception (band `V`,
/// zone 31, `lon >= 3°` forces zone 32) and the Svalbard exception (band
/// `X`, `lon ∈ [0°, 42°)` uses the doubled 12°-wide zones 31/33/35/37).
pub open spec fn spec_utm_zone(lat: int, lon: int) -> int {
    let ilon = spec_norm_lon(lon);
    let z = (ilon + 186_000_000_000) / 6_000_000_000;
    if 56_000_000_000 <= lat < 64_000_000_000 && z == 31 && ilon >= 3_000_000_000 {
        32
    } else if 72_000_000_000 <= lat < 84_000_000_000 && 0 <= ilon < 42_000_000_000 {
        2 * ((ilon + 183_000_000_000) / 12_000_000_000) + 1
    } else {
        z
    }
}

/// Latitude band letter of a latitude in nanodegrees.
pub fn lat_band(lat: i64) -> (c: char)
    ensures
        c == spec_lat_band(lat as int),
{
    if lat < -72_000_000_000 {
        'C'
    } else if lat < -64_000_000_000 {
        'D'
    } else if lat < -56_000_000_000 {
        'E'
    } else if lat < -48_000_000_000 {
        'F'
    } else if lat < -40_000_000_000 {
        'G'
    } else if lat < -32_000_000_000 {
        'H'
    } else if lat < -24_000_000_000 {
        'J'
    } else if lat < -16_000_000_000 {
        'K'
    } else if lat < -8_000_000_000 {
        'L'
    } else if lat < 0 {
        'M'
    } else if lat < 8_000_000_000 {
        'N'
    } else if lat < 16_000_000_000 {
        'P'
    } else if lat < 24_000_000_000 {
        'Q'
    } else if lat < 32_000_000_000 {
        'R'
    } else if lat < 40_000_000_000 {
        'S'
    } else if lat < 48_000_000_000 {
        'T'
    } else if lat < 56_000_000_000 {
        'U'
    } else if lat < 64_000_000_000 {
        'V'
    } else if lat < 72_000_000_000 {
        'W'
    } else {
        'X'
    }
}

/// Zone number, band letter, hemisphere flag and polar flag of a
/// coordinate, as the forward projection classifies them.  In the polar
/// case the zone is 0 and no transverse Mercator zone applies.
pub fn utm_zone_band(coord: &Coord) -> (r: (i32, char, bool, bool))
    requires
        coord.wf(),
    ensures
        r.0 as int == if spec_is_ups(coord.lat as int) {
            0int
        } else {
            spec_utm_zone(coord.lat as int, coord.lon as int)
        },
        r.1 == spec_lat_band(coord.lat as int),
        r.2 == (coord.lat >= 0),
        r.3 == spec_is_ups(coord.lat as int),
        !spec_is_ups(coord.lat as int) ==> 1 <= r.0 <= 60,
{
    let band: char = lat_band(coord.lat);
    let north: bool = coord.lat >= 0;
    let ups: bool = coord.lat < -80_000_000_000 || coord.lat >= 84_000_000_000;
    let zone: i32 = if ups {
        0
    } else {
        let ilon: i64 = if coord.lon == 180_000_000_000 {
            -180_000_000_000
        } else {
            coord.lon
        };
        let z: i32 = (((ilon + 186_000_000_000) as u64) / 6_000_000_000) as i32;
        if 56_000_000_000 <= coord.lat && coord.lat < 64_000_000_000 && z == 31 && ilon
            >= 3_000_000_000 {
            32
        } else if 72_000_000_000 <= coord.lat && coord.lat < 84_000_000_000 && 0 <= ilon && ilon
            < 42_000_000_000 {
            2 * ((((ilon + 183_000_000_000) as u64) / 12_000_000_000) as i32) + 1
        } else {
            z
        }
    };
    (zone, band, north, ups)
}

} // verus!

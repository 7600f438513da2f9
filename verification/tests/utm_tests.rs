use geomorph::coord::Coord;
use geomorph::utm::{lat_band, utm_zone_band, Utm};

#[test]
fn instantiate() {
    let easting: u64 = 298_559_280_454;
    let northing: u64 = 1_774_394_828_647;
    let north: bool = true;
    let zone: i32 = 48;
    let band: char = 'N';
    let ups: bool = false;
    let utm = Utm::new(easting, northing, north, zone, band, ups);
    assert_eq!(utm.easting, easting);
    assert_eq!(utm.northing, northing);
    assert_eq!(utm.north, north);
    assert_eq!(utm.zone, zone);
    assert_eq!(utm.band, band);
}

#[test]
fn utm_clone() {
    let easting: u64 = 298_559_280_454;
    let northing: u64 = 1_774_394_828_647;
    let north: bool = true;
    let zone: i32 = 48;
    let band: char = 'N';
    let ups: bool = false;
    let mut utm_base = Utm::new(easting, northing, north, zone, band, ups);
    let utm = utm_base.clone();
    utm_base.easting = 0;
    assert_eq!(utm.easting, easting);
    assert_eq!(utm.northing, northing);
    assert_eq!(utm.north, north);
    assert_eq!(utm.zone, zone);
    assert_eq!(utm.band, band);
}

#[test]
fn utm_zone_south() {
    let coord = Coord::new(-23_009_583_900, -43_436_181_600).unwrap();
    let (zone, band, north, ups) = utm_zone_band(&coord);
    assert_eq!(zone, 23);
    assert_eq!(band, 'K');
    assert_eq!(north, false);
    assert_eq!(ups, false);
}

#[test]
fn utm_zone_north() {
    let coord = Coord::new(52_517_153_000, 13_412_389_000).unwrap();
    let (zone, band, north, ups) = utm_zone_band(&coord);
    assert_eq!(zone, 33);
    assert_eq!(band, 'U');
    assert_eq!(north, true);
    assert_eq!(ups, false);
}

#[test]
fn utm_norway_zone() {
    let coord = Coord::new(61_076_521_000, 4_680_180_000).unwrap();
    let (zone, band, north, _) = utm_zone_band(&coord);
    assert_eq!(zone, 32);
    assert_eq!(band, 'V');
    assert_eq!(north, true);
}

#[test]
fn utm_norway_zone_west_stays_31() {
    // Below 3° east the Norway exception does not apply.
    let coord = Coord::new(61_000_000_000, 2_500_000_000).unwrap();
    let (zone, band, _, _) = utm_zone_band(&coord);
    assert_eq!(zone, 31);
    assert_eq!(band, 'V');
}

#[test]
fn utm_svalbard_zone_1() {
    let coord = Coord::new(78_891_608_000, 10_457_194_000).unwrap();
    let (zone, band, north, _) = utm_zone_band(&coord);
    assert_eq!(zone, 33);
    assert_eq!(band, 'X');
    assert_eq!(north, true);
}

#[test]
fn utm_svalbard_zone_2() {
    let coord = Coord::new(78_122_200_000, 20_349_504_000).unwrap();
    let (zone, band, _, _) = utm_zone_band(&coord);
    assert_eq!(zone, 33);
    assert_eq!(band, 'X');
}

#[test]
fn utm_svalbard_zone_3() {
    let coord = Coord::new(78_102_575_000, 21_013_745_000).unwrap();
    let (zone, band, _, _) = utm_zone_band(&coord);
    assert_eq!(zone, 35);
    assert_eq!(band, 'X');
}

#[test]
fn utm_svalbard_zone_4() {
    let coord = Coord::new(78_138_264_000, 30_194_746_000).unwrap();
    let (zone, band, _, _) = utm_zone_band(&coord);
    assert_eq!(zone, 35);
    assert_eq!(band, 'X');
}

#[test]
fn coords_borrow() {
    let lat: i64 = -34_073_088_000;
    let lon: i64 = 18_549_757_000;
    let coord = Coord::new(lat, lon).unwrap();
    let (zone, band, north, _) = utm_zone_band(&coord);
    assert_eq!(zone, 34);
    assert_eq!(band, 'H');
    assert_eq!(north, false);
    assert_eq!(coord.lat, lat);
    assert_eq!(coord.lon, lon);
}

#[test]
fn polar_latitudes_are_ups() {
    let coord = Coord::new(-80_000_000_001, 0).unwrap();
    let (zone, _, north, ups) = utm_zone_band(&coord);
    assert_eq!(ups, true);
    assert_eq!(zone, 0);
    assert_eq!(north, false);

    let coord = Coord::new(84_000_000_000, 0).unwrap();
    let (zone, band, _, ups) = utm_zone_band(&coord);
    assert_eq!(ups, true);
    assert_eq!(zone, 0);
    assert_eq!(band, 'X');
}

#[test]
fn lat_band_boundaries() {
    assert_eq!(lat_band(-80_000_000_000), 'C');
    assert_eq!(lat_band(-72_000_000_000), 'D');
    assert_eq!(lat_band(-1), 'M');
    assert_eq!(lat_band(0), 'N');
    assert_eq!(lat_band(8_000_000_000), 'P');
    assert_eq!(lat_band(71_999_999_999), 'W');
    assert_eq!(lat_band(72_000_000_000), 'X');
    assert_eq!(lat_band(83_999_999_999), 'X');
}

#[test]
fn longitude_180_wraps_to_zone_1() {
    let coord = Coord::new(0, 180_000_000_000).unwrap();
    let (zone, _, _, _) = utm_zone_band(&coord);
    assert_eq!(zone, 1);
}

use geomorph::coord::{Coord, InvalidCoordinate};

#[test]
fn instantiate_coord() {
    let lat: i64 = -23_009_583_900;
    let lon: i64 = -43_436_181_600;
    let coord = Coord::new(lat, lon).unwrap();
    assert_eq!(coord.lat, lat);
    assert_eq!(coord.lon, lon);
}

#[test]
fn coord_clone() {
    let lat: i64 = 75_110_530_000;
    let lon: i64 = 72_393_910_000;
    let mut coord_base = Coord::new(lat, lon).unwrap();
    let coord = coord_base.clone();
    coord_base.lat = 0;
    assert_eq!(coord.lat, lat);
    assert_eq!(coord.lon, lon);
}

#[test]
fn coord_rejects_out_of_range() {
    assert_eq!(Coord::new(90_000_000_001, 0), Err(InvalidCoordinate));
    assert_eq!(Coord::new(-90_000_000_001, 0), Err(InvalidCoordinate));
    assert_eq!(Coord::new(0, 180_000_000_001), Err(InvalidCoordinate));
    assert_eq!(Coord::new(0, -180_000_000_001), Err(InvalidCoordinate));
    assert!(Coord::new(90_000_000_000, 180_000_000_000).is_ok());
    assert!(Coord::new(-90_000_000_000, -180_000_000_000).is_ok());
}

use geomorph::mgrs::{
    from_string, get_100k_set_for_zone, get_easting_from_char, get_min_northing,
    get_northing_from_char, split_first_char, FromStringError, Mgrs,
};
use geomorph::utm::Utm;

#[test]
fn instantiate_mgrs() {
    let utm = Utm::new(660_265_400_000, 7_454_564_200_000, false, 23, 'K', false);
    let mgrs = Mgrs::new(utm);
    assert_eq!(mgrs.utm.easting / 1_000_000, 660_265);
    assert_eq!(mgrs.utm.northing / 1_000_000, 7_454_564);
    assert_eq!(mgrs.utm.north, false);
    assert_eq!(mgrs.utm.zone, 23);
    assert_eq!(mgrs.utm.band, 'K');
    assert_eq!(mgrs.prec, 5);
}

#[test]
fn mgrs_clone() {
    let easting: u64 = 660_265_000_000;
    let northing: u64 = 7_454_564_000_000;
    let north = false;
    let zone: i32 = 23;
    let band = 'K';
    let ups = false;
    let utm = Utm::new(easting, northing, north, zone, band, ups);
    let mut mgrs_base = Mgrs::new(utm);
    let mgrs = mgrs_base.clone();
    mgrs_base.utm.easting = 0;
    assert_eq!(mgrs.utm.easting, easting);
    assert_eq!(mgrs.utm.northing, northing);
    assert_eq!(mgrs.utm.north, north);
    assert_eq!(mgrs.utm.zone, zone);
    assert_eq!(mgrs.utm.band, band);
}

#[test]
fn mgrs_to_string_prec6() {
    // The projected position of (13.41250188°, 103.86666901°).
    let utm = Utm::new(377_298_950_000, 1_483_035_050_000, true, 48, 'P', false);
    let mut mgrs = Mgrs::new(utm);
    mgrs.prec = 6;
    assert_eq!(mgrs.to_string(), "48PUV772989830350");
}

#[test]
fn mgrs_to_string_prec5() {
    // The projected position of (-23.00958611°, -43.43618250°).
    let utm = Utm::new(660_264_500_000, 7_454_563_500_000, false, 23, 'K', false);
    let mgrs = Mgrs::new(utm);
    assert_eq!(mgrs.prec, 5);
    assert_eq!(mgrs.to_string(), "23KPQ6026454563");
}

#[test]
fn mgrs_to_string_prec0() {
    let utm = Utm::new(660_264_500_000, 7_454_563_500_000, false, 23, 'K', false);
    let mut mgrs = Mgrs::new(utm);
    mgrs.prec = 0;
    assert_eq!(mgrs.to_string(), "23KPQ");
}

#[test]
fn test_from_string_01() {
    let utm = from_string("48P UV 77298 83034").unwrap();
    assert_eq!(utm.zone, 48);
    assert_eq!(utm.band, 'P');
    assert_eq!(utm.easting / 1_000_000, 377_298);
    assert_eq!(utm.northing / 1_000_000, 1_483_034);
    assert_eq!(utm.north, true);
    assert_eq!(utm.ups, false);
}

#[test]
fn from_string_ignores_any_spaces() {
    let compact = from_string("48PUV7729883034").unwrap();
    let spaced = from_string("  4 8P U V 7729 8 830 34\t").unwrap();
    assert_eq!(compact, spaced);
}

#[test]
fn from_string_southern_hemisphere() {
    let utm = from_string("23KPQ6026454563").unwrap();
    assert_eq!(utm.zone, 23);
    assert_eq!(utm.band, 'K');
    assert_eq!(utm.north, false);
    assert_eq!(utm.easting / 1_000_000, 660_264);
    assert_eq!(utm.northing / 1_000_000, 7_454_563);
}

#[test]
fn from_string_scales_short_digit_runs() {
    // One digit per axis stands for a whole 10 km step inside the tile.
    let utm = from_string("48PUV73").unwrap();
    assert_eq!(utm.easting / 1_000_000, 370_000);
    assert_eq!(utm.northing / 1_000_000, 1_430_000);
}

#[test]
fn from_string_errors_not_enough_input() {
    assert_eq!(from_string(""), Err(FromStringError::NotEnoughInput));
    assert_eq!(from_string("4"), Err(FromStringError::NotEnoughInput));
    assert_eq!(from_string("48P"), Err(FromStringError::NotEnoughInput));
    assert_eq!(from_string("48PU"), Err(FromStringError::NotEnoughInput));
}

#[test]
fn from_string_errors_invalid_zone_digit() {
    assert_eq!(from_string("4x"), Err(FromStringError::InvalidZoneDigit('x')));
    assert_eq!(from_string("x8PUV"), Err(FromStringError::InvalidZoneDigit('x')));
}

#[test]
fn from_string_errors_invalid_band() {
    assert_eq!(
        from_string("48I UV 77298 83034"),
        Err(FromStringError::InvalidZoneLetter('I'))
    );
    assert_eq!(
        from_string("48a UV 77298 83034"),
        Err(FromStringError::InvalidZoneLetter('a'))
    );
}

#[test]
fn from_string_errors_invalid_grid_letter() {
    assert_eq!(
        from_string("48P IV 77298 83034"),
        Err(FromStringError::InvalidGridLetter('I'))
    );
    assert_eq!(
        from_string("48P UO 77298 83034"),
        Err(FromStringError::InvalidGridLetter('O'))
    );
}

#[test]
fn from_string_errors_on_digits() {
    // No digits at all, an odd run, and a bad character per half.
    assert_eq!(from_string("48PUV"), Err(FromStringError::EastingParseError));
    assert_eq!(from_string("48PUV123"), Err(FromStringError::EastingParseError));
    assert_eq!(from_string("48PUV1x34"), Err(FromStringError::EastingParseError));
    assert_eq!(from_string("48PUV12x4"), Err(FromStringError::NorthingParseError));
}

#[test]
fn from_string_rolls_northing_over() {
    // Band X starts at 7,900 km: a low row letter must be lifted by whole
    // 2,000 km periods until it clears that floor.
    let utm = from_string("33XVV0000000000").unwrap();
    assert!(utm.northing / 1_000_000 >= 7_900_000);
}

#[test]
fn encode_decode_round_trip() {
    let utm = Utm::new(660_264_512_345, 7_454_563_598_765, false, 23, 'K', false);
    for prec in 1..=11usize {
        let mut mgrs = Mgrs::new(utm);
        mgrs.prec = prec;
        let text = mgrs.to_string();
        let back = from_string(&text).unwrap();
        assert_eq!(back.zone, utm.zone);
        assert_eq!(back.band, utm.band);
        assert_eq!(back.north, utm.north);
        assert_eq!(back.ups, false);
        let grain: u64 = 10u64.pow(11 - prec as u32);
        assert!(back.easting <= utm.easting && utm.easting < back.easting + grain);
        assert!(back.northing <= utm.northing && utm.northing < back.northing + grain);
    }
}

#[test]
fn test_get_100k_set_for_zone() {
    assert_eq!(get_100k_set_for_zone(1), 1);
    assert_eq!(get_100k_set_for_zone(6), 6);
    assert_eq!(get_100k_set_for_zone(7), 1);
    assert_eq!(get_100k_set_for_zone(48), 6);
    assert_eq!(get_100k_set_for_zone(0), 6);
}

#[test]
fn test_get_easting_from_char() {
    assert_eq!(get_easting_from_char('U', 6), Ok(300_000));
    assert_eq!(get_easting_from_char('S', 6), Ok(100_000));
    assert_eq!(get_easting_from_char('A', 1), Ok(100_000));
    // One step short of the origin wraps once around the 24 letters.
    assert_eq!(get_easting_from_char('R', 6), Ok(2_400_000));
    assert_eq!(
        get_easting_from_char('I', 1),
        Err(FromStringError::InvalidGridLetter('I'))
    );
}

#[test]
fn test_get_northing_from_char() {
    assert_eq!(get_northing_from_char('V', 6), Ok(1_400_000));
    assert_eq!(get_northing_from_char('F', 6), Ok(0));
    assert_eq!(get_northing_from_char('A', 1), Ok(0));
    assert_eq!(get_northing_from_char('E', 6), Ok(1_900_000));
    assert_eq!(
        get_northing_from_char('O', 1),
        Err(FromStringError::InvalidGridLetter('O'))
    );
}

#[test]
fn test_get_min_northing() {
    assert_eq!(get_min_northing('C'), Ok(1_100_000));
    assert_eq!(get_min_northing('M'), Ok(9_100_000));
    assert_eq!(get_min_northing('N'), Ok(0));
    assert_eq!(get_min_northing('X'), Ok(7_900_000));
    assert_eq!(get_min_northing('Z'), Err(FromStringError::InvalidZoneLetter('Z')));
}

#[test]
fn test_split_first_char() {
    assert_eq!(split_first_char("ab"), Some(('a', "b")));
    assert_eq!(split_first_char("a"), Some(('a', "")));
    assert_eq!(split_first_char(""), None);
}

use xputils::navdata::fix;
use xputils::navdata::fix::{FixFunction, FixProcedure, FixType};
use xputils::navdata::hold;
use xputils::navdata::hold::LegLength;
use xputils::navdata::nav;
use xputils::navdata::nav::{NdbClass, TypeSpecificData};
use xputils::navdata::airways;
use xputils::navdata::scan::Dec;
use xputils::navdata::ParsedNodeRefType;

fn dec(neg: bool, mantissa: u64, scale: u8) -> Dec {
    Dec { neg, mantissa, scale }
}

#[test]
fn fix_row_san_francisco() {
    let f = fix::parse_row("  37.618050000 -122.374770000 ABEAM ENRT K2 11587648 SAN FRANCISCO")
        .unwrap();
    assert_eq!(f.lat, dec(false, 37618050000, 9));
    assert_eq!(f.lon, dec(true, 122374770000, 9));
    assert_eq!(f.ident, "ABEAM");
    assert_eq!(f.terminal_region, "ENRT");
    assert_eq!(f.icao_region, "K2");
    // 11587648 = 0x00B0D040: all three letter codes fall back to the raw byte
    assert_eq!(f.typ, FixType::Unrecognized(0x40));
    assert_eq!(f.func, FixFunction::Unrecognized(0xD0));
    assert_eq!(f.proc, FixProcedure::Unrecognized(0xB0));
    assert_eq!(f.printed_spoken_name.as_deref(), Some("SAN FRANCISCO"));
}

#[test]
fn fix_row_letter_codes() {
    // 0x00444552: byte0 'R' (0x52) named intersection, byte1 'E' (0x45)
    // off-route FAA, byte2 'D' (0x44) SID.
    let flags: u32 = 0x0044_4552;
    let line = format!("  1.0 2.0 WPT01 ENRT K2 {flags}");
    let f = fix::parse_row(&line).unwrap();
    assert_eq!(f.typ, FixType::NamedIntx);
    assert_eq!(f.func, FixFunction::OffRouteIntxFAA);
    assert_eq!(f.proc, FixProcedure::SID);
    assert_eq!(f.printed_spoken_name, None);
}

#[test]
fn fix_row_stepdown_codes_depend_on_terminal_region() {
    // byte1 'P': stepdown fix inside a terminal area, pitch-and-catch en route
    let flags: u32 = 0x0000_5052;
    let terminal = fix::parse_row(&format!("  1.0 2.0 WPT01 KSFO K2 {flags}")).unwrap();
    assert_eq!(terminal.func, FixFunction::UnnamedStepdownFix);
    let enroute = fix::parse_row(&format!("  1.0 2.0 WPT01 ENRT K2 {flags}")).unwrap();
    assert_eq!(enroute.func, FixFunction::PitchAndCatchPoint);
}

#[test]
fn fix_row_too_long_ident_is_rejected() {
    assert!(fix::parse_row("  1.0 2.0 WAYPOINT10 ENRT K2 0").is_err());
    // eight characters is the bound itself
    let f = fix::parse_row("  1.0 2.0 WAYPOINT ENRT K2 0").unwrap();
    assert_eq!(f.ident, "WAYPOINT");
}

#[test]
fn numbers_too_wide_for_their_columns_are_rejected() {
    // the flags column is 32-bit
    assert!(fix::parse_row("  1.0 2.0 AAA ENRT K2 4294967296").is_err());
    // a coordinate whose digits exceed the exact-decimal mantissa
    assert!(fix::parse_row("  123456789012345678901.0 2.0 AAA ENRT K2 0").is_err());
}

#[test]
fn ndb_row_woodside() {
    let n = nav::parse_row(" 2  37.000000000 -122.000000000    250  385  50 0.0  OSI  ENRT K2 WOODSIDE NDB")
        .unwrap();
    assert_eq!(n.lat, dec(false, 37000000000, 9));
    assert_eq!(n.lon, dec(true, 122000000000, 9));
    assert_eq!(n.elevation, 250);
    assert_eq!(n.ident, "OSI");
    assert_eq!(n.icao_region, "K2");
    match n.type_data {
        TypeSpecificData::Ndb { freq_khz, class, flags, terminal_region, name } => {
            assert_eq!(freq_khz, 385);
            assert_eq!(class, NdbClass::Normal);
            assert_eq!(flags, dec(false, 0, 1));
            assert_eq!(terminal_region, "ENRT");
            assert_eq!(name, "WOODSIDE NDB");
        },
        other => panic!("not an NDB: {other:?}"),
    }
}

#[test]
fn localizer_row_splits_packed_course() {
    // packed course 29 * 360 + 94.342 = 10534.342
    let n = nav::parse_row(
        " 4  37.618 -122.375    13  11110  18 10534.342 ISFO  KSFO K2 28R ILS-cat-III",
    )
    .unwrap();
    match n.type_data {
        TypeSpecificData::Localizer {
            is_with_ils,
            freq_10khz,
            max_range,
            crs_mag,
            crs_true,
            airport_icao,
            rwy,
            name,
        } => {
            assert!(is_with_ils);
            assert_eq!(freq_10khz, 11110);
            assert_eq!(max_range, 18);
            assert_eq!(crs_mag, dec(false, 29, 0));
            assert_eq!(crs_true, dec(false, 94342, 3));
            assert_eq!(airport_icao, "KSFO");
            assert_eq!(rwy, "28R");
            assert_eq!(name, "ILS-cat-III");
        },
        other => panic!("not a localizer: {other:?}"),
    }
}

#[test]
fn glideslope_row_splits_angle_and_course() {
    // packed column 300285.5: glide angle 300 (3 degrees), course 285.5
    let n = nav::parse_row(
        " 6  37.618 -122.375    13  11110  10 300285.5 ISFO  KSFO K2 28R GS",
    )
    .unwrap();
    match n.type_data {
        TypeSpecificData::Glideslope { loc_crs_true, glide_angle, .. } => {
            assert_eq!(glide_angle, 300);
            assert_eq!(loc_crs_true, dec(false, 2855, 1));
        },
        other => panic!("not a glideslope: {other:?}"),
    }
}

#[test]
fn marker_row_keeps_short_name_and_rejects_trailing_text() {
    let n = nav::parse_row(" 7  37.61 -122.37    13 0 0 281.0  ISFO  KSFO K2 28R OM").unwrap();
    match n.type_data {
        TypeSpecificData::MarkerBeacon { typ, name, .. } => {
            assert_eq!(typ, nav::MarkerType::Outer);
            assert_eq!(name, "OM");
        },
        other => panic!("not a marker: {other:?}"),
    }
    assert!(nav::parse_row(" 7  37.61 -122.37    13 0 0 281.0  ISFO  KSFO K2 28R OM extra").is_err());
}

#[test]
fn navaid_row_unknown_code_is_rejected() {
    assert!(nav::parse_row(" 11  37.0 -122.0  10 1 1 1.0  AAA  ENRT K2 NAME").is_err());
}

#[test]
fn airway_row_expands_hyphenated_names() {
    let e = airways::parse_row("ABEAM K2 11 FIKLO K2 11 N 2 180 450 J1-J101").unwrap();
    assert_eq!(e.first.ident, "ABEAM");
    assert_eq!(e.first.typ, ParsedNodeRefType::Fix);
    assert_eq!(e.second.ident, "FIKLO");
    assert_eq!(e.direction, 'N');
    assert!(e.is_high);
    assert_eq!(e.base_fl, 180);
    assert_eq!(e.top_fl, 450);
    assert_eq!(e.names, vec!["J1".to_string(), "J101".to_string()]);
}

#[test]
fn airway_row_rejects_long_name() {
    assert!(airways::parse_row("ABEAM K2 11 FIKLO K2 11 N 2 180 450 LONGNAME").is_err());
}

#[test]
fn hold_row_decodes_geometry() {
    let e = hold::parse_row("OSI   K2 ENRT  3  315.0 1.0 0.0 R 3000 10000 230").unwrap();
    assert_eq!(e.hold_point.ident, "OSI");
    assert_eq!(e.hold_point.typ, ParsedNodeRefType::Ndb);
    assert_eq!(e.terminal_region, "ENRT");
    assert_eq!(e.inbound_crs_mag, dec(false, 3150, 1));
    assert_eq!(e.leg_time_min, dec(false, 10, 1));
    assert_eq!(e.leg_length_nm, dec(false, 0, 1));
    assert_eq!(e.direction, 'R');
    assert_eq!(e.min_alt_ft, 3000);
    assert_eq!(e.max_alt_ft, 10000);
    assert_eq!(e.max_spd_kts, 230);
}

#[test]
fn hold_leg_length_is_exclusive() {
    // the law: a nonzero DME column forces a zero minutes column
    assert_eq!(
        hold::leg_length_of(dec(false, 10, 1), dec(false, 0, 1)),
        Some(LegLength::Minutes(dec(false, 10, 1)))
    );
    assert_eq!(
        hold::leg_length_of(dec(false, 0, 1), dec(false, 52, 1)),
        Some(LegLength::DME(dec(false, 52, 1)))
    );
    // both zero is recorded as a zero-minute leg
    assert_eq!(
        hold::leg_length_of(dec(false, 0, 1), dec(false, 0, 0)),
        Some(LegLength::Minutes(dec(false, 0, 1)))
    );
    // both nonzero conflict
    assert_eq!(hold::leg_length_of(dec(false, 10, 1), dec(false, 52, 1)), None);
}

#[test]
fn hold_direction_letters() {
    let left = hold::parse_row("OSI   K2 ENRT  3  315.0 1.0 0.0 L 0 0 0").unwrap();
    assert_eq!(left.direction, 'L');
    assert_eq!(left.min_alt_ft, 0);
}

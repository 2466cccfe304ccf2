use xputils::navdata::cifp::{parse_row, Row};
use xputils::navdata::scan::Dec;

/// Build a procedure row from the eight lead columns and the thirty
/// columns that follow them.
fn ssa_line(tag: &str, lead: &str, tail: [&str; 30]) -> String {
    format!("{tag}:{lead},{};", tail.join(","))
}

const LEAD: &str = "10,2,OFFSH9,,SEPDY,K2,E,A";

#[test]
fn parse_a_bunch_of_rows() {
    let tail = [
        "EA  ", "", "123", "CF", "", "", "", "", "", "", "", "", "0085", "    ", "A", "05000",
        "     ", "18000", "-", "250", "-300.0", "", "", "", "", "", "", "", "1", "S",
    ];
    let sid = ssa_line("SID", LEAD, tail);
    match parse_row(&sid).unwrap() {
        Row::Sid(row) => {
            assert_eq!(row.sequence, 10);
            assert_eq!(row.route_typ, '2');
            assert_eq!(row.proc_ident, "OFFSH9");
            assert_eq!(row.trans_ident, None);
            assert_eq!(row.wpt_ident.as_deref(), Some("SEPDY"));
            assert_eq!(row.wpt_icao_region.as_deref(), Some("K2"));
            assert_eq!(row.section, Some('E'));
            assert_eq!(row.subsection, Some('A'));
            assert_eq!(row.waypoint_desc_code.as_deref(), Some("EA  "));
            assert_eq!(row.turn_dir, None);
            // RNP 123: significand 12, exponent 3
            assert_eq!(row.rnp, Some(Dec { neg: false, mantissa: 12, scale: 3 }));
            assert_eq!(row.path_and_term.as_deref(), Some("CF"));
            assert_eq!(row.ob_mag_crs.as_deref(), Some("0085"));
            assert_eq!(row.rte_dist_from_or_hold_dist_time, None);
            assert_eq!(row.alt_desc, Some('A'));
            assert_eq!(row.alt_one.as_deref(), Some("05000"));
            assert_eq!(row.alt_two, None);
            assert_eq!(row.trans_alt_ft_msl, Some(18000));
            assert_eq!(row.speed_lim_desc, Some('-'));
            assert_eq!(row.speed_lim, Some(250));
            // stored in hundredths of a degree
            assert_eq!(row.vertical_angle, Some(Dec { neg: true, mantissa: 3000, scale: 3 }));
            assert_eq!(row.rte_qual1, Some('1'));
            assert_eq!(row.rte_qual2, Some('S'));
        },
        other => panic!("expected a SID row, got {other:?}"),
    }

    assert!(matches!(parse_row(&ssa_line("STAR", LEAD, tail)).unwrap(), Row::Star(_)));
    assert!(matches!(parse_row(&ssa_line("APPCH", LEAD, tail)).unwrap(), Row::Apch(_)));

    let rwy = "RWY:RW01L,-150,+0556,0011,,ILSF,2,50;N37371856,W122224407,0248;";
    match parse_row(rwy).unwrap() {
        Row::Rwy(row) => {
            assert_eq!(row.rwy_ident, "RW01L");
            assert_eq!(row.rwy_grad_1_1000_pct, Some(-150));
            assert_eq!(row.ellipsoidal_height_1_10m, Some(556));
            assert_eq!(row.landing_threshold_elev_ft_msl, 11);
            assert_eq!(row.tch_val_indicator, None);
            assert_eq!(row.loc_mls_gls_ident.as_deref(), Some("ILSF"));
            assert_eq!(row.ils_mls_gls_cat, Some('2'));
            assert_eq!(row.thresh_cross_height_ft_agl, Some(50));
            assert_eq!(row.lat, "N37371856");
            assert_eq!(row.lon, "W122224407");
            assert_eq!(row.displaced_thresh_dist_ft, 248);
        },
        other => panic!("expected a runway row, got {other:?}"),
    }

    assert!(matches!(parse_row("PRDAT:whatever this holds").unwrap(), Row::PrDat));
    assert!(parse_row("BOGUS:1,2,3;").is_err());
}

#[test]
fn arc_radius_theta_rho_are_scaled() {
    // arc radius is stored in thousandths of a nautical mile, theta and
    // rho in tenths; decoding divides the columns back down
    let tail = [
        "EA  ", "", "   ", "CF", "", "", "", "", "", "2500", "123.4", "45.6", "0085", "    ",
        "A", "05000", "     ", "", "", "", "", "", "", "", "", "", "", "", "1", "S",
    ];
    match parse_row(&ssa_line("SID", LEAD, tail)).unwrap() {
        Row::Sid(row) => {
            assert_eq!(row.rnp, None);
            // 2500 thousandths of a nautical mile is 2.500 nm
            assert_eq!(row.arc_radius_nm, Some(Dec { neg: false, mantissa: 2500, scale: 3 }));
            // 123.4 tenths of a degree is 12.34 degrees
            assert_eq!(row.theta, Some(Dec { neg: false, mantissa: 1234, scale: 2 }));
            // 45.6 tenths of a nautical mile is 4.56 nm
            assert_eq!(row.rho, Some(Dec { neg: false, mantissa: 456, scale: 2 }));
            assert_eq!(row.trans_alt_ft_msl, None);
            assert_eq!(row.speed_lim, None);
            assert_eq!(row.vertical_angle, None);
        },
        other => panic!("expected a SID row, got {other:?}"),
    }
}

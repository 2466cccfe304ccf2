use xputils::navdata::graph::DiGraph;
use xputils::navdata::hold::LegLength;
use xputils::navdata::nav::TypeSpecificData;
use xputils::navdata::scan::Dec;
use xputils::navdata::{AirwayTraverseError, GraphError, NavEdge, NavEntry, NavGraph, ParseError};

fn fix_file(cycle: u16, rows: &[&str]) -> String {
    let mut s = format!(
        "I\n1200 Version - data cycle {cycle:04}, build 20250112, metadata FixXP1200. Test data.\n"
    );
    for r in rows {
        s.push_str(r);
        s.push('\n');
    }
    s.push_str("99\n");
    s
}

fn nav_file(cycle: u16, rows: &[&str]) -> String {
    let mut s = format!(
        "I\n1200 Version - data cycle {cycle:04}, build 20250112, metadata NavXP1200. Test data.\n"
    );
    for r in rows {
        s.push_str(r);
        s.push('\n');
    }
    s.push_str("99\n");
    s
}

fn awy_file(cycle: u16, rows: &[&str]) -> String {
    let mut s = format!(
        "I\n1100 Version - data cycle {cycle:04}, build 20250112, metadata AwyXP1100. Test data.\n"
    );
    for r in rows {
        s.push_str(r);
        s.push('\n');
    }
    s.push_str("99\n");
    s
}

fn hold_file(cycle: u16, rows: &[&str]) -> String {
    let mut s = format!(
        "I\n1140 Version - data cycle {cycle:04}, build 20250112, metadata HoldXP1140. Test data.\n"
    );
    for r in rows {
        s.push_str(r);
        s.push('\n');
    }
    s.push_str("99\n");
    s
}

const ABEAM: &str = "  37.618050000 -122.374770000 ABEAM ENRT K2 11587648 SAN FRANCISCO";
const FIKLO: &str = "  37.500000000 -122.000000000 FIKLO ENRT K2 11587648";
const OSI: &str = " 2  37.000000000 -122.000000000    250  385  50 0.0  OSI  ENRT K2 WOODSIDE NDB";

fn build(fix_rows: &[&str], nav_rows: &[&str], awy_rows: &[&str], hold_rows: &[&str]) -> Result<NavGraph, ParseError> {
    NavGraph::build_data(
        &fix_file(2401, fix_rows),
        None,
        &nav_file(2401, nav_rows),
        None,
        &awy_file(2401, awy_rows),
        &hold_file(2401, hold_rows),
    )
}

#[test]
fn airway_row_makes_four_edges() {
    let g = build(
        &[ABEAM, FIKLO],
        &[OSI],
        &["ABEAM K2 11 FIKLO K2 11 N 2 180 450 J1-J101"],
        &[],
    )
    .unwrap();
    let graph: &DiGraph = g.graph();
    assert_eq!(graph.nodes.len(), 3);
    assert_eq!(graph.edges.len(), 4);
    // two names, each with a forward and a backward edge
    let dirs: Vec<(usize, usize, String)> = graph
        .edges
        .iter()
        .map(|e| {
            let name = match &e.weight {
                NavEdge::Airway(a) => {
                    assert_eq!(a.base_fl, 180);
                    assert_eq!(a.top_fl, 450);
                    assert!(a.is_high);
                    a.name.clone()
                },
                NavEdge::Hold(_) => panic!("unexpected hold edge"),
            };
            (e.source, e.target, name)
        })
        .collect();
    assert_eq!(
        dirs,
        vec![
            (0, 1, "J1".to_string()),
            (1, 0, "J1".to_string()),
            (0, 1, "J101".to_string()),
            (1, 0, "J101".to_string()),
        ]
    );
}

#[test]
fn hold_row_makes_self_loop() {
    let g = build(
        &[ABEAM, FIKLO],
        &[OSI],
        &[],
        &["OSI   K2 ENRT  3  315.0 1.0 0.0 R 3000 10000 230"],
    )
    .unwrap();
    let graph = g.graph();
    assert_eq!(graph.edges.len(), 1);
    let e = &graph.edges[0];
    // the OSI NDB is the third vertex (fixes first, then navaids)
    assert_eq!(e.source, 2);
    assert_eq!(e.target, 2);
    match &e.weight {
        NavEdge::Hold(h) => {
            assert_eq!(h.inbound_crs_mag, Dec { neg: false, mantissa: 3150, scale: 1 });
            assert_eq!(h.leg_length, LegLength::Minutes(Dec { neg: false, mantissa: 10, scale: 1 }));
            assert_eq!(h.turn_direction, xputils::navdata::hold::Direction::Right);
            assert_eq!(h.min_alt_ft, Some(3000));
            assert_eq!(h.max_alt_ft, Some(10000));
            assert_eq!(h.max_spd_kts, Some(230));
        },
        NavEdge::Airway(_) => panic!("unexpected airway edge"),
    }
}

#[test]
fn cycle_mismatch_is_reported() {
    let r = NavGraph::build_data(
        &fix_file(2401, &[ABEAM]),
        None,
        &nav_file(2402, &[OSI]),
        None,
        &awy_file(2401, &[]),
        &hold_file(2401, &[]),
    );
    match r {
        Err(ParseError::CycleMismatch { established_cycle, new_cycle }) => {
            assert_eq!(established_cycle, 2401);
            assert_eq!(new_cycle, 2402);
        },
        other => panic!("expected a cycle mismatch, got {other:?}"),
    }
}

#[test]
fn airway_cycle_mismatch_is_reported() {
    let r = NavGraph::build_data(
        &fix_file(2401, &[ABEAM]),
        None,
        &nav_file(2401, &[OSI]),
        None,
        &awy_file(2402, &[]),
        &hold_file(2401, &[]),
    );
    assert!(matches!(r, Err(ParseError::CycleMismatch { established_cycle: 2401, new_cycle: 2402 })));
}

#[test]
fn user_overlay_replaces_by_identity() {
    let user = fix_file(
        2401,
        &["  10.000000000 20.000000000 FOO ENRT K2 0", "  30.000000000 40.000000000 BAR ENRT K2 0"],
    );
    let g = NavGraph::build_data(
        &fix_file(2401, &["  1.000000000 2.000000000 FOO ENRT K2 0"]),
        Some(&user),
        &nav_file(2401, &[OSI]),
        None,
        &awy_file(2401, &[]),
        &hold_file(2401, &[]),
    )
    .unwrap();
    let foos = g.find_nav_entry("FOO");
    assert_eq!(foos.len(), 1);
    match foos[0].1 {
        NavEntry::Fix(f) => {
            assert_eq!(f.lat, Dec { neg: false, mantissa: 10000000000, scale: 9 });
            assert_eq!(f.lon, Dec { neg: false, mantissa: 20000000000, scale: 9 });
        },
        NavEntry::Navaid(_) => panic!("expected a fix"),
    }
    // the user fix without a base twin is appended
    assert_eq!(g.find_nav_entry("BAR").len(), 1);
}

#[test]
fn overlay_applied_twice_changes_nothing() {
    let base = fix_file(2401, &["  1.000000000 2.000000000 FOO ENRT K2 0", FIKLO]);
    let user_rows = ["  10.000000000 20.000000000 FOO ENRT K2 0"];
    let user = fix_file(2401, &user_rows);
    let once = xputils::navdata::fix::parse_file(&base).unwrap();
    let mut entries_once = once.entries;
    xputils::navdata::overlay_fixes(
        &mut entries_once,
        xputils::navdata::fix::parse_file(&user).unwrap().entries,
    );
    let mut entries_twice = entries_once.clone();
    xputils::navdata::overlay_fixes(
        &mut entries_twice,
        xputils::navdata::fix::parse_file(&user).unwrap().entries,
    );
    assert_eq!(entries_once.len(), entries_twice.len());
    for (a, b) in entries_once.iter().zip(entries_twice.iter()) {
        assert_eq!(a.ident, b.ident);
        assert_eq!(a.lat, b.lat);
        assert_eq!(a.lon, b.lon);
    }
}

#[test]
fn user_navaid_overlay_replaces_by_kind() {
    // the user NDB replaces the base NDB; the base VOR with the same ident
    // keeps its place because the payload kind differs
    let base_vor = " 3  36.000000000 -121.000000000    100  11630 130 15.0  OSI ENRT K2 SOME VOR";
    let user_ndb = " 2  38.000000000 -123.000000000    300  400  25 0.0  OSI  ENRT K2 MOVED NDB";
    let user = nav_file(2401, &[user_ndb]);
    let g = NavGraph::build_data(
        &fix_file(2401, &[]),
        None,
        &nav_file(2401, &[OSI, base_vor]),
        Some(&user),
        &awy_file(2401, &[]),
        &hold_file(2401, &[]),
    )
    .unwrap();
    let hits = g.find_nav_entry("OSI");
    assert_eq!(hits.len(), 2);
    match hits[0].1 {
        NavEntry::Navaid(n) => {
            assert_eq!(n.elevation, 300);
            assert!(matches!(n.type_data, TypeSpecificData::Ndb { .. }));
        },
        NavEntry::Fix(_) => panic!("expected a navaid"),
    }
    match hits[1].1 {
        NavEntry::Navaid(n) => assert!(matches!(n.type_data, TypeSpecificData::Vor { .. })),
        NavEntry::Fix(_) => panic!("expected a navaid"),
    }
}

#[test]
fn forward_airway_row_makes_one_edge_per_name() {
    let g = build(
        &[ABEAM, FIKLO],
        &[],
        &["ABEAM K2 11 FIKLO K2 11 F 1 50 180 V25"],
        &[],
    )
    .unwrap();
    let graph = g.graph();
    assert_eq!(graph.edges.len(), 1);
    assert_eq!(graph.edges[0].source, 0);
    assert_eq!(graph.edges[0].target, 1);
    match &graph.edges[0].weight {
        NavEdge::Airway(a) => assert!(!a.is_high),
        NavEdge::Hold(_) => panic!("unexpected hold edge"),
    }
}

#[test]
fn hold_on_a_fix_needs_the_matching_terminal_region() {
    // the hold names a fix in the KSFO terminal area; the en-route fix
    // with the same ident is not a candidate
    let terminal_fix = "  37.1 -122.1 WPT01 KSFO K2 0";
    let enroute_fix = "  37.2 -122.2 WPT01 ENRT K2 0";
    let g = build(
        &[enroute_fix, terminal_fix],
        &[],
        &[],
        &["WPT01 K2 KSFO 11  100.0 1.0 0.0 L 0 0 0"],
    )
    .unwrap();
    let graph = g.graph();
    assert_eq!(graph.edges.len(), 1);
    assert_eq!(graph.edges[0].source, 1);
}

#[test]
fn sentinel_only_file_is_empty_and_valid() {
    let g = build(&[], &[], &[], &[]);
    let g = g.unwrap();
    assert_eq!(g.graph().nodes.len(), 0);
    assert_eq!(g.graph().edges.len(), 0);
}

#[test]
fn blank_lines_are_skipped() {
    let text = "I\n1200 Version - data cycle 2401, build 20250112, metadata FixXP1200. T.\n\n  1.0 2.0 AAA ENRT K2 0\n\n99\n";
    let f = xputils::navdata::fix::parse_file(text).unwrap();
    assert_eq!(f.entries.len(), 1);
}

#[test]
fn missing_sentinel_is_a_missing_line() {
    let text = "I\n1200 Version - data cycle 2401, build 20250112, metadata FixXP1200. T.\n  1.0 2.0 AAA ENRT K2 0\n";
    assert!(matches!(
        xputils::navdata::fix::parse_file(text),
        Err(ParseError::MissingLine)
    ));
}

#[test]
fn bad_bom_is_reported() {
    let text = "X\n1200 Version - data cycle 2401, build 20250112, metadata FixXP1200. T.\n99\n";
    match xputils::navdata::fix::parse_file(text) {
        Err(ParseError::BadBOM { bom }) => assert_eq!(bom, "X"),
        other => panic!("expected a bad byte-order marker, got {other:?}"),
    }
}

#[test]
fn unsupported_version_is_reported() {
    let text = "I\n1140 Version - data cycle 2401, build 20250112, metadata FixXP1200. T.\n99\n";
    assert!(matches!(
        xputils::navdata::fix::parse_file(text),
        Err(ParseError::UnsupportedVersion { .. })
    ));
}

#[test]
fn bad_row_is_a_parse_error() {
    let text = "I\n1200 Version - data cycle 2401, build 20250112, metadata FixXP1200. T.\nnot a row\n99\n";
    match xputils::navdata::fix::parse_file(text) {
        Err(ParseError::Parse { stage, .. }) => assert_eq!(stage, "fix row"),
        other => panic!("expected a parse error, got {other:?}"),
    }
}

#[test]
fn unresolved_airway_reference_is_reported() {
    let r = build(&[ABEAM], &[], &["ABEAM K2 11 NOONE K2 11 N 2 180 450 J1"], &[]);
    match r {
        Err(ParseError::ReferencedNonexistentWpt { wpt }) => assert_eq!(wpt, "NOONE"),
        other => panic!("expected an unresolved waypoint, got {other:?}"),
    }
}

#[test]
fn invalid_airway_direction_is_reported() {
    let r = build(
        &[ABEAM, FIKLO],
        &[],
        &["ABEAM K2 11 FIKLO K2 11 X 2 180 450 J1"],
        &[],
    );
    assert!(matches!(r, Err(ParseError::InvalidAwyDir { dir: 'X' })));
}

#[test]
fn invalid_hold_direction_is_reported() {
    let r = build(&[], &[OSI], &[], &["OSI   K2 ENRT  3  315.0 1.0 0.0 Q 0 0 0"]);
    assert!(matches!(r, Err(ParseError::InvalidHoldDir { dir: 'Q' })));
}

#[test]
fn conflicting_hold_leg_lengths_are_reported() {
    let r = build(&[], &[OSI], &[], &["OSI   K2 ENRT  3  315.0 1.0 5.2 R 0 0 0"]);
    match r {
        Err(ParseError::ConflictingHoldLegLengths { minutes, dme }) => {
            assert_eq!(minutes, Dec { neg: false, mantissa: 10, scale: 1 });
            assert_eq!(dme, Dec { neg: false, mantissa: 52, scale: 1 });
        },
        other => panic!("expected conflicting leg lengths, got {other:?}"),
    }
}

#[test]
fn find_nav_entry_returns_all_matches_and_only_matches() {
    // two vertices share the ident OSI: a fix and the NDB
    let g = build(
        &["  1.0 2.0 OSI ENRT K2 0", FIKLO],
        &[OSI],
        &[],
        &[],
    )
    .unwrap();
    let hits = g.find_nav_entry("OSI");
    assert_eq!(hits.len(), 2);
    assert_eq!(hits[0].0, 0);
    assert_eq!(hits[1].0, 2);
    assert!(g.find_nav_entry("NOONE").is_empty());
}

#[test]
fn airway_find_walks_the_airway() {
    let g = build(
        &[ABEAM, FIKLO, "  37.9 -121.9 ZULEE ENRT K2 0"],
        &[],
        &[
            "ABEAM K2 11 FIKLO K2 11 F 2 180 450 J1",
            "FIKLO K2 11 ZULEE K2 11 F 2 180 450 J1",
        ],
        &[],
    )
    .unwrap();
    let found = g.airway_find(0, "J1", "ZULEE").unwrap();
    assert_eq!(found.len(), 1);
    assert_eq!(found[0].0, 2);
    // the target is connected by another airway name only: not reachable on J9
    match g.airway_find(0, "J9", "ZULEE") {
        Err(AirwayTraverseError::NotOnAirway { start: true, .. }) => {},
        other => panic!("expected not-on-airway, got {other:?}"),
    }
    // the edges are one-directional: ZULEE has an incoming J1 edge, so it
    // is on the airway, but nothing lies downstream of it
    match g.airway_find(2, "J1", "ABEAM") {
        Err(AirwayTraverseError::NotOnAirway { start: false, .. }) => {},
        other => panic!("expected not-on-airway, got {other:?}"),
    }
    match g.airway_find(0, "J1", "NOONE") {
        Err(AirwayTraverseError::NotOnAirway { start: false, .. }) => {},
        other => panic!("expected not-on-airway, got {other:?}"),
    }
    match g.airway_find(99, "J1", "ZULEE") {
        Err(AirwayTraverseError::Graph { source: GraphError::BadNode { idx } }) => {
            assert_eq!(idx, 99)
        },
        other => panic!("expected a bad node, got {other:?}"),
    }
}

#[test]
fn airway_find_returns_start_only_around_a_cycle() {
    // a bidirectional row makes a two-edge J1 cycle between ABEAM and FIKLO
    let g = build(
        &[ABEAM, FIKLO],
        &[],
        &["ABEAM K2 11 FIKLO K2 11 N 2 180 450 J1"],
        &[],
    )
    .unwrap();
    let found = g.airway_find(0, "J1", "ABEAM").unwrap();
    assert_eq!(found.len(), 1);
    assert_eq!(found[0].0, 0);

    // forward only: no J1 edge returns to ABEAM, so a bare ident match on
    // the starting vertex is not a result
    let g2 = build(
        &[ABEAM, FIKLO],
        &[],
        &["ABEAM K2 11 FIKLO K2 11 F 2 180 450 J1"],
        &[],
    )
    .unwrap();
    match g2.airway_find(0, "J1", "ABEAM") {
        Err(AirwayTraverseError::NotOnAirway { start: false, .. }) => {},
        other => panic!("expected not-on-airway, got {other:?}"),
    }
}

#[test]
fn header_is_decoded_exactly() {
    let h = xputils::navdata::parse_header_line(
        "1200 Version - data cycle 2401, build 20250112, metadata FixXP1200. Copyright (c) someone.",
        xputils::navdata::FileKind::Fix,
    )
    .unwrap();
    assert!(matches!(h.version, xputils::navdata::DataVersion::XP1200));
    assert_eq!(h.cycle, 2401);
    assert_eq!(h.build, 20250112);
    assert_eq!(h.copyright, "Copyright (c) someone.");
}

#[test]
fn header_rejects_wrong_tag() {
    assert!(xputils::navdata::parse_header_line(
        "1200 Version - data cycle 2401, build 20250112, metadata NavXP1200. T.",
        xputils::navdata::FileKind::Fix,
    )
    .is_err());
}

//! Rows of `earth_hold.dat`: holding patterns, attached to the graph as
//! self-loop edges.

use vstd::prelude::*;
use vstd::string::*;

use crate::navdata::scan::{
    sp_col_char, sp_col_dec, sp_col_token1, sp_col_uint, spec_lines, split_lines, str_eq, Dec,
    RowError, Scanner,
};
use crate::navdata::graph::{DiGraph, GraphEdge};
use crate::navdata::nav::TypeSpecificData;
use crate::navdata::{
    bom_ok, parse_header, shape_prepend, sp_header_line, sp_ref_type, sp_shape, sp_wpt_match,
    DataVersion, FileKind, FileShape, Header, NavEdge, NavEntry, ParsedNodeRef, ParsedNodeRefType,
    ParseError,
};

verus! {

/// The hold geometry carried on a self-loop edge.
#[derive(Debug, Clone, Copy, PartialEq, Eq, Structural)]
pub struct Edge {
    pub inbound_crs_mag: Dec,
    pub leg_length: LegLength,
    pub turn_direction: Direction,
    pub min_alt_ft: Option<u32>,
    pub max_alt_ft: Option<u32>,
    /// If `None`, ICAO rules apply.
    pub max_spd_kts: Option<u16>,
}

/// A hold leg is timed or DME-measured, never both.
#[derive(Debug, Clone, Copy, PartialEq, Eq, Structural)]
pub enum LegLength {
    Minutes(Dec),
    DME(Dec),
}

/// The turn direction of the hold.
#[derive(Debug, Clone, Copy, PartialEq, Eq, Structural)]
pub enum Direction {
    Left,
    Right,
}

/// The raw columns of one hold row.
pub ghost struct HoldRowV {
    pub ident: Seq<char>,
    pub icao_region: Seq<char>,
    pub terminal_region: Seq<char>,
    pub typ: ParsedNodeRefType,
    pub inbound_crs_mag: Dec,
    pub leg_time_min: Dec,
    pub leg_length_nm: Dec,
    pub direction: char,
    pub min_alt_ft: int,
    pub max_alt_ft: int,
    pub max_spd_kts: int,
}

/// The hold-row grammar: the waypoint reference, the inbound course, the
/// two leg-length columns, the turn direction, the altitude band and the
/// speed limit, ending the line.
pub open spec fn sp_hold_row(s: Seq<char>) -> Option<HoldRowV> {
    match crate::navdata::scan::sp_col_token1_0(s, 0, 5) {
        None => None,
        Some((ident, p)) => match sp_col_token1(s, p, 2) {
            None => None,
            Some((icao_region, p)) => match sp_col_token1(s, p, 4) {
                None => None,
                Some((terminal_region, p)) => match sp_col_uint(s, p, u8::MAX as int) {
                    None => None,
                    Some((code, p)) => match sp_ref_type(code) {
                        None => None,
                        Some(typ) => match sp_col_dec(s, p) {
                            None => None,
                            Some((inbound_crs_mag, p)) => match sp_col_dec(s, p) {
                                None => None,
                                Some((leg_time_min, p)) => match sp_col_dec(s, p) {
                                    None => None,
                                    Some((leg_length_nm, p)) => match sp_col_char(s, p) {
                                        None => None,
                                        Some((direction, p)) => match sp_col_uint(
                                            s,
                                            p,
                                            u32::MAX as int,
                                        ) {
                                            None => None,
                                            Some((min_alt_ft, p)) => match sp_col_uint(
                                                s,
                                                p,
                                                u32::MAX as int,
                                            ) {
                                                None => None,
                                                Some((max_alt_ft, p)) => match sp_col_uint(
                                                    s,
                                                    p,
                                                    u16::MAX as int,
                                                ) {
                                                    None => None,
                                                    Some((max_spd_kts, p)) => {
                                                        if p == s.len() {
                                                            Some(
                                                                HoldRowV {
                                                                    ident,
                                                                    icao_region,
                                                                    terminal_region,
                                                                    typ,
                                                                    inbound_crs_mag,
                                                                    leg_time_min,
                                                                    leg_length_nm,
                                                                    direction,
                                                                    min_alt_ft,
                                                                    max_alt_ft,
                                                                    max_spd_kts,
                                                                },
                                                            )
                                                        } else {
                                                            None
                                                        }
                                                    },
                                                },
                                            },
                                        },
                                    },
                                },
                            },
                        },
                    },
                },
            },
        },
    }
}

/// One parsed hold row, before resolution against the graph.
#[derive(Debug, Clone)]
pub struct ParsedEdge {
    pub hold_point: ParsedNodeRef,
    pub terminal_region: String,
    pub inbound_crs_mag: Dec,
    pub leg_time_min: Dec,
    pub leg_length_nm: Dec,
    pub direction: char,
    pub min_alt_ft: u32,
    pub max_alt_ft: u32,
    pub max_spd_kts: u16,
}

/// Whether a parsed hold row carries exactly the decoded content of a row.
pub open spec fn hold_row_matches(e: ParsedEdge, v: HoldRowV) -> bool {
    &&& e.hold_point.ident@ == v.ident
    &&& e.hold_point.icao_region@ == v.icao_region
    &&& e.hold_point.typ == v.typ
    &&& e.terminal_region@ == v.terminal_region
    &&& e.inbound_crs_mag == v.inbound_crs_mag
    &&& e.leg_time_min == v.leg_time_min
    &&& e.leg_length_nm == v.leg_length_nm
    &&& e.direction == v.direction
    &&& e.min_alt_ft == v.min_alt_ft
    &&& e.max_alt_ft == v.max_alt_ft
    &&& e.max_spd_kts == v.max_spd_kts
}

/// Parse one hold row.
pub fn parse_row(line: &str) -> (r: Result<ParsedEdge, RowError>)
    ensures
        r is Ok <==> sp_hold_row(line@) is Some,
        r matches Ok(e) ==> (sp_hold_row(line@) matches Some(v) && hold_row_matches(e, v)),
{
    let mut sc = Scanner::new(line);
    let ident = sc.token1_max0(5)?;
    let icao_region = sc.token1_max(2)?;
    let terminal_region = sc.token1_max(4)?;
    let code = sc.col_u8()?;
    let typ = if code == 2 {
        ParsedNodeRefType::Vhf
    } else if code == 3 {
        ParsedNodeRefType::Ndb
    } else if code == 11 {
        ParsedNodeRefType::Fix
    } else {
        return Err(RowError { pos: 0 });
    };
    let inbound_crs_mag = sc.col_dec()?;
    let leg_time_min = sc.col_dec()?;
    let leg_length_nm = sc.col_dec()?;
    let direction = sc.col_char()?;
    let min_alt_ft = sc.col_u32()?;
    let max_alt_ft = sc.col_u32()?;
    let max_spd_kts = sc.col_u16()?;
    if !sc.at_end() {
        return Err(RowError { pos: 0 });
    }
    Ok(
        ParsedEdge {
            hold_point: ParsedNodeRef { ident, icao_region, typ },
            terminal_region,
            inbound_crs_mag,
            leg_time_min,
            leg_length_nm,
            direction,
            min_alt_ft,
            max_alt_ft,
            max_spd_kts,
        },
    )
}

/// The leg length of a hold: the two columns carry minutes and nautical
/// miles, and at most one of them may be nonzero.  Two zero columns are
/// recorded as a zero-minute leg.
pub open spec fn sp_leg(minutes: Dec, nm: Dec) -> Option<LegLength> {
    if nm.spec_is_zero() {
        Some(LegLength::Minutes(minutes))
    } else if minutes.spec_is_zero() {
        Some(LegLength::DME(nm))
    } else {
        None
    }
}

/// Combine the two leg-length columns, or report that they conflict.
pub fn leg_length_of(minutes: Dec, nm: Dec) -> (r: Option<LegLength>)
    ensures
        r == sp_leg(minutes, nm),
{
    if nm.is_zero() {
        Some(LegLength::Minutes(minutes))
    } else if minutes.is_zero() {
        Some(LegLength::DME(nm))
    } else {
        None
    }
}

/// On every accepted hold row exactly one leg-length dimension survives:
/// a timed leg only when the DME column was zero, a DME leg only when the
/// minutes column was zero and the DME column was not, and two nonzero
/// columns are never accepted.
pub proof fn lemma_leg_length_exclusive(minutes: Dec, nm: Dec)
    ensures
        sp_leg(minutes, nm) matches Some(l) ==> match l {
            LegLength::Minutes(m) => m == minutes && nm.spec_is_zero(),
            LegLength::DME(d) => d == nm && minutes.spec_is_zero() && !nm.spec_is_zero(),
        },
        sp_leg(minutes, nm) is None <==> !minutes.spec_is_zero() && !nm.spec_is_zero(),
{
}

/// The terminal-region gate on hold resolution: fixes must share the
/// hold's terminal region; VORs match only en-route holds; NDBs and DMEs
/// must share the terminal region; other navaids never match.
pub open spec fn sp_hold_region_ok(terminal: Seq<char>, e: NavEntry) -> bool {
    match e {
        NavEntry::Fix(f) => f.terminal_region@ == terminal,
        NavEntry::Navaid(n) => match n.type_data {
            TypeSpecificData::Vor { .. } => terminal == "ENRT"@,
            TypeSpecificData::Ndb { terminal_region, .. } => terminal_region@ == terminal,
            TypeSpecificData::Dme { terminal_region, .. } => terminal_region@ == terminal,
            _ => false,
        },
    }
}

/// The first vertex passing both the terminal-region gate and the
/// waypoint-reference match.
pub open spec fn sp_first_hold(
    nodes: Seq<NavEntry>,
    i: int,
    terminal: Seq<char>,
    ident: Seq<char>,
    icao: Seq<char>,
    typ: ParsedNodeRefType,
) -> Option<int>
    decreases nodes.len() - i when 0 <= i
{
    if i >= nodes.len() {
        None
    } else if sp_hold_region_ok(terminal, nodes[i]) && sp_wpt_match(ident, icao, typ, nodes[i]) {
        Some(i)
    } else {
        sp_first_hold(nodes, i + 1, terminal, ident, icao, typ)
    }
}

/// Resolve a hold row's waypoint against the vertices.
fn resolve_hold(nodes: &Vec<NavEntry>, row: &ParsedEdge) -> (r: Option<usize>)
    ensures
        ({
            let sp = sp_first_hold(
                nodes@,
                0,
                row.terminal_region@,
                row.hold_point.ident@,
                row.hold_point.icao_region@,
                row.hold_point.typ,
            );
            &&& (r is Some <==> sp is Some)
            &&& (r matches Some(i) ==> sp == Some(i as int) && i < nodes@.len())
        }),
{
    let mut i: usize = 0;
    while i < nodes.len()
        invariant
            i <= nodes@.len(),
            sp_first_hold(
                nodes@,
                0,
                row.terminal_region@,
                row.hold_point.ident@,
                row.hold_point.icao_region@,
                row.hold_point.typ,
            ) == sp_first_hold(
                nodes@,
                i as int,
                row.terminal_region@,
                row.hold_point.ident@,
                row.hold_point.icao_region@,
                row.hold_point.typ,
            ),
        decreases nodes@.len() - i,
    {
        let entry = &nodes[i];
        let region_ok = match entry {
            NavEntry::Fix(f) => str_eq(f.terminal_region.as_str(), row.terminal_region.as_str()),
            NavEntry::Navaid(n) => match &n.type_data {
                TypeSpecificData::Vor { .. } => {
                    proof {
                        reveal_strlit("ENRT");
                    }
                    str_eq(row.terminal_region.as_str(), "ENRT")
                },
                TypeSpecificData::Ndb { terminal_region, .. } => str_eq(
                    terminal_region.as_str(),
                    row.terminal_region.as_str(),
                ),
                TypeSpecificData::Dme { terminal_region, .. } => str_eq(
                    terminal_region.as_str(),
                    row.terminal_region.as_str(),
                ),
                _ => false,
            },
        };
        if region_ok && crate::navdata::match_wpt_predicate(&row.hold_point, entry) {
            return Some(i);
        }
        i = i + 1;
    }
    None
}

/// The turn-direction letters `L` and `R`.
pub open spec fn sp_hold_dir(c: char) -> Option<Direction> {
    if c == 'L' {
        Some(Direction::Left)
    } else if c == 'R' {
        Some(Direction::Right)
    } else {
        None
    }
}

/// The self-loop payload a hold row produces: zero altitude and speed
/// columns encode "unset".
pub open spec fn sp_hold_edge(v: HoldRowV) -> Edge {
    Edge {
        inbound_crs_mag: v.inbound_crs_mag,
        leg_length: sp_leg(v.leg_time_min, v.leg_length_nm).unwrap(),
        turn_direction: sp_hold_dir(v.direction).unwrap(),
        min_alt_ft: if v.min_alt_ft == 0 {
            None
        } else {
            Some(v.min_alt_ft as u32)
        },
        max_alt_ft: if v.max_alt_ft == 0 {
            None
        } else {
            Some(v.max_alt_ft as u32)
        },
        max_spd_kts: if v.max_spd_kts == 0 {
            None
        } else {
            Some(v.max_spd_kts as u16)
        },
    }
}

/// Whether a line is a fully serviceable hold row against the vertices.
pub open spec fn hold_row_full_ok(nodes: Seq<NavEntry>, l: Seq<char>) -> bool {
    &&& sp_hold_row(l) is Some
    &&& ({
        let v = sp_hold_row(l).unwrap();
        &&& sp_first_hold(nodes, 0, v.terminal_region, v.ident, v.icao_region, v.typ) is Some
        &&& sp_hold_dir(v.direction) is Some
        &&& sp_leg(v.leg_time_min, v.leg_length_nm) is Some
    })
}

pub open spec fn hold_ok_fn(nodes: Seq<NavEntry>) -> spec_fn(Seq<char>) -> bool {
    |l: Seq<char>| hold_row_full_ok(nodes, l)
}

/// Whether one stored edge is the self-loop a hold row calls for.
pub open spec fn hold_edge_is(e: GraphEdge, idx: int, v: HoldRowV) -> bool {
    &&& e.source == idx
    &&& e.target == idx
    &&& (e.weight matches NavEdge::Hold(he) && he == sp_hold_edge(v))
}

/// The hold rows listed in `done` have been applied in order from edge
/// offset `off` on, one self-loop each.
pub open spec fn hold_rows_applied(
    edges: Seq<GraphEdge>,
    off: int,
    ls: Seq<Seq<char>>,
    done: Seq<int>,
    nodes: Seq<NavEntry>,
) -> bool
    decreases done.len(),
{
    if done.len() == 0 {
        edges.len() == off
    } else {
        let v = sp_hold_row(ls[done[0]]).unwrap();
        let idx = sp_first_hold(nodes, 0, v.terminal_region, v.ident, v.icao_region, v.typ).unwrap();
        &&& off + 1 <= edges.len()
        &&& hold_edge_is(edges[off], idx, v)
        &&& hold_rows_applied(edges, off + 1, ls, done.drop_first(), nodes)
    }
}

proof fn lemma_hold_rows_applied_extend(
    edges: Seq<GraphEdge>,
    edges2: Seq<GraphEdge>,
    off: int,
    ls: Seq<Seq<char>>,
    done: Seq<int>,
    nodes: Seq<NavEntry>,
    b: int,
)
    requires
        0 <= off,
        hold_rows_applied(edges, off, ls, done, nodes),
        edges2.len() == edges.len() + 1,
        forall|p: int| 0 <= p < edges.len() ==> edges2[p] == edges[p],
        hold_row_full_ok(nodes, ls[b]),
        ({
            let v = sp_hold_row(ls[b]).unwrap();
            let idx = sp_first_hold(
                nodes,
                0,
                v.terminal_region,
                v.ident,
                v.icao_region,
                v.typ,
            ).unwrap();
            hold_edge_is(edges2[edges.len() as int], idx, v)
        }),
    ensures
        hold_rows_applied(edges2, off, ls, done.push(b), nodes),
    decreases done.len(),
{
    if done.len() == 0 {
        assert(done.push(b)[0] == b);
        assert(done.push(b).drop_first() =~= Seq::<int>::empty());
        assert(hold_rows_applied(edges2, off + 1, ls, Seq::<int>::empty(), nodes));
    } else {
        assert(edges2[off] == edges[off]);
        lemma_hold_rows_applied_extend(
            edges,
            edges2,
            off + 1,
            ls,
            done.drop_first(),
            nodes,
            b,
        );
        assert(done.push(b)[0] == done[0]);
        assert(done.push(b).drop_first() =~= done.drop_first().push(b));
    }
}

/// Apply one parsed hold row to the graph: resolve the hold point, check
/// the turn direction and the leg-length columns, and lay down the
/// self-loop.
pub fn apply_row(g: &mut DiGraph, row: &ParsedEdge) -> (r: Result<(), ParseError>)
    requires
        old(g).wf(),
    ensures
        final(g).wf(),
        final(g).nodes@ == old(g).nodes@,
        ({
            let nodes = old(g).nodes@;
            let res = sp_first_hold(
                nodes,
                0,
                row.terminal_region@,
                row.hold_point.ident@,
                row.hold_point.icao_region@,
                row.hold_point.typ,
            );
            &&& (res is None ==> (r matches Err(ParseError::ReferencedNonexistentWpt { wpt })
                && wpt@ == row.hold_point.ident@) && final(g).edges@ == old(g).edges@)
            &&& (res is Some && sp_hold_dir(row.direction) is None ==> (r matches Err(
                ParseError::InvalidHoldDir { dir },
            ) && dir == row.direction) && final(g).edges@ == old(g).edges@)
            &&& (res is Some && sp_hold_dir(row.direction) is Some && sp_leg(
                row.leg_time_min,
                row.leg_length_nm,
            ) is None ==> (r matches Err(ParseError::ConflictingHoldLegLengths { minutes, dme })
                && minutes == row.leg_time_min && dme == row.leg_length_nm) && final(g).edges@
                == old(g).edges@)
            &&& (r is Ok <==> res is Some && sp_hold_dir(row.direction) is Some && sp_leg(
                row.leg_time_min,
                row.leg_length_nm,
            ) is Some)
            &&& (r is Ok ==> final(g).edges@.len() == old(g).edges@.len() + 1 && (forall|p: int|
                0 <= p < old(g).edges@.len() ==> final(g).edges@[p] == old(g).edges@[p]) && (
            forall|v: HoldRowV|
                hold_row_matches(*row, v) ==> hold_edge_is(
                    final(g).edges@[old(g).edges@.len() as int],
                    res.unwrap(),
                    v,
                )))
        }),
{
    let idx = match resolve_hold(&g.nodes, row) {
        Some(i) => i,
        None => {
            return Err(
                ParseError::ReferencedNonexistentWpt { wpt: row.hold_point.ident.clone() },
            );
        },
    };
    let turn_direction = if row.direction == 'L' {
        Direction::Left
    } else if row.direction == 'R' {
        Direction::Right
    } else {
        return Err(ParseError::InvalidHoldDir { dir: row.direction });
    };
    let leg_length = match leg_length_of(row.leg_time_min, row.leg_length_nm) {
        Some(l) => l,
        None => {
            return Err(
                ParseError::ConflictingHoldLegLengths {
                    minutes: row.leg_time_min,
                    dme: row.leg_length_nm,
                },
            );
        },
    };
    let min_alt_ft = if row.min_alt_ft == 0 {
        None
    } else {
        Some(row.min_alt_ft)
    };
    let max_alt_ft = if row.max_alt_ft == 0 {
        None
    } else {
        Some(row.max_alt_ft)
    };
    let max_spd_kts = if row.max_spd_kts == 0 {
        None
    } else {
        Some(row.max_spd_kts)
    };
    let edge = Edge {
        inbound_crs_mag: row.inbound_crs_mag,
        leg_length,
        turn_direction,
        min_alt_ft,
        max_alt_ft,
        max_spd_kts,
    };
    g.add_edge(idx, idx, NavEdge::Hold(edge));
    Ok(())
}

/// Parse a whole hold file and lay its self-loops into the graph.
pub fn parse_file(text: &str, nav_graph: &mut DiGraph) -> (r: Result<Header, ParseError>)
    requires
        old(nav_graph).wf(),
    ensures
        final(nav_graph).wf(),
        final(nav_graph).nodes@ == old(nav_graph).nodes@,
        final(nav_graph).edges@.len() >= old(nav_graph).edges@.len(),
        forall|p: int|
            0 <= p < old(nav_graph).edges@.len() ==> final(nav_graph).edges@[p] == old(
                nav_graph,
            ).edges@[p],
        ({
            let ls = spec_lines(text@);
            let nodes = old(nav_graph).nodes@;
            let shape = sp_shape(ls, 2, hold_ok_fn(nodes));
            let hdr = sp_header_line(ls[1], FileKind::Hold);
            &&& (r is Ok <==> ls.len() >= 2 && bom_ok(ls[0]) && hdr is Some && hdr.unwrap().version
                == DataVersion::XP1140 && shape matches FileShape::Rows(_))
            &&& (r matches Ok(h) ==> hdr == Some(h@) && (shape matches FileShape::Rows(idx)
                && hold_rows_applied(
                final(nav_graph).edges@,
                old(nav_graph).edges@.len() as int,
                ls,
                idx,
                nodes,
            )))
            &&& (ls.len() == 0 ==> r matches Err(ParseError::MissingLine))
            &&& (ls.len() >= 1 && !bom_ok(ls[0]) ==> (r matches Err(ParseError::BadBOM { bom })
                && bom@ == ls[0]))
            &&& (ls.len() == 1 && bom_ok(ls[0]) ==> r matches Err(ParseError::MissingLine))
            &&& (ls.len() >= 2 && bom_ok(ls[0]) && hdr is None ==> (r matches Err(
                ParseError::Parse { stage, .. },
            ) && stage@ == "header"@))
            &&& (ls.len() >= 2 && bom_ok(ls[0]) && hdr is Some && hdr.unwrap().version
                != DataVersion::XP1140 ==> (r matches Err(
                ParseError::UnsupportedVersion { version },
            ) && version == hdr.unwrap().version))
            &&& (ls.len() >= 2 && bom_ok(ls[0]) && hdr is Some && hdr.unwrap().version
                == DataVersion::XP1140 && (shape matches FileShape::NoSentinel) ==> r matches Err(
                ParseError::MissingLine,
            ))
            &&& (ls.len() >= 2 && bom_ok(ls[0]) && hdr is Some && hdr.unwrap().version
                == DataVersion::XP1140 && (shape matches FileShape::BadRow(_)) && sp_hold_row(
                ls[shape->BadRow_0],
            ) is None ==> (r matches Err(ParseError::Parse { stage, .. }) && stage@
                == "hold row"@))
            &&& (ls.len() >= 2 && bom_ok(ls[0]) && hdr is Some && hdr.unwrap().version
                == DataVersion::XP1140 && (shape matches FileShape::BadRow(_)) && sp_hold_row(
                ls[shape->BadRow_0],
            ) is Some && sp_first_hold(
                nodes,
                0,
                sp_hold_row(ls[shape->BadRow_0]).unwrap().terminal_region,
                sp_hold_row(ls[shape->BadRow_0]).unwrap().ident,
                sp_hold_row(ls[shape->BadRow_0]).unwrap().icao_region,
                sp_hold_row(ls[shape->BadRow_0]).unwrap().typ,
            ) is None ==> (r matches Err(ParseError::ReferencedNonexistentWpt { wpt }) && wpt@
                == sp_hold_row(ls[shape->BadRow_0]).unwrap().ident))
            &&& (ls.len() >= 2 && bom_ok(ls[0]) && hdr is Some && hdr.unwrap().version
                == DataVersion::XP1140 && (shape matches FileShape::BadRow(_)) && sp_hold_row(
                ls[shape->BadRow_0],
            ) is Some && sp_first_hold(
                nodes,
                0,
                sp_hold_row(ls[shape->BadRow_0]).unwrap().terminal_region,
                sp_hold_row(ls[shape->BadRow_0]).unwrap().ident,
                sp_hold_row(ls[shape->BadRow_0]).unwrap().icao_region,
                sp_hold_row(ls[shape->BadRow_0]).unwrap().typ,
            ) is Some && sp_hold_dir(sp_hold_row(ls[shape->BadRow_0]).unwrap().direction)
                is None ==> (r matches Err(ParseError::InvalidHoldDir { dir }) && dir
                == sp_hold_row(ls[shape->BadRow_0]).unwrap().direction))
            &&& (ls.len() >= 2 && bom_ok(ls[0]) && hdr is Some && hdr.unwrap().version
                == DataVersion::XP1140 && (shape matches FileShape::BadRow(_)) && sp_hold_row(
                ls[shape->BadRow_0],
            ) is Some && sp_first_hold(
                nodes,
                0,
                sp_hold_row(ls[shape->BadRow_0]).unwrap().terminal_region,
                sp_hold_row(ls[shape->BadRow_0]).unwrap().ident,
                sp_hold_row(ls[shape->BadRow_0]).unwrap().icao_region,
                sp_hold_row(ls[shape->BadRow_0]).unwrap().typ,
            ) is Some && sp_hold_dir(sp_hold_row(ls[shape->BadRow_0]).unwrap().direction)
                is Some && sp_leg(
                sp_hold_row(ls[shape->BadRow_0]).unwrap().leg_time_min,
                sp_hold_row(ls[shape->BadRow_0]).unwrap().leg_length_nm,
            ) is None ==> (r matches Err(ParseError::ConflictingHoldLegLengths { minutes, dme })
                && minutes == sp_hold_row(ls[shape->BadRow_0]).unwrap().leg_time_min && dme
                == sp_hold_row(ls[shape->BadRow_0]).unwrap().leg_length_nm))
        }),
{
    let lines = split_lines(text);
    let ghost ls = spec_lines(text@);
    let ghost nodes = old(nav_graph).nodes@;
    let ghost okf = hold_ok_fn(nodes);
    proof {
        assert(lines@.map_values(|l: String| l@) =~= ls);
    }
    let header = parse_header(&lines, FileKind::Hold)?;
    match header.version {
        DataVersion::XP1140 => {},
        _ => {
            return Err(ParseError::UnsupportedVersion { version: header.version });
        },
    }
    let ghost mut done: Seq<int> = Seq::empty();
    let mut i: usize = 2;
    let ghost old_len = old(nav_graph).edges@.len() as int;
    proof {
        assert(hold_rows_applied(nav_graph.edges@, old_len, ls, done, nodes));
    }
    while i < lines.len()
        invariant
            2 <= i,
            ls == spec_lines(text@),
            lines@.len() == ls.len(),
            forall|k: int| 0 <= k < ls.len() ==> ls[k] == lines@[k]@,
            ls.len() >= 2 && bom_ok(ls[0]),
            sp_header_line(ls[1], FileKind::Hold) == Some(header@),
            header@.version == DataVersion::XP1140,
            okf == hold_ok_fn(nodes),
            nav_graph.wf(),
            nav_graph.nodes@ == nodes,
            nodes == old(nav_graph).nodes@,
            old_len == old(nav_graph).edges@.len() as int,
            nav_graph.edges@.len() >= old_len,
            forall|p: int|
                0 <= p < old_len ==> nav_graph.edges@[p] == old(nav_graph).edges@[p],
            sp_shape(ls, 2, okf) == shape_prepend(done, sp_shape(ls, i as int, okf)),
            hold_rows_applied(nav_graph.edges@, old_len, ls, done, nodes),
        decreases lines@.len() - i,
    {
        let line = &lines[i];
        if str_eq(line.as_str(), "99") {
            proof {
                assert(sp_shape(ls, i as int, okf) == FileShape::Rows(Seq::<int>::empty()));
                assert(done + Seq::<int>::empty() =~= done);
                assert(sp_shape(ls, 2, okf) == FileShape::Rows(done));
            }
            return Ok(header);
        }
        if line.as_str().unicode_len() == 0 {
            i = i + 1;
            continue;
        }
        match parse_row(line.as_str()) {
            Ok(row) => {
                let ghost edges_b = nav_graph.edges@;
                match apply_row(nav_graph, &row) {
                    Ok(()) => {
                        proof {
                            assert(okf(ls[i as int]));
                            let v = sp_hold_row(ls[i as int]).unwrap();
                            assert(hold_row_matches(row, v));
                            lemma_hold_rows_applied_extend(
                                edges_b,
                                nav_graph.edges@,
                                old_len,
                                ls,
                                done,
                                nodes,
                                i as int,
                            );
                            let rest = sp_shape(ls, i as int + 1, okf);
                            if rest is Rows {
                                let ridx = rest->Rows_0;
                                assert((done + seq![i as int]) + ridx =~= done + (seq![i as int]
                                    + ridx));
                            }
                            let done_b = done;
                            done = done + seq![i as int];
                            assert(done =~= done_b.push(i as int));
                            assert(hold_rows_applied(nav_graph.edges@, old_len, ls, done, nodes));
                        }
                        i = i + 1;
                    },
                    Err(e) => {
                        proof {
                            assert(!okf(ls[i as int]));
                            assert(sp_shape(ls, i as int, okf) == FileShape::BadRow(i as int));
                        }
                        return Err(e);
                    },
                }
            },
            Err(e) => {
                proof {
                    assert(!okf(ls[i as int]));
                    assert(sp_shape(ls, i as int, okf) == FileShape::BadRow(i as int));
                }
                return Err(
                    ParseError::Parse {
                        rendered: String::from_str("the row does not fit the hold row grammar"),
                        stage: String::from_str("hold row"),
                        pos: e.pos,
                    },
                );
            },
        }
    }
    Err(ParseError::MissingLine)
}

} // verus!

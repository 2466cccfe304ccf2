//! Rows of `earth_awy.dat`: airway segments between two waypoint
//! references, expanded to one edge per airway name (and per direction).

use vstd::prelude::*;
use vstd::string::*;

use crate::navdata::scan::{
    break_end, is_space, skip_spaces, sp_col_char, sp_col_token1, sp_col_uint, spec_lines,
    split_lines, str_eq, RowError, Scanner,
};
use crate::navdata::graph::{sp_first_match, DiGraph, GraphEdge};
use crate::navdata::{
    bom_ok, parse_header, shape_prepend, sp_header_line, sp_ref_type, sp_shape, FileKind,
    FileShape, Header, NavEdge, ParsedNodeRef, ParsedNodeRefType, ParseError,
};

verus! {

/// The payload of one airway edge.
#[derive(Debug, Clone)]
pub struct AwyEdge {
    pub base_fl: u16,
    pub top_fl: u16,
    pub is_high: bool,
    pub name: String,
}

/// The raw columns of one airway row.
pub ghost struct AwyRowV {
    pub first_ident: Seq<char>,
    pub first_icao: Seq<char>,
    pub first_typ: ParsedNodeRefType,
    pub second_ident: Seq<char>,
    pub second_icao: Seq<char>,
    pub second_typ: ParsedNodeRefType,
    pub direction: char,
    pub is_high: bool,
    pub base_fl: int,
    pub top_fl: int,
    pub names: Seq<Seq<char>>,
}

/// The hyphen-separated airway names ending the row: each name is one to
/// five characters, free of spaces and hyphens; after the last, only
/// spaces may remain.
pub open spec fn sp_awy_names(s: Seq<char>, i: int) -> Option<Seq<Seq<char>>>
    recommends
        0 <= i <= s.len(),
    decreases s.len() - i when 0 <= i <= s.len() via sp_awy_names_decreases
{
    let e = break_end(s, i, '-');
    if e == i || e - i > 5 {
        None
    } else {
        let name = s.subrange(i, e);
        if e < s.len() && s[e] == '-' {
            match sp_awy_names(s, e + 1) {
                None => None,
                Some(rest) => Some(seq![name] + rest),
            }
        } else {
            if skip_spaces(s, e) == s.len() {
                Some(seq![name])
            } else {
                None
            }
        }
    }
}

#[via_fn]
proof fn sp_awy_names_decreases(s: Seq<char>, i: int) {
    crate::navdata::scan::lemma_break_end_bounds(s, i, '-');
}

/// One waypoint-reference column triple: ident, region, type code.  The
/// first reference of a row may begin without leading spaces.
pub open spec fn sp_awy_ref(s: Seq<char>, i: int, lead: bool) -> Option<
    (Seq<char>, Seq<char>, ParsedNodeRefType, int),
> {
    match (if lead {
        crate::navdata::scan::sp_col_token1_0(s, i, 5)
    } else {
        sp_col_token1(s, i, 5)
    }) {
        None => None,
        Some((ident, p)) => match sp_col_token1(s, p, 2) {
            None => None,
            Some((icao, p)) => match sp_col_uint(s, p, u8::MAX as int) {
                None => None,
                Some((code, p)) => match sp_ref_type(code) {
                    None => None,
                    Some(typ) => Some((ident, icao, typ, p)),
                },
            },
        },
    }
}

/// The airway-row grammar: two waypoint references, the direction letter,
/// the high/low flag, the flight-level band, and the airway names.
pub open spec fn sp_awy_row(s: Seq<char>) -> Option<AwyRowV> {
    match sp_awy_ref(s, 0, true) {
        None => None,
        Some((first_ident, first_icao, first_typ, p)) => match sp_awy_ref(s, p, false) {
            None => None,
            Some((second_ident, second_icao, second_typ, p)) => match sp_col_char(s, p) {
                None => None,
                Some((direction, p)) => match sp_col_uint(s, p, u8::MAX as int) {
                    None => None,
                    Some((high_code, p)) => {
                        if !(high_code == 1 || high_code == 2) {
                            None
                        } else {
                            match sp_col_uint(s, p, u16::MAX as int) {
                                None => None,
                                Some((base_fl, p)) => match sp_col_uint(s, p, u16::MAX as int) {
                                    None => None,
                                    Some((top_fl, p)) => {
                                        if !(p < s.len() && is_space(s[p])) {
                                            None
                                        } else {
                                            match sp_awy_names(s, skip_spaces(s, p)) {
                                                None => None,
                                                Some(names) => Some(
                                                    AwyRowV {
                                                        first_ident,
                                                        first_icao,
                                                        first_typ,
                                                        second_ident,
                                                        second_icao,
                                                        second_typ,
                                                        direction,
                                                        is_high: high_code == 2,
                                                        base_fl,
                                                        top_fl,
                                                        names,
                                                    },
                                                ),
                                            }
                                        }
                                    },
                                },
                            }
                        }
                    },
                },
            },
        },
    }
}

/// One parsed airway row, before resolution against the graph.
#[derive(Debug, Clone)]
pub struct ParsedAwyEdge {
    pub first: ParsedNodeRef,
    pub second: ParsedNodeRef,
    pub direction: char,
    pub is_high: bool,
    pub base_fl: u16,
    pub top_fl: u16,
    pub names: Vec<String>,
}

/// Whether a parsed airway row carries exactly the decoded content of a
/// row.
pub open spec fn awy_row_matches(e: ParsedAwyEdge, v: AwyRowV) -> bool {
    &&& e.first.ident@ == v.first_ident
    &&& e.first.icao_region@ == v.first_icao
    &&& e.first.typ == v.first_typ
    &&& e.second.ident@ == v.second_ident
    &&& e.second.icao_region@ == v.second_icao
    &&& e.second.typ == v.second_typ
    &&& e.direction == v.direction
    &&& e.is_high == v.is_high
    &&& e.base_fl == v.base_fl
    &&& e.top_fl == v.top_fl
    &&& e.names@.len() == v.names.len()
    &&& forall|k: int| 0 <= k < v.names.len() ==> e.names@[k]@ == v.names[k]
}

/// Parse one waypoint-reference triple.
fn parse_ref<'a>(sc: &mut Scanner<'a>, lead: bool) -> (r: Result<ParsedNodeRef, RowError>)
    requires
        old(sc).wf(),
    ensures
        final(sc).wf(),
        final(sc).src() == old(sc).src(),
        r is Ok <==> sp_awy_ref(old(sc).src(), old(sc).at(), lead) is Some,
        r matches Ok(w) ==> sp_awy_ref(old(sc).src(), old(sc).at(), lead) == Some(
            (w.ident@, w.icao_region@, w.typ, final(sc).at()),
        ),
{
    let ident = if lead {
        sc.token1_max0(5)?
    } else {
        sc.token1_max(5)?
    };
    let icao_region = sc.token1_max(2)?;
    let code = sc.col_u8()?;
    let typ = if code == 2 {
        ParsedNodeRefType::Vhf
    } else if code == 3 {
        ParsedNodeRefType::Ndb
    } else if code == 11 {
        ParsedNodeRefType::Fix
    } else {
        return Err(RowError { pos: 0 });
    };
    Ok(ParsedNodeRef { ident, icao_region, typ })
}

/// Parse the hyphen-separated airway names ending the row.
fn parse_names<'a>(sc: &mut Scanner<'a>) -> (r: Result<Vec<String>, RowError>)
    requires
        old(sc).wf(),
    ensures
        final(sc).wf(),
        final(sc).src() == old(sc).src(),
        ({
            let s = old(sc).src();
            let i = old(sc).at();
            &&& (r is Ok <==> i < s.len() && is_space(s[i]) && sp_awy_names(s, skip_spaces(s, i))
                is Some)
            &&& (r matches Ok(ns) ==> (sp_awy_names(s, skip_spaces(s, i)) matches Some(v)
                && ns@.len() == v.len() && (forall|k: int|
                0 <= k < v.len() ==> ns@[k]@ == #[trigger] v[k])))
        }),
{
    let ghost s = old(sc).src();
    sc.space1()?;
    let mut names: Vec<String> = Vec::new();
    loop
        invariant
            sc.wf(),
            sc.src() == s,
            s == old(sc).src(),
            old(sc).at() < s.len() && is_space(s[old(sc).at()]),
            0 <= sc.at() <= s.len(),
            ({
                let full = sp_awy_names(s, skip_spaces(s, old(sc).at()));
                let here = sp_awy_names(s, sc.at());
                &&& (here is Some ==> (full matches Some(fv) && (here matches Some(hv)
                    && fv =~= names@.map_values(|n: String| n@) + hv)))
                &&& (here is None ==> full is None)
            }),
        decreases s.len() - sc.at(),
    {
        let ghost pos0 = sc.at();
        let name = sc.take_till_space_or('-');
        if name.as_str().unicode_len() == 0 || name.as_str().unicode_len() > 5 {
            return Err(RowError { pos: 0 });
        }
        let ghost prev = names@;
        names.push(name);
        proof {
            assert(names@.map_values(|n: String| n@) =~= prev.map_values(|n: String| n@).push(
                name@,
            ));
        }
        if !sc.at_end() && sc.peek_is('-') {
            sc.bump();
            proof {
                let here = sp_awy_names(s, sc.at());
                if here is Some {
                    let hv = here.unwrap();
                    assert((prev.map_values(|n: String| n@) + (seq![name@] + hv)) =~= (
                    names@.map_values(|n: String| n@) + hv));
                }
            }
        } else {
            sc.skip_spaces();
            if !sc.at_end() {
                return Err(RowError { pos: 0 });
            }
            proof {
                assert(sp_awy_names(s, pos0) == Some(seq![name@]));
                assert((prev.map_values(|n: String| n@) + seq![name@]) =~= names@.map_values(
                    |n: String| n@,
                ));
            }
            return Ok(names);
        }
    }
}

/// Parse one airway row.
pub fn parse_row(line: &str) -> (r: Result<ParsedAwyEdge, RowError>)
    ensures
        r is Ok <==> sp_awy_row(line@) is Some,
        r matches Ok(e) ==> (sp_awy_row(line@) matches Some(v) && awy_row_matches(e, v)),
{
    let mut sc = Scanner::new(line);
    let first = parse_ref(&mut sc, true)?;
    let second = parse_ref(&mut sc, false)?;
    let direction = sc.col_char()?;
    let high_code = sc.col_u8()?;
    let is_high = if high_code == 1 {
        false
    } else if high_code == 2 {
        true
    } else {
        return Err(RowError { pos: 0 });
    };
    let base_fl = sc.col_u16()?;
    let top_fl = sc.col_u16()?;
    let names = parse_names(&mut sc)?;
    Ok(ParsedAwyEdge { first, second, direction, is_high, base_fl, top_fl, names })
}

/// Whether one stored edge is the airway edge a row and name call for.
pub open spec fn awy_edge_is(e: GraphEdge, a: int, b: int, v: AwyRowV, name: Seq<char>) -> bool {
    &&& e.source == a
    &&& e.target == b
    &&& (e.weight matches NavEdge::Airway(ae) && ae.base_fl == v.base_fl && ae.top_fl == v.top_fl
        && ae.is_high == v.is_high && ae.name@ == name)
}

/// How many edges one airway row contributes: one per name, twice for the
/// bidirectional direction code.
pub open spec fn sp_awy_row_count(v: AwyRowV) -> int {
    v.names.len() * (if v.direction == 'N' {
        2int
    } else {
        1int
    })
}

/// The edges a row lays down from offset `off` on: per name, forward and
/// backward for `N`, forward only for `F`, backward only for `B`.
pub open spec fn awy_row_edges_at(
    edges: Seq<GraphEdge>,
    off: int,
    v: AwyRowV,
    i1: int,
    i2: int,
) -> bool {
    if v.direction == 'N' {
        forall|k: int|
            0 <= k < v.names.len() ==> awy_edge_is(edges[off + 2 * k], i1, i2, v, #[trigger] v.names[k])
                && awy_edge_is(edges[off + 2 * k + 1], i2, i1, v, v.names[k])
    } else if v.direction == 'F' {
        forall|k: int|
            0 <= k < v.names.len() ==> awy_edge_is(edges[off + k], i1, i2, v, #[trigger] v.names[k])
    } else {
        forall|k: int|
            0 <= k < v.names.len() ==> awy_edge_is(edges[off + k], i2, i1, v, #[trigger] v.names[k])
    }
}

/// For every airway row whose direction is `N`, the graph holds both
/// directed edges, for each of the row's names.
pub proof fn lemma_bidirectional_edges(
    g: DiGraph,
    off: int,
    v: AwyRowV,
    i1: int,
    i2: int,
    k: int,
)
    requires
        v.direction == 'N',
        awy_row_edges_at(g.edges@, off, v, i1, i2),
        0 <= k < v.names.len(),
        0 <= off,
        off + 2 * v.names.len() <= g.edges@.len(),
    ensures
        crate::navdata::graph::sp_awy_edge(g, v.names[k], i1, i2),
        crate::navdata::graph::sp_awy_edge(g, v.names[k], i2, i1),
{
    assert(awy_edge_is(g.edges@[off + 2 * k], i1, i2, v, v.names[k]));
    assert(awy_edge_is(g.edges@[off + 2 * k + 1], i2, i1, v, v.names[k]));
}

/// Whether a line is a fully serviceable airway row against the given
/// vertices: it fits the grammar, both references resolve, and the
/// direction code is one of `B`, `F`, `N`.
pub open spec fn awy_row_full_ok(nodes: Seq<crate::navdata::NavEntry>, l: Seq<char>) -> bool {
    &&& sp_awy_row(l) is Some
    &&& ({
        let v = sp_awy_row(l).unwrap();
        &&& sp_first_match(nodes, 0, v.first_ident, v.first_icao, v.first_typ) is Some
        &&& sp_first_match(nodes, 0, v.second_ident, v.second_icao, v.second_typ) is Some
        &&& (v.direction == 'B' || v.direction == 'F' || v.direction == 'N')
    })
}

pub open spec fn awy_ok_fn(nodes: Seq<crate::navdata::NavEntry>) -> spec_fn(Seq<char>) -> bool {
    |l: Seq<char>| awy_row_full_ok(nodes, l)
}

/// The rows listed in `done` have been applied in order starting at edge
/// offset `off`.
pub open spec fn rows_applied(
    edges: Seq<GraphEdge>,
    off: int,
    ls: Seq<Seq<char>>,
    done: Seq<int>,
    nodes: Seq<crate::navdata::NavEntry>,
) -> bool
    decreases done.len(),
{
    if done.len() == 0 {
        edges.len() == off
    } else {
        let v = sp_awy_row(ls[done[0]]).unwrap();
        let i1 = sp_first_match(nodes, 0, v.first_ident, v.first_icao, v.first_typ).unwrap();
        let i2 = sp_first_match(nodes, 0, v.second_ident, v.second_icao, v.second_typ).unwrap();
        &&& 0 <= sp_awy_row_count(v)
        &&& off + sp_awy_row_count(v) <= edges.len()
        &&& awy_row_edges_at(edges, off, v, i1, i2)
        &&& rows_applied(edges, off + sp_awy_row_count(v), ls, done.drop_first(), nodes)
    }
}

/// Rows already applied stay applied when more edges are appended after
/// them.
proof fn lemma_rows_applied_extend(
    edges: Seq<GraphEdge>,
    edges2: Seq<GraphEdge>,
    off: int,
    ls: Seq<Seq<char>>,
    done: Seq<int>,
    nodes: Seq<crate::navdata::NavEntry>,
    b: int,
)
    requires
        0 <= off,
        rows_applied(edges, off, ls, done, nodes),
        edges2.len() >= edges.len(),
        forall|p: int| 0 <= p < edges.len() ==> edges2[p] == edges[p],
        awy_row_full_ok(nodes, ls[b]),
        ({
            let v = sp_awy_row(ls[b]).unwrap();
            let i1 = sp_first_match(nodes, 0, v.first_ident, v.first_icao, v.first_typ).unwrap();
            let i2 = sp_first_match(
                nodes,
                0,
                v.second_ident,
                v.second_icao,
                v.second_typ,
            ).unwrap();
            &&& edges2.len() == edges.len() + sp_awy_row_count(v)
            &&& awy_row_edges_at(edges2, edges.len() as int, v, i1, i2)
        }),
    ensures
        rows_applied(edges2, off, ls, done.push(b), nodes),
    decreases done.len(),
{
    if done.len() == 0 {
        assert(done.push(b)[0] == b);
        assert(done.push(b).drop_first() =~= Seq::<int>::empty());
        let v = sp_awy_row(ls[b]).unwrap();
        assert(rows_applied(edges2, off + sp_awy_row_count(v), ls, Seq::<int>::empty(), nodes));
    } else {
        let v0 = sp_awy_row(ls[done[0]]).unwrap();
        let i1 = sp_first_match(nodes, 0, v0.first_ident, v0.first_icao, v0.first_typ).unwrap();
        let i2 = sp_first_match(
            nodes,
            0,
            v0.second_ident,
            v0.second_icao,
            v0.second_typ,
        ).unwrap();
        assert(awy_row_edges_at(edges2, off, v0, i1, i2)) by {
            if v0.direction == 'N' {
                assert forall|k: int| 0 <= k < v0.names.len() implies awy_edge_is(
                    edges2[off + 2 * k],
                    i1,
                    i2,
                    v0,
                    #[trigger] v0.names[k],
                ) && awy_edge_is(edges2[off + 2 * k + 1], i2, i1, v0, v0.names[k]) by {
                    assert(edges2[off + 2 * k] == edges[off + 2 * k]);
                    assert(edges2[off + 2 * k + 1] == edges[off + 2 * k + 1]);
                }
            } else {
                assert forall|k: int| 0 <= k < v0.names.len() implies awy_edge_is(
                    edges2[off + k],
                    (if v0.direction == 'F' {
                        i1
                    } else {
                        i2
                    }),
                    (if v0.direction == 'F' {
                        i2
                    } else {
                        i1
                    }),
                    v0,
                    #[trigger] v0.names[k],
                ) by {
                    assert(edges2[off + k] == edges[off + k]);
                }
            }
        }
        lemma_rows_applied_extend(
            edges,
            edges2,
            off + sp_awy_row_count(v0),
            ls,
            done.drop_first(),
            nodes,
            b,
        );
        assert(done.push(b)[0] == done[0]);
        assert(done.push(b).drop_first() =~= done.drop_first().push(b));
    }
}

/// Apply one parsed airway row to the graph: resolve both references, then
/// lay down the edges its direction calls for, one set per name.
pub fn apply_row(g: &mut DiGraph, row: &ParsedAwyEdge) -> (r: Result<(), ParseError>)
    requires
        old(g).wf(),
    ensures
        final(g).wf(),
        final(g).nodes@ == old(g).nodes@,
        ({
            let nodes = old(g).nodes@;
            let r1 = sp_first_match(nodes, 0, row.first.ident@, row.first.icao_region@, row.first.typ);
            let r2 = sp_first_match(
                nodes,
                0,
                row.second.ident@,
                row.second.icao_region@,
                row.second.typ,
            );
            &&& (r1 is None ==> (r matches Err(ParseError::ReferencedNonexistentWpt { wpt })
                && wpt@ == row.first.ident@) && final(g).edges@ == old(g).edges@)
            &&& (r1 is Some && r2 is None ==> (r matches Err(
                ParseError::ReferencedNonexistentWpt { wpt },
            ) && wpt@ == row.second.ident@) && final(g).edges@ == old(g).edges@)
            &&& (r1 is Some && r2 is Some && !(row.direction == 'B' || row.direction == 'F'
                || row.direction == 'N') ==> (r matches Err(ParseError::InvalidAwyDir { dir })
                && dir == row.direction) && final(g).edges@ == old(g).edges@)
            &&& (r is Ok <==> r1 is Some && r2 is Some && (row.direction == 'B' || row.direction
                == 'F' || row.direction == 'N'))
            &&& (r is Ok ==> (forall|v: AwyRowV|
                awy_row_matches(*row, v) ==> final(g).edges@.len() == old(g).edges@.len()
                    + sp_awy_row_count(v) && awy_row_edges_at(
                    final(g).edges@,
                    old(g).edges@.len() as int,
                    v,
                    r1.unwrap(),
                    r2.unwrap(),
                )) && (forall|p: int|
                0 <= p < old(g).edges@.len() ==> final(g).edges@[p] == old(g).edges@[p]))
        }),
{
    let i1 = match crate::navdata::graph::resolve_wpt(&g.nodes, &row.first) {
        Some(i) => i,
        None => {
            return Err(
                ParseError::ReferencedNonexistentWpt { wpt: row.first.ident.clone() },
            );
        },
    };
    let i2 = match crate::navdata::graph::resolve_wpt(&g.nodes, &row.second) {
        Some(i) => i,
        None => {
            return Err(
                ParseError::ReferencedNonexistentWpt { wpt: row.second.ident.clone() },
            );
        },
    };
    if !(row.direction == 'B' || row.direction == 'F' || row.direction == 'N') {
        return Err(ParseError::InvalidAwyDir { dir: row.direction });
    }
    let mut k: usize = 0;
    let per: usize = if row.direction == 'N' {
        2
    } else {
        1
    };
    while k < row.names.len()
        invariant
            g.wf(),
            g.nodes@ == old(g).nodes@,
            i1 < g.nodes@.len(),
            i2 < g.nodes@.len(),
            k <= row.names@.len(),
            per == (if row.direction == 'N' {
                2int
            } else {
                1int
            }),
            row.direction == 'B' || row.direction == 'F' || row.direction == 'N',
            g.edges@.len() == old(g).edges@.len() + per * k,
            forall|p: int| 0 <= p < old(g).edges@.len() ==> g.edges@[p] == old(g).edges@[p],
            forall|v: AwyRowV|
                awy_row_matches(*row, v) ==> (if v.direction == 'N' {
                    forall|j: int|
                        0 <= j < k ==> awy_edge_is(
                            g.edges@[old(g).edges@.len() + 2 * j],
                            i1 as int,
                            i2 as int,
                            v,
                            #[trigger] v.names[j],
                        ) && awy_edge_is(
                            g.edges@[old(g).edges@.len() + 2 * j + 1],
                            i2 as int,
                            i1 as int,
                            v,
                            v.names[j],
                        )
                } else if v.direction == 'F' {
                    forall|j: int|
                        0 <= j < k ==> awy_edge_is(
                            g.edges@[old(g).edges@.len() + j],
                            i1 as int,
                            i2 as int,
                            v,
                            #[trigger] v.names[j],
                        )
                } else {
                    forall|j: int|
                        0 <= j < k ==> awy_edge_is(
                            g.edges@[old(g).edges@.len() + j],
                            i2 as int,
                            i1 as int,
                            v,
                            #[trigger] v.names[j],
                        )
                }),
        decreases row.names@.len() - k,
    {
        let name = &row.names[k];
        let ghost edges_b = g.edges@;
        if row.direction == 'N' || row.direction == 'F' {
            g.add_edge(
                i1,
                i2,
                NavEdge::Airway(
                    AwyEdge {
                        base_fl: row.base_fl,
                        top_fl: row.top_fl,
                        is_high: row.is_high,
                        name: name.clone(),
                    },
                ),
            );
        }
        if row.direction == 'N' || row.direction == 'B' {
            g.add_edge(
                i2,
                i1,
                NavEdge::Airway(
                    AwyEdge {
                        base_fl: row.base_fl,
                        top_fl: row.top_fl,
                        is_high: row.is_high,
                        name: name.clone(),
                    },
                ),
            );
        }
        proof {
            assert(forall|p: int| 0 <= p < edges_b.len() ==> g.edges@[p] == edges_b[p]);
            if row.direction == 'N' {
                assert(g.edges@[edges_b.len() as int].source == i1 as int);
                assert(g.edges@[edges_b.len() as int + 1].source == i2 as int);
            }
        }
        k = k + 1;
    }
    Ok(())
}

/// Parse a whole airway file and lay its edges into the graph.
pub fn parse_file(text: &str, nav_graph: &mut DiGraph) -> (r: Result<Header, ParseError>)
    requires
        old(nav_graph).wf(),
    ensures
        final(nav_graph).wf(),
        final(nav_graph).nodes@ == old(nav_graph).nodes@,
        final(nav_graph).edges@.len() >= old(nav_graph).edges@.len(),
        forall|p: int|
            0 <= p < old(nav_graph).edges@.len() ==> final(nav_graph).edges@[p] == old(
                nav_graph,
            ).edges@[p],
        ({
            let ls = spec_lines(text@);
            let nodes = old(nav_graph).nodes@;
            let shape = sp_shape(ls, 2, awy_ok_fn(nodes));
            let hdr = sp_header_line(ls[1], FileKind::Awy);
            &&& (r is Ok <==> ls.len() >= 2 && bom_ok(ls[0]) && hdr is Some && shape matches FileShape::Rows(_))
            &&& (r matches Ok(h) ==> hdr == Some(h@) && (shape matches FileShape::Rows(idx)
                && rows_applied(
                final(nav_graph).edges@,
                old(nav_graph).edges@.len() as int,
                ls,
                idx,
                nodes,
            )))
            &&& (ls.len() == 0 ==> r matches Err(ParseError::MissingLine))
            &&& (ls.len() >= 1 && !bom_ok(ls[0]) ==> (r matches Err(ParseError::BadBOM { bom })
                && bom@ == ls[0]))
            &&& (ls.len() == 1 && bom_ok(ls[0]) ==> r matches Err(ParseError::MissingLine))
            &&& (ls.len() >= 2 && bom_ok(ls[0]) && hdr is None ==> (r matches Err(
                ParseError::Parse { stage, .. },
            ) && stage@ == "header"@))
            &&& (ls.len() >= 2 && bom_ok(ls[0]) && hdr is Some && (shape matches FileShape::NoSentinel)
                ==> r matches Err(ParseError::MissingLine))
            &&& (ls.len() >= 2 && bom_ok(ls[0]) && hdr is Some && ((shape matches FileShape::BadRow(_))
                && sp_awy_row(ls[shape->BadRow_0]) is None) ==> (r matches Err(ParseError::Parse { stage, .. })
                && stage@ == "airway row"@))
            &&& (ls.len() >= 2 && bom_ok(ls[0]) && hdr is Some && ((shape matches FileShape::BadRow(_))
                && sp_awy_row(ls[shape->BadRow_0]) is Some && sp_first_match(
                nodes,
                0,
                sp_awy_row(ls[shape->BadRow_0]).unwrap().first_ident,
                sp_awy_row(ls[shape->BadRow_0]).unwrap().first_icao,
                sp_awy_row(ls[shape->BadRow_0]).unwrap().first_typ,
            ) is None) ==> (r matches Err(ParseError::ReferencedNonexistentWpt { wpt }) && wpt@
                == sp_awy_row(ls[shape->BadRow_0]).unwrap().first_ident))
            &&& (ls.len() >= 2 && bom_ok(ls[0]) && hdr is Some && ((shape matches FileShape::BadRow(_))
                && sp_awy_row(ls[shape->BadRow_0]) is Some && sp_first_match(
                nodes,
                0,
                sp_awy_row(ls[shape->BadRow_0]).unwrap().first_ident,
                sp_awy_row(ls[shape->BadRow_0]).unwrap().first_icao,
                sp_awy_row(ls[shape->BadRow_0]).unwrap().first_typ,
            ) is Some && sp_first_match(
                nodes,
                0,
                sp_awy_row(ls[shape->BadRow_0]).unwrap().second_ident,
                sp_awy_row(ls[shape->BadRow_0]).unwrap().second_icao,
                sp_awy_row(ls[shape->BadRow_0]).unwrap().second_typ,
            ) is None) ==> (r matches Err(ParseError::ReferencedNonexistentWpt { wpt }) && wpt@
                == sp_awy_row(ls[shape->BadRow_0]).unwrap().second_ident))
            &&& (ls.len() >= 2 && bom_ok(ls[0]) && hdr is Some && ((shape matches FileShape::BadRow(_))
                && sp_awy_row(ls[shape->BadRow_0]) is Some && sp_first_match(
                nodes,
                0,
                sp_awy_row(ls[shape->BadRow_0]).unwrap().first_ident,
                sp_awy_row(ls[shape->BadRow_0]).unwrap().first_icao,
                sp_awy_row(ls[shape->BadRow_0]).unwrap().first_typ,
            ) is Some && sp_first_match(
                nodes,
                0,
                sp_awy_row(ls[shape->BadRow_0]).unwrap().second_ident,
                sp_awy_row(ls[shape->BadRow_0]).unwrap().second_icao,
                sp_awy_row(ls[shape->BadRow_0]).unwrap().second_typ,
            ) is Some) ==> (r matches Err(ParseError::InvalidAwyDir { dir }) && dir == sp_awy_row(
                ls[shape->BadRow_0],
            ).unwrap().direction))
        }),
{
    let lines = split_lines(text);
    let ghost ls = spec_lines(text@);
    let ghost nodes = old(nav_graph).nodes@;
    let ghost okf = awy_ok_fn(nodes);
    proof {
        assert(lines@.map_values(|l: String| l@) =~= ls);
    }
    let header = parse_header(&lines, FileKind::Awy)?;
    let ghost mut done: Seq<int> = Seq::empty();
    let mut i: usize = 2;
    let ghost old_len = old(nav_graph).edges@.len() as int;
    proof {
        assert(rows_applied(nav_graph.edges@, old_len, ls, done, nodes));
    }
    while i < lines.len()
        invariant
            2 <= i,
            ls == spec_lines(text@),
            lines@.len() == ls.len(),
            forall|k: int| 0 <= k < ls.len() ==> ls[k] == lines@[k]@,
            ls.len() >= 2 && bom_ok(ls[0]),
            sp_header_line(ls[1], FileKind::Awy) == Some(header@),
            okf == awy_ok_fn(nodes),
            nav_graph.wf(),
            nav_graph.nodes@ == nodes,
            nodes == old(nav_graph).nodes@,
            old_len == old(nav_graph).edges@.len() as int,
            nav_graph.edges@.len() >= old_len,
            forall|p: int|
                0 <= p < old_len ==> nav_graph.edges@[p] == old(nav_graph).edges@[p],
            sp_shape(ls, 2, okf) == shape_prepend(done, sp_shape(ls, i as int, okf)),
            rows_applied(nav_graph.edges@, old_len, ls, done, nodes),
        decreases lines@.len() - i,
    {
        let line = &lines[i];
        if str_eq(line.as_str(), "99") {
            proof {
                assert(sp_shape(ls, i as int, okf) == FileShape::Rows(Seq::<int>::empty()));
                assert(done + Seq::<int>::empty() =~= done);
                assert(sp_shape(ls, 2, okf) == FileShape::Rows(done));
            }
            return Ok(header);
        }
        if line.as_str().unicode_len() == 0 {
            i = i + 1;
            continue;
        }
        match parse_row(line.as_str()) {
            Ok(row) => {
                let ghost edges_b = nav_graph.edges@;
                match apply_row(nav_graph, &row) {
                    Ok(()) => {
                        proof {
                            assert(okf(ls[i as int]));
                            let v = sp_awy_row(ls[i as int]).unwrap();
                            assert(awy_row_matches(row, v));
                            lemma_rows_applied_extend(
                                edges_b,
                                nav_graph.edges@,
                                old_len,
                                ls,
                                done,
                                nodes,
                                i as int,
                            );
                            let rest = sp_shape(ls, i as int + 1, okf);
                            if rest is Rows {
                                let ridx = rest->Rows_0;
                                assert((done + seq![i as int]) + ridx =~= done + (seq![i as int]
                                    + ridx));
                            }
                            let done_b = done;
                            done = done + seq![i as int];
                            assert(done =~= done_b.push(i as int));
                            assert(rows_applied(nav_graph.edges@, old_len, ls, done, nodes));
                        }
                        i = i + 1;
                    },
                    Err(e) => {
                        proof {
                            assert(!okf(ls[i as int]));
                            assert(sp_shape(ls, i as int, okf) == FileShape::BadRow(i as int));
                        }
                        return Err(e);
                    },
                }
            },
            Err(e) => {
                proof {
                    assert(!okf(ls[i as int]));
                    assert(sp_shape(ls, i as int, okf) == FileShape::BadRow(i as int));
                }
                return Err(
                    ParseError::Parse {
                        rendered: String::from_str("the row does not fit the airway row grammar"),
                        stage: String::from_str("airway row"),
                        pos: e.pos,
                    },
                );
            },
        }
    }
    Err(ParseError::MissingLine)
}

} // verus!

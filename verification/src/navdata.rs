//! The navigation database: the shared header dialect, the five file
//! grammars, the navigation graph and its queries.

pub mod airways;
pub mod cifp;
pub mod fix;
pub mod graph;
pub mod hold;
pub mod nav;
pub mod scan;

use vstd::prelude::*;
use vstd::string::*;

use crate::navdata::scan::{
    all_digits, digits_val, find_char, lemma_digits_val_bound, pow10, skip_spaces, spec_lines,
    str_eq, Dec, RowError, Scanner,
};

verus! {

/// The data format version named in a file header.
#[derive(Debug, Copy, Clone, PartialEq, Eq, Structural)]
pub enum DataVersion {
    XP1100,
    XP1101,
    XP1140,
    XP1150,
    XP1200,
}

/// Which of the four primary files a header is read for; decides the
/// accepted metadata tags.
#[derive(Debug, Copy, Clone, PartialEq, Eq, Structural)]
pub enum FileKind {
    Fix,
    Nav,
    Awy,
    Hold,
}

/// The two-line preamble of every navigation data file.
#[derive(Debug, Clone)]
pub struct Header {
    pub version: DataVersion,
    pub cycle: u16,
    pub build: u32,
    pub copyright: String,
}

/// The mathematical content of a parsed header.
pub ghost struct HeaderV {
    pub version: DataVersion,
    pub cycle: int,
    pub build: int,
    pub copyright: Seq<char>,
}

impl View for Header {
    type V = HeaderV;

    open spec fn view(&self) -> HeaderV {
        HeaderV {
            version: self.version,
            cycle: self.cycle as int,
            build: self.build as int,
            copyright: self.copyright@,
        }
    }
}

/// Everything that can go wrong while building the database from the file
/// texts.  Reading the files from disk is the surrounding program's
/// business, so an I/O failure never arises here.
#[derive(Debug)]
pub enum ParseError {
    /// A grammar failure: which grammar, and the character position within
    /// the offending line.
    Parse { rendered: String, stage: String, pos: usize },
    /// The first line was neither `A` nor `I`.
    BadBOM { bom: String },
    /// The final line is not the sentinel `99`.
    BadLastLine { last_line: String },
    /// A line was expected but the file had no more.
    MissingLine,
    /// The parsed version is not in the per-format accept list.
    UnsupportedVersion { version: DataVersion },
    /// Two files of one database carry different AIRAC cycles.
    CycleMismatch { established_cycle: u16, new_cycle: u16 },
    /// An airway or hold row named a waypoint that is not in the graph.
    ReferencedNonexistentWpt { wpt: String },
    /// An airway direction column other than `B`, `F` or `N`.
    InvalidAwyDir { dir: char },
    /// A hold direction column other than `L` or `R`.
    InvalidHoldDir { dir: char },
    /// A hold row with both a time leg length and a DME leg length.
    ConflictingHoldLegLengths { minutes: Dec, dme: Dec },
}

/// The four-character version code at the start of a header line.
pub open spec fn sp_version(code: Seq<char>) -> Option<DataVersion> {
    if code == "1100"@ {
        Some(DataVersion::XP1100)
    } else if code == "1101"@ {
        Some(DataVersion::XP1101)
    } else if code == "1140"@ {
        Some(DataVersion::XP1140)
    } else if code == "1150"@ {
        Some(DataVersion::XP1150)
    } else if code == "1200"@ {
        Some(DataVersion::XP1200)
    } else {
        None
    }
}

/// The metadata tags each file kind accepts.
pub open spec fn sp_tag_ok(kind: FileKind, tag: Seq<char>) -> bool {
    match kind {
        FileKind::Fix => tag == "FixXP1100"@ || tag == "FixXP1200"@,
        FileKind::Nav => tag == "NavXP1200"@ || tag == "NavXP1150"@,
        FileKind::Awy => tag == "AwyXP1100"@,
        FileKind::Hold => tag == "HoldXP1140"@,
    }
}

/// The header-line grammar: version code, the literal column titles, a
/// four-digit cycle, an eight-digit build, a metadata tag closed by a dot,
/// and the copyright tail.
pub open spec fn sp_header_line(s: Seq<char>, kind: FileKind) -> Option<HeaderV> {
    if s.len() < 4 {
        None
    } else {
        match sp_version(s.subrange(0, 4)) {
            None => None,
            Some(version) => {
                let p1 = 4 + " Version - data cycle "@.len() as int;
                if !(p1 <= s.len() && s.subrange(4, p1) == " Version - data cycle "@) {
                    None
                } else if !(p1 + 4 <= s.len() && all_digits(s.subrange(p1, p1 + 4))) {
                    None
                } else {
                    let cycle = digits_val(s.subrange(p1, p1 + 4));
                    let p2 = p1 + 4 + ", build "@.len() as int;
                    if !(p2 <= s.len() && s.subrange(p1 + 4, p2) == ", build "@) {
                        None
                    } else if !(p2 + 8 <= s.len() && all_digits(s.subrange(p2, p2 + 8))) {
                        None
                    } else {
                        let build = digits_val(s.subrange(p2, p2 + 8));
                        let p3 = p2 + 8 + ", metadata "@.len() as int;
                        if !(p3 <= s.len() && s.subrange(p2 + 8, p3) == ", metadata "@) {
                            None
                        } else {
                            let fd = find_char(s, p3, '.');
                            if !(fd < s.len() && fd > p3 && sp_tag_ok(kind, s.subrange(p3, fd))) {
                                None
                            } else {
                                Some(
                                    HeaderV {
                                        version,
                                        cycle,
                                        build,
                                        copyright: s.subrange(
                                            skip_spaces(s, fd + 1),
                                            s.len() as int,
                                        ),
                                    },
                                )
                            }
                        }
                    }
                }
            },
        }
    }
}

/// Parse the second preamble line.
#[verifier::rlimit(60)]
pub fn parse_header_line(line: &str, kind: FileKind) -> (r: Result<Header, RowError>)
    ensures
        r is Ok <==> sp_header_line(line@, kind) is Some,
        r matches Ok(h) ==> sp_header_line(line@, kind) == Some(h@),
{
    let ghost s = line@;
    proof {
        reveal_strlit("1100");
        reveal_strlit("1101");
        reveal_strlit("1140");
        reveal_strlit("1150");
        reveal_strlit("1200");
        reveal_strlit(" Version - data cycle ");
        reveal_strlit(", build ");
        reveal_strlit(", metadata ");
        reveal_strlit("FixXP1100");
        reveal_strlit("FixXP1200");
        reveal_strlit("NavXP1200");
        reveal_strlit("NavXP1150");
        reveal_strlit("AwyXP1100");
        reveal_strlit("HoldXP1140");
    }
    let mut sc = Scanner::new(line);
    let version = if sc.expect_lit("1100").is_ok() {
        DataVersion::XP1100
    } else if sc.expect_lit("1101").is_ok() {
        DataVersion::XP1101
    } else if sc.expect_lit("1140").is_ok() {
        DataVersion::XP1140
    } else if sc.expect_lit("1150").is_ok() {
        DataVersion::XP1150
    } else if sc.expect_lit("1200").is_ok() {
        DataVersion::XP1200
    } else {
        proof {
            if s.len() >= 4 {
                assert(s.subrange(0, 4) =~= s.subrange(0, 0 + "1100"@.len() as int));
                assert(s.subrange(0, 4) != "1100"@);
                assert(s.subrange(0, 4) != "1101"@);
                assert(s.subrange(0, 4) != "1140"@);
                assert(s.subrange(0, 4) != "1150"@);
                assert(s.subrange(0, 4) != "1200"@);
                assert(sp_version(s.subrange(0, 4)) is None);
            }
            assert(sp_header_line(s, kind) is None);
        }
        return Err(RowError { pos: 0 });
    };
    proof {
        assert(s.subrange(0, 4) =~= s.subrange(0, 0 + "1100"@.len() as int));
        assert(sp_version(s.subrange(0, 4)) == Some(version));
    }
    sc.expect_lit(" Version - data cycle ")?;
    let cycle64 = sc.scan_digits_exact(4)?;
    proof {
        lemma_digits_val_bound(s.subrange(4 + " Version - data cycle "@.len() as int, 4
            + " Version - data cycle "@.len() as int + 4));
        reveal_with_fuel(pow10, 5);
    }
    let cycle: u16 = cycle64 as u16;
    sc.expect_lit(", build ")?;
    let build64 = sc.scan_digits_exact(8)?;
    proof {
        let p2 = 4 + " Version - data cycle "@.len() as int + 4 + ", build "@.len() as int;
        lemma_digits_val_bound(s.subrange(p2, p2 + 8));
        reveal_with_fuel(pow10, 9);
    }
    let build: u32 = build64 as u32;
    sc.expect_lit(", metadata ")?;
    let tag = sc.take_until('.')?;
    let tag_ok = match kind {
        FileKind::Fix => str_eq(tag.as_str(), "FixXP1100") || str_eq(tag.as_str(), "FixXP1200"),
        FileKind::Nav => str_eq(tag.as_str(), "NavXP1200") || str_eq(tag.as_str(), "NavXP1150"),
        FileKind::Awy => str_eq(tag.as_str(), "AwyXP1100"),
        FileKind::Hold => str_eq(tag.as_str(), "HoldXP1140"),
    };
    if !tag_ok || tag.as_str().unicode_len() == 0 {
        return Err(RowError { pos: 0 });
    }
    let _dot = sc.take_char()?;
    sc.skip_spaces();
    let copyright = sc.take_rest();
    proof {
        let p1 = 4 + " Version - data cycle "@.len() as int;
        let p2 = p1 + 4 + ", build "@.len() as int;
        let p3 = p2 + 8 + ", metadata "@.len() as int;
        assert(sp_version(s.subrange(0, 4)) == Some(version));
        assert(p1 <= s.len() && s.subrange(4, p1) == " Version - data cycle "@);
        assert(p1 + 4 <= s.len() && all_digits(s.subrange(p1, p1 + 4)));
        assert(cycle == digits_val(s.subrange(p1, p1 + 4)));
        assert(p2 <= s.len() && s.subrange(p1 + 4, p2) == ", build "@);
        assert(p2 + 8 <= s.len() && all_digits(s.subrange(p2, p2 + 8)));
        assert(build == digits_val(s.subrange(p2, p2 + 8)));
        assert(p3 <= s.len() && s.subrange(p2 + 8, p3) == ", metadata "@);
        let fd = find_char(s, p3, '.');
        crate::navdata::scan::lemma_find_char_bounds(s, p3, '.');
        assert(fd < s.len() && fd > p3);
        assert(sp_tag_ok(kind, s.subrange(p3, fd)));
        assert(copyright@ == s.subrange(skip_spaces(s, fd + 1), s.len() as int));
        assert(sp_header_line(s, kind) is Some);
    }
    Ok(Header { version, cycle, build, copyright })
}

/// One vertex of the navigation graph: a fix or a navaid.
#[derive(Debug, Clone)]
pub enum NavEntry {
    Fix(crate::navdata::fix::Fix),
    Navaid(crate::navdata::nav::Navaid),
}

/// One edge payload of the navigation graph: an airway segment or a hold.
#[derive(Debug, Clone)]
pub enum NavEdge {
    Airway(crate::navdata::airways::AwyEdge),
    Hold(crate::navdata::hold::Edge),
}

/// The ident of a graph vertex.
pub open spec fn sp_ident(e: NavEntry) -> Seq<char> {
    match e {
        NavEntry::Fix(f) => f.ident@,
        NavEntry::Navaid(n) => n.ident@,
    }
}

/// Waypoint-reference resolution: a `Fix` reference names a fix vertex with
/// that ident and region; a `Vhf` reference names a VOR or an
/// independently displayed DME; an `Ndb` reference names an NDB.
pub open spec fn sp_wpt_match(
    ident: Seq<char>,
    icao: Seq<char>,
    typ: ParsedNodeRefType,
    e: NavEntry,
) -> bool {
    match (typ, e) {
        (ParsedNodeRefType::Fix, NavEntry::Fix(f)) => f.ident@ == ident && f.icao_region@ == icao,
        (ParsedNodeRefType::Vhf, NavEntry::Navaid(n)) => n.ident@ == ident && n.icao_region@
            == icao && (n.type_data matches crate::navdata::nav::TypeSpecificData::Vor { .. }
            || n.type_data matches crate::navdata::nav::TypeSpecificData::Dme {
                display_freq: true,
                ..
            }),
        (ParsedNodeRefType::Ndb, NavEntry::Navaid(n)) => n.ident@ == ident && n.icao_region@
            == icao && n.type_data matches crate::navdata::nav::TypeSpecificData::Ndb { .. },
        _ => false,
    }
}

/// Whether one reference matches one vertex.
pub fn match_wpt_predicate(wpt: &ParsedNodeRef, entry: &NavEntry) -> (r: bool)
    ensures
        r == sp_wpt_match(wpt.ident@, wpt.icao_region@, wpt.typ, *entry),
{
    match (wpt.typ, entry) {
        (ParsedNodeRefType::Fix, NavEntry::Fix(f)) => {
            str_eq(wpt.ident.as_str(), f.ident.as_str()) && str_eq(
                wpt.icao_region.as_str(),
                f.icao_region.as_str(),
            )
        },
        (ParsedNodeRefType::Vhf, NavEntry::Navaid(n)) => {
            str_eq(wpt.ident.as_str(), n.ident.as_str()) && str_eq(
                wpt.icao_region.as_str(),
                n.icao_region.as_str(),
            ) && match &n.type_data {
                crate::navdata::nav::TypeSpecificData::Vor { .. } => true,
                crate::navdata::nav::TypeSpecificData::Dme { display_freq, .. } => *display_freq,
                _ => false,
            }
        },
        (ParsedNodeRefType::Ndb, NavEntry::Navaid(n)) => {
            str_eq(wpt.ident.as_str(), n.ident.as_str()) && str_eq(
                wpt.icao_region.as_str(),
                n.icao_region.as_str(),
            ) && match &n.type_data {
                crate::navdata::nav::TypeSpecificData::Ndb { .. } => true,
                _ => false,
            }
        },
        _ => false,
    }
}

/// How an airway or hold row names a waypoint: by ident, ICAO region and
/// record kind.
#[derive(Debug, Clone)]
pub struct ParsedNodeRef {
    pub ident: String,
    pub icao_region: String,
    pub typ: ParsedNodeRefType,
}

/// The record kinds a waypoint reference can resolve to.
#[derive(Debug, Copy, Clone, PartialEq, Eq, Structural)]
pub enum ParsedNodeRefType {
    Ndb,
    Vhf,
    Fix,
}

/// The type codes 2, 3 and 11 name the three reference kinds.
pub open spec fn sp_ref_type(c: int) -> Option<ParsedNodeRefType> {
    if c == 2 {
        Some(ParsedNodeRefType::Vhf)
    } else if c == 3 {
        Some(ParsedNodeRefType::Ndb)
    } else if c == 11 {
        Some(ParsedNodeRefType::Fix)
    } else {
        None
    }
}

/// The byte-order-marker line: `A` or `I`.
pub open spec fn bom_ok(l: Seq<char>) -> bool {
    l == "A"@ || l == "I"@
}

/// Read the two-line preamble: the byte-order marker, then the header line.
pub fn parse_header(lines: &Vec<String>, kind: FileKind) -> (r: Result<Header, ParseError>)
    ensures
        ({
            let ls = lines@.map_values(|l: String| l@);
            &&& (r is Ok <==> ls.len() >= 2 && bom_ok(ls[0]) && sp_header_line(ls[1], kind)
                is Some)
            &&& (r matches Ok(h) ==> sp_header_line(ls[1], kind) == Some(h@))
            &&& (ls.len() == 0 ==> r matches Err(ParseError::MissingLine))
            &&& (ls.len() >= 1 && !bom_ok(ls[0]) ==> (r matches Err(ParseError::BadBOM { bom })
                && bom@ == ls[0]))
            &&& (ls.len() == 1 && bom_ok(ls[0]) ==> r matches Err(ParseError::MissingLine))
            &&& (ls.len() >= 2 && bom_ok(ls[0]) && sp_header_line(ls[1], kind) is None
                ==> (r matches Err(ParseError::Parse { stage, .. }) && stage@ == "header"@))
        }),
{
    let ghost ls = lines@.map_values(|l: String| l@);
    if lines.len() == 0 {
        return Err(ParseError::MissingLine);
    }
    let bom = &lines[0];
    if !(str_eq(bom.as_str(), "A") || str_eq(bom.as_str(), "I")) {
        return Err(ParseError::BadBOM { bom: bom.clone() });
    }
    if lines.len() < 2 {
        return Err(ParseError::MissingLine);
    }
    match parse_header_line(lines[1].as_str(), kind) {
        Ok(h) => Ok(h),
        Err(e) => Err(
            ParseError::Parse {
                rendered: String::from_str("the header line does not fit the header grammar"),
                stage: String::from_str("header"),
                pos: e.pos,
            },
        ),
    }
}

/// The shape of a file body: where its rows are, or what stops them.
pub ghost enum FileShape {
    /// The indices of the row lines, in order; the sentinel was found after
    /// them.
    Rows(Seq<int>),
    /// The file ended before any sentinel line.
    NoSentinel,
    /// The first row that does not fit its grammar.
    BadRow(int),
}

/// Walk the body lines from `i`: blank lines are skipped, the sentinel `99`
/// ends the body, the first line that fails `ok` is the offending row.
pub open spec fn sp_shape(ls: Seq<Seq<char>>, i: int, ok: spec_fn(Seq<char>) -> bool) -> FileShape
    decreases ls.len() + 1 - i when 0 <= i
{
    if i >= ls.len() {
        FileShape::NoSentinel
    } else if ls[i] == "99"@ {
        FileShape::Rows(Seq::empty())
    } else if ls[i].len() == 0 {
        sp_shape(ls, i + 1, ok)
    } else if !ok(ls[i]) {
        FileShape::BadRow(i)
    } else {
        match sp_shape(ls, i + 1, ok) {
            FileShape::Rows(rest) => FileShape::Rows(seq![i] + rest),
            sh => sh,
        }
    }
}

/// Rows already taken, in front of the shape of the remainder.
pub open spec fn shape_prepend(pre: Seq<int>, sh: FileShape) -> FileShape {
    match sh {
        FileShape::Rows(rest) => FileShape::Rows(pre + rest),
        _ => sh,
    }
}

/// Every accepted file body ends at a sentinel line `99`, every line before
/// it that is not one of its rows is empty, and every row line satisfies
/// the row grammar.
pub proof fn lemma_shape_rows(ls: Seq<Seq<char>>, i: int, ok: spec_fn(Seq<char>) -> bool, idx: Seq<int>)
    requires
        0 <= i,
        sp_shape(ls, i, ok) == FileShape::Rows(idx),
    ensures
        exists|k: int|
            i <= k < ls.len() && ls[k] == "99"@ && (forall|j: int|
                i <= j < k && !idx.contains(j) ==> (#[trigger] ls[j]).len() == 0) && (forall|n: int|
                0 <= n < idx.len() ==> i <= #[trigger] idx[n] < k && ls[idx[n]].len() > 0 && ok(
                    ls[idx[n]],
                )),
    decreases ls.len() + 1 - i,
{
    if i >= ls.len() {
    } else if ls[i] == "99"@ {
        let k = i;
        assert(i <= k < ls.len() && ls[k] == "99"@ && (forall|j: int|
            i <= j < k && !idx.contains(j) ==> (#[trigger] ls[j]).len() == 0) && (forall|n: int|
            0 <= n < idx.len() ==> i <= #[trigger] idx[n] < k && ls[idx[n]].len() > 0 && ok(
                ls[idx[n]],
            )));
    } else if ls[i].len() == 0 {
        lemma_shape_rows(ls, i + 1, ok, idx);
        let k = choose|k: int|
            i + 1 <= k < ls.len() && ls[k] == "99"@ && (forall|j: int|
                i + 1 <= j < k && !idx.contains(j) ==> (#[trigger] ls[j]).len() == 0) && (forall|
                n: int,
            |
                0 <= n < idx.len() ==> i + 1 <= #[trigger] idx[n] < k && ls[idx[n]].len() > 0
                    && ok(ls[idx[n]]));
        assert(i <= k < ls.len() && ls[k] == "99"@ && (forall|j: int|
            i <= j < k && !idx.contains(j) ==> (#[trigger] ls[j]).len() == 0) && (forall|n: int|
            0 <= n < idx.len() ==> i <= #[trigger] idx[n] < k && ls[idx[n]].len() > 0 && ok(
                ls[idx[n]],
            )));
    } else {
        let rest = sp_shape(ls, i + 1, ok);
        match rest {
            FileShape::Rows(ridx) => {
                lemma_shape_rows(ls, i + 1, ok, ridx);
                let k = choose|k: int|
                    i + 1 <= k < ls.len() && ls[k] == "99"@ && (forall|j: int|
                        i + 1 <= j < k && !ridx.contains(j) ==> (#[trigger] ls[j]).len() == 0) && (
                    forall|n: int|
                        0 <= n < ridx.len() ==> i + 1 <= #[trigger] ridx[n] < k && ls[ridx[n]].len()
                            > 0 && ok(ls[ridx[n]]));
                assert(idx == seq![i] + ridx);
                assert(idx[0] == i);
                assert forall|j: int| i <= j < k && !idx.contains(j) implies (#[trigger] ls[j]).len()
                    == 0 by {
                    if j != i {
                        if ridx.contains(j) {
                            let n = choose|n: int| 0 <= n < ridx.len() && ridx[n] == j;
                            assert(idx[n + 1] == ridx[n]);
                            assert(idx.contains(j));
                        }
                    } else {
                        assert(idx.contains(i));
                    }
                }
                assert forall|n: int| 0 <= n < idx.len() implies i <= #[trigger] idx[n] < k && ls[
                    idx[n]
                ].len() > 0 && ok(ls[idx[n]]) by {
                    if n > 0 {
                        assert(idx[n] == ridx[n - 1]);
                    }
                }
                assert(i <= k < ls.len() && ls[k] == "99"@ && (forall|j: int|
                    i <= j < k && !idx.contains(j) ==> (#[trigger] ls[j]).len() == 0) && (forall|
                    n: int,
                |
                    0 <= n < idx.len() ==> i <= #[trigger] idx[n] < k && ls[idx[n]].len() > 0 && ok(
                        ls[idx[n]],
                    )));
            },
            _ => {},
        }
    }
}

/// The navigation database: the fix and navaid headers, and the graph.
#[derive(Debug)]
pub struct NavGraph {
    fix_header: Header,
    navaids_header: Header,
    graph: crate::navdata::graph::DiGraph,
}

/// The two drafts of the container share one implementation; this name is
/// kept for callers that use the other one.
pub type NavigationalData = NavGraph;

/// A query-time failure of the airway traversal.
#[derive(Debug)]
pub enum AirwayTraverseError {
    /// The node is not on the airway.  When `start` is false the node may
    /// merely be unreachable on this airway from the starting point, which
    /// is effectively equivalent for a flight-management system.
    NotOnAirway { node: NodeOrIdent, awy: String, start: bool },
    /// The traversal could not find a valid path to the node.
    NoPath { idx: NodeOrIdent },
    /// A graph error has been raised.
    Graph { source: GraphError },
}

/// A failure of a raw graph access.
#[derive(Debug)]
pub enum GraphError {
    /// A bad node index has been given.
    BadNode { idx: usize },
}

/// A node named by its index, or by an ident that did not resolve.
#[derive(Debug)]
pub enum NodeOrIdent {
    Node(usize),
    Ident(String),
}

impl NavGraph {
    /// The graph the queries run on.
    pub closed spec fn sp_graph(self) -> crate::navdata::graph::DiGraph {
        self.graph
    }

    pub closed spec fn sp_fix_header(self) -> Header {
        self.fix_header
    }

    pub closed spec fn sp_navaids_header(self) -> Header {
        self.navaids_header
    }

    /// No edge of the graph dangles.
    pub open spec fn wf(self) -> bool {
        self.sp_graph().wf()
    }

    /// Get a reference to the graph.
    pub fn graph(&self) -> (r: &crate::navdata::graph::DiGraph)
        ensures
            *r == self.sp_graph(),
    {
        &self.graph
    }

    /// Find all entries matching the given `ident` in the navigation
    /// database: every vertex whose ident equals it, in index order, with
    /// no misses and no strangers.
    pub fn find_nav_entry<'a>(&'a self, ident: &str) -> (r: Vec<(usize, &'a NavEntry)>)
        ensures
            ({
                let nodes = self.sp_graph().nodes@;
                &&& forall|k: int|
                    0 <= k < r@.len() ==> (#[trigger] r@[k]).0 < nodes.len() && *r@[k].1
                        == nodes[r@[k].0 as int] && sp_ident(nodes[r@[k].0 as int]) == ident@
                &&& forall|i: int|
                    0 <= i < nodes.len() && sp_ident(#[trigger] nodes[i]) == ident@ ==> exists|
                        k: int,
                    | 0 <= k < r@.len() && (#[trigger] r@[k]).0 == i
                &&& forall|k1: int, k2: int| 0 <= k1 < k2 < r@.len() ==> r@[k1].0 < r@[k2].0
            }),
    {
        let mut r: Vec<(usize, &'a NavEntry)> = Vec::new();
        let mut i: usize = 0;
        let n = self.graph.nodes.len();
        while i < n
            invariant
                n == self.sp_graph().nodes@.len(),
                i <= n,
                forall|k: int|
                    0 <= k < r@.len() ==> (#[trigger] r@[k]).0 < i && *r@[k].1
                        == self.sp_graph().nodes@[r@[k].0 as int] && sp_ident(
                        self.sp_graph().nodes@[r@[k].0 as int],
                    ) == ident@,
                forall|j: int|
                    0 <= j < i && sp_ident(#[trigger] self.sp_graph().nodes@[j]) == ident@
                        ==> exists|k: int| 0 <= k < r@.len() && (#[trigger] r@[k]).0 == j,
                forall|k1: int, k2: int| 0 <= k1 < k2 < r@.len() ==> r@[k1].0 < r@[k2].0,
            decreases n - i,
        {
            let entry = &self.graph.nodes[i];
            let matches_ident = match entry {
                NavEntry::Fix(f) => str_eq(f.ident.as_str(), ident),
                NavEntry::Navaid(nv) => str_eq(nv.ident.as_str(), ident),
            };
            if matches_ident {
                let ghost r0 = r@;
                r.push((i, entry));
                proof {
                    assert(r@[r@.len() - 1].0 == i);
                    assert(forall|k: int| 0 <= k < r0.len() ==> r@[k] == r0[k]);
                }
            }
            i = i + 1;
        }
        r
    }

    /// Keep the vertices of `reach` whose ident is `end`, with their
    /// entries.
    fn collect_matches<'a>(&'a self, reach: &Vec<usize>, end: &str) -> (v: Vec<
        (usize, &'a NavEntry),
    >)
        requires
            forall|j: int|
                0 <= j < reach@.len() ==> (#[trigger] reach@[j]) < self.sp_graph().nodes@.len(),
            forall|j1: int, j2: int| 0 <= j1 < j2 < reach@.len() ==> reach@[j1] != reach@[j2],
        ensures
            forall|m: int|
                #![trigger v@[m]]
                0 <= m < v@.len() ==> v@[m].0 < self.sp_graph().nodes@.len() && *v@[m].1
                    == self.sp_graph().nodes@[v@[m].0 as int] && sp_ident(
                    self.sp_graph().nodes@[v@[m].0 as int],
                ) == end@ && (exists|j: int|
                    0 <= j < reach@.len() && #[trigger] reach@[j] == v@[m].0),
            forall|j: int|
                #![trigger reach@[j]]
                0 <= j < reach@.len() && sp_ident(self.sp_graph().nodes@[reach@[j] as int])
                    == end@ ==> exists|m: int| #![trigger v@[m]] 0 <= m < v@.len() && v@[m].0
                    == reach@[j],
            forall|m1: int, m2: int| 0 <= m1 < m2 < v@.len() ==> v@[m1].0 != v@[m2].0,
    {
        let mut v: Vec<(usize, &'a NavEntry)> = Vec::new();
        let mut k: usize = 0;
        while k < reach.len()
            invariant
                k <= reach@.len(),
                forall|j: int|
                    0 <= j < reach@.len() ==> (#[trigger] reach@[j])
                        < self.sp_graph().nodes@.len(),
                forall|j1: int, j2: int| 0 <= j1 < j2 < reach@.len() ==> reach@[j1] != reach@[j2],
                forall|m: int|
                    #![trigger v@[m]]
                    0 <= m < v@.len() ==> v@[m].0 < self.sp_graph().nodes@.len() && *v@[m].1
                        == self.sp_graph().nodes@[v@[m].0 as int] && sp_ident(
                        self.sp_graph().nodes@[v@[m].0 as int],
                    ) == end@ && (exists|j: int|
                        0 <= j < k && #[trigger] reach@[j] == v@[m].0),
                forall|j: int|
                    #![trigger reach@[j]]
                    0 <= j < k && sp_ident(self.sp_graph().nodes@[reach@[j] as int]) == end@
                        ==> exists|m: int| #![trigger v@[m]] 0 <= m < v@.len() && v@[m].0
                        == reach@[j],
                forall|m1: int, m2: int| 0 <= m1 < m2 < v@.len() ==> v@[m1].0 != v@[m2].0,
            decreases reach@.len() - k,
        {
            let u = reach[k];
            let entry = &self.graph.nodes[u];
            let matches_ident = match entry {
                NavEntry::Fix(f) => str_eq(f.ident.as_str(), end),
                NavEntry::Navaid(nv) => str_eq(nv.ident.as_str(), end),
            };
            if matches_ident {
                let ghost v0 = v@;
                v.push((u, entry));
                proof {
                    assert(v@[v@.len() - 1].0 == u);
                    assert(forall|m: int| 0 <= m < v0.len() ==> v@[m] == v0[m]);
                    assert forall|m1: int, m2: int|
                        0 <= m1 < m2 < v@.len() implies v@[m1].0 != v@[m2].0 by {
                        if m2 == v@.len() - 1 {
                            let j1 = choose|j: int| 0 <= j < k && #[trigger] reach@[j] == v@[m1].0;
                            assert(reach@[j1] != reach@[k as int]);
                        }
                    }
                }
            }
            k = k + 1;
        }
        v
    }

    /// Traverse the graph from `start`, following edges labelled with the
    /// airway `awy`, and collect every vertex whose ident is `end`.
    ///
    /// When no `awy` edge is incident to `start` the traversal is never
    /// begun.  Success is owed exactly when `start` is a vertex, some `awy`
    /// edge touches it, and a vertex with ident `end` is reachable from
    /// `start` over at least one `awy` edge; the result then holds every
    /// such vertex exactly once.  `start` itself appears only when its
    /// ident is `end` and some `awy` cycle returns to it.
    #[verifier::rlimit(100)]
    #[verifier::spinoff_prover]
    pub fn airway_find<'a>(&'a self, start: usize, awy: &str, end: &str) -> (r: Result<
        Vec<(usize, &'a NavEntry)>,
        AirwayTraverseError,
    >)
        requires
            self.wf(),
        ensures
            start >= self.sp_graph().nodes@.len() ==> (r matches Err(
                AirwayTraverseError::Graph { source: GraphError::BadNode { idx } },
            ) && idx == start),
            start < self.sp_graph().nodes@.len() && !crate::navdata::graph::sp_has_awy_incident(
                self.sp_graph(),
                awy@,
                start as int,
            ) ==> (r matches Err(
                AirwayTraverseError::NotOnAirway { node: NodeOrIdent::Node(idx), awy: a, start: st },
            ) && idx == start && a@ == awy@ && st == true),
            start < self.sp_graph().nodes@.len() && crate::navdata::graph::sp_has_awy_incident(
                self.sp_graph(),
                awy@,
                start as int,
            ) && !(exists|i: int|
                0 <= i < self.sp_graph().nodes@.len()
                    && #[trigger] crate::navdata::graph::sp_awy_reachable_pos(
                    self.sp_graph(),
                    awy@,
                    start as int,
                    i,
                ) && sp_ident(self.sp_graph().nodes@[i]) == end@) ==> (r matches Err(
                AirwayTraverseError::NotOnAirway { node: NodeOrIdent::Ident(id), awy: a, start: st },
            ) && id@ == end@ && a@ == awy@ && st == false),
            r matches Ok(v) ==> v@.len() > 0 && (forall|k: int|
                0 <= k < v@.len() ==> (#[trigger] v@[k]).0 < self.sp_graph().nodes@.len()
                    && *v@[k].1 == self.sp_graph().nodes@[v@[k].0 as int] && sp_ident(
                    self.sp_graph().nodes@[v@[k].0 as int],
                ) == end@ && crate::navdata::graph::sp_awy_reachable_pos(
                    self.sp_graph(),
                    awy@,
                    start as int,
                    v@[k].0 as int,
                )) && (forall|i: int|
                0 <= i < self.sp_graph().nodes@.len()
                    && #[trigger] crate::navdata::graph::sp_awy_reachable_pos(
                    self.sp_graph(),
                    awy@,
                    start as int,
                    i,
                ) && sp_ident(self.sp_graph().nodes@[i]) == end@ ==> exists|k: int|
                    0 <= k < v@.len() && (#[trigger] v@[k]).0 == i) && (forall|k1: int, k2: int|
                0 <= k1 < k2 < v@.len() ==> v@[k1].0 != v@[k2].0),
            r is Ok <==> start < self.sp_graph().nodes@.len()
                && crate::navdata::graph::sp_has_awy_incident(self.sp_graph(), awy@, start as int)
                && (exists|i: int|
                0 <= i < self.sp_graph().nodes@.len()
                    && #[trigger] crate::navdata::graph::sp_awy_reachable_pos(
                    self.sp_graph(),
                    awy@,
                    start as int,
                    i,
                ) && sp_ident(self.sp_graph().nodes@[i]) == end@),
    {
        let ghost g = self.sp_graph();
        if start >= self.graph.nodes.len() {
            return Err(
                AirwayTraverseError::Graph { source: GraphError::BadNode { idx: start } },
            );
        }
        if !self.graph.has_awy_incident(start, awy) {
            return Err(
                AirwayTraverseError::NotOnAirway {
                    node: NodeOrIdent::Node(start),
                    awy: String::from_str(awy),
                    start: true,
                },
            );
        }
        let reach = self.graph.awy_reach(start, awy);
        let cycle = self.graph.cycle_back(&reach, start, awy);
        proof {
            crate::navdata::graph::lemma_pos_cycle_char(g, awy@, start as int);
            if cycle {
                let e = choose|e: int|
                    0 <= e < g.edges@.len() && (#[trigger] g.edges@[e]).target == start
                        && crate::navdata::graph::sp_edge_awy_name(g.edges@[e].weight) == Some(awy@)
                        && (exists|k: int|
                        0 <= k < reach@.len() && #[trigger] reach@[k] == g.edges@[e].source);
                let u = g.edges@[e].source as int;
                assert(crate::navdata::graph::sp_awy_edge(g, awy@, u, start as int));
                assert(crate::navdata::graph::sp_awy_reachable(g, awy@, start as int, u));
                assert(crate::navdata::graph::sp_awy_reachable_pos(
                    g,
                    awy@,
                    start as int,
                    start as int,
                ));
            } else {
                if crate::navdata::graph::sp_awy_reachable_pos(g, awy@, start as int, start as int) {
                    let u = choose|u: int|
                        0 <= u < g.nodes@.len() && crate::navdata::graph::sp_awy_reachable(
                            g,
                            awy@,
                            start as int,
                            u,
                        ) && #[trigger] crate::navdata::graph::sp_awy_edge(g, awy@, u, start as int);
                    assert(exists|k: int| 0 <= k < reach@.len() && #[trigger] reach@[k] == u);
                    let e = choose|e: int|
                        0 <= e < g.edges@.len() && (#[trigger] g.edges@[e]).source == u
                            && g.edges@[e].target == start as int
                            && crate::navdata::graph::sp_edge_awy_name(g.edges@[e].weight) == Some(
                            awy@,
                        );
                    assert(false);
                }
            }
        }
        let reach2 = if cycle {
            reach
        } else {
            crate::navdata::graph::without(&reach, start)
        };
        proof {
            assert forall|i: int|
                0 <= i < g.nodes@.len() implies ((exists|k: int|
                0 <= k < reach2@.len() && #[trigger] reach2@[k] == i)
                == crate::navdata::graph::sp_awy_reachable_pos(g, awy@, start as int, i)) by {
                if i == start as int {
                    if cycle {
                        assert(exists|k: int|
                            0 <= k < reach2@.len() && #[trigger] reach2@[k] == start);
                    } else {
                        assert(!(exists|k: int|
                            0 <= k < reach2@.len() && #[trigger] reach2@[k] == i)) by {
                            if exists|k: int| 0 <= k < reach2@.len() && #[trigger] reach2@[k] == i {
                                let k = choose|k: int|
                                    0 <= k < reach2@.len() && #[trigger] reach2@[k] == i;
                                assert(reach2@[k] != start);
                            }
                        }
                    }
                } else {
                    if exists|k: int| 0 <= k < reach2@.len() && #[trigger] reach2@[k] == i {
                        let k = choose|k: int|
                            0 <= k < reach2@.len() && #[trigger] reach2@[k] == i;
                        if !cycle {
                            let j = choose|j: int|
                                0 <= j < reach@.len() && #[trigger] reach@[j] == reach2@[k];
                        }
                        assert(crate::navdata::graph::sp_awy_reachable(g, awy@, start as int, i));
                        crate::navdata::graph::lemma_reachable_ne_pos(g, awy@, start as int, i);
                    }
                    if crate::navdata::graph::sp_awy_reachable_pos(g, awy@, start as int, i) {
                        crate::navdata::graph::lemma_pos_reachable_is_reachable(
                            g,
                            awy@,
                            start as int,
                            i,
                        );
                        let j = choose|j: int| 0 <= j < reach@.len() && #[trigger] reach@[j] == i;
                        if !cycle {
                            assert(reach@[j] != start);
                            assert(exists|k: int|
                                0 <= k < reach2@.len() && #[trigger] reach2@[k] == reach@[j]);
                        }
                    }
                }
            }
        }
        let v = self.collect_matches(&reach2, end);
        if v.len() == 0 {
            proof {
                assert forall|i: int|
                    0 <= i < g.nodes@.len()
                        && #[trigger] crate::navdata::graph::sp_awy_reachable_pos(
                        g,
                        awy@,
                        start as int,
                        i,
                    ) implies sp_ident(g.nodes@[i]) != end@ by {
                    let j = choose|j: int| 0 <= j < reach2@.len() && #[trigger] reach2@[j] == i;
                    if sp_ident(g.nodes@[i]) == end@ {
                        assert(exists|m: int|
                            0 <= m < v@.len() && (#[trigger] v@[m]).0 == reach2@[j]);
                    }
                }
            }
            return Err(
                AirwayTraverseError::NotOnAirway {
                    node: NodeOrIdent::Ident(String::from_str(end)),
                    awy: String::from_str(awy),
                    start: false,
                },
            );
        }
        proof {
            assert(exists|i: int|
                0 <= i < g.nodes@.len() && #[trigger] crate::navdata::graph::sp_awy_reachable_pos(
                    g,
                    awy@,
                    start as int,
                    i,
                ) && sp_ident(g.nodes@[i]) == end@) by {
                let j0 = choose|j: int| 0 <= j < reach2@.len() && #[trigger] reach2@[j] == v@[0].0;
                assert(crate::navdata::graph::sp_awy_reachable_pos(
                    g,
                    awy@,
                    start as int,
                    v@[0].0 as int,
                ));
            }
            assert forall|i: int|
                0 <= i < g.nodes@.len() && #[trigger] crate::navdata::graph::sp_awy_reachable_pos(
                    g,
                    awy@,
                    start as int,
                    i,
                ) && sp_ident(g.nodes@[i]) == end@ implies exists|k: int|
                0 <= k < v@.len() && (#[trigger] v@[k]).0 == i by {
                let j = choose|j: int| 0 <= j < reach2@.len() && #[trigger] reach2@[j] == i;
            }
            assert forall|m: int| 0 <= m < v@.len() implies (#[trigger] v@[m]).0 < g.nodes@.len()
                && *v@[m].1 == g.nodes@[v@[m].0 as int] && sp_ident(g.nodes@[v@[m].0 as int])
                == end@ && crate::navdata::graph::sp_awy_reachable_pos(
                g,
                awy@,
                start as int,
                v@[m].0 as int,
            ) by {
                let j = choose|j: int| 0 <= j < reach2@.len() && #[trigger] reach2@[j] == v@[m].0;
            }
        }
        Ok(v)
    }
}

/// The first entry at or after `i` sharing `x`\'s identity, under the
/// identity relation `same`.
pub open spec fn gpos<T>(b: Seq<T>, i: int, x: T, same: spec_fn(T, T) -> bool) -> Option<int>
    decreases b.len() - i when 0 <= i
{
    if i >= b.len() {
        None
    } else if same(b[i], x) {
        Some(i)
    } else {
        gpos(b, i + 1, x, same)
    }
}

/// Lay one user entry over the base: replace the first entry with its
/// identity, or append it.
pub open spec fn gone<T>(b: Seq<T>, x: T, same: spec_fn(T, T) -> bool) -> Seq<T> {
    match gpos(b, 0, x, same) {
        Some(p) => b.update(p, x),
        None => b.push(x),
    }
}

/// Lay a whole user file over the base, entry by entry, in file order.
pub open spec fn gov<T>(b: Seq<T>, u: Seq<T>, same: spec_fn(T, T) -> bool) -> Seq<T>
    decreases u.len(),
{
    if u.len() == 0 {
        b
    } else {
        gov(gone(b, u.first(), same), u.drop_first(), same)
    }
}

/// An equivalence: reflexive, symmetric and transitive.
pub open spec fn is_equiv<T>(same: spec_fn(T, T) -> bool) -> bool {
    &&& forall|a: T| #[trigger] same(a, a)
    &&& forall|a: T, b: T| #[trigger] same(a, b) ==> same(b, a)
    &&& forall|a: T, b: T, c: T| #[trigger] same(a, b) && #[trigger] same(b, c) ==> same(a, c)
}

/// Where the first entry of `x`\'s identity class stands, and that nothing
/// before it is in the class.
proof fn lemma_gpos_char<T>(b: Seq<T>, i: int, x: T, same: spec_fn(T, T) -> bool)
    requires
        0 <= i,
    ensures
        gpos(b, i, x, same) matches Some(p) ==> i <= p < b.len() && same(b[p], x) && (forall|
            j: int,
        | i <= j < p ==> !same(#[trigger] b[j], x)),
        gpos(b, i, x, same) is None ==> forall|j: int| i <= j < b.len() ==> !same(
            #[trigger] b[j],
            x,
        ),
    decreases b.len() - i,
{
    if i < b.len() && !same(b[i], x) {
        lemma_gpos_char(b, i + 1, x, same);
    }
}

/// Entries of one identity class find one first position.
proof fn lemma_gpos_congruence<T>(b: Seq<T>, i: int, x: T, y: T, same: spec_fn(T, T) -> bool)
    requires
        0 <= i,
        is_equiv(same),
        same(x, y),
    ensures
        gpos(b, i, x, same) == gpos(b, i, y, same),
    decreases b.len() - i,
{
    if i < b.len() {
        assert(same(b[i], x) == same(b[i], y));
        lemma_gpos_congruence(b, i + 1, x, y, same);
    }
}

/// Two lists whose entries pair off into one identity class at every
/// position give every entry one first position.
proof fn lemma_gpos_ids_eq<T>(
    b1: Seq<T>,
    b2: Seq<T>,
    i: int,
    x: T,
    same: spec_fn(T, T) -> bool,
)
    requires
        0 <= i,
        is_equiv(same),
        b1.len() == b2.len(),
        forall|j: int| 0 <= j < b1.len() ==> same(#[trigger] b1[j], b2[j]),
    ensures
        gpos(b1, i, x, same) == gpos(b2, i, x, same),
    decreases b1.len() - i,
{
    if i < b1.len() {
        assert(same(b1[i], b2[i]));
        assert(same(b1[i], x) == same(b2[i], x));
        lemma_gpos_ids_eq(b1, b2, i + 1, x, same);
    }
}

/// One overlay step keeps every position in its identity class, and puts
/// the new entry at its class\'s first position.
proof fn lemma_gone_facts<T>(b: Seq<T>, x: T, same: spec_fn(T, T) -> bool)
    requires
        is_equiv(same),
    ensures
        b.len() <= gone(b, x, same).len() <= b.len() + 1,
        forall|j: int| 0 <= j < b.len() ==> same(#[trigger] gone(b, x, same)[j], b[j]),
        gpos(gone(b, x, same), 0, x, same) is Some,
        ({
            let r = gone(b, x, same);
            let p = gpos(r, 0, x, same).unwrap();
            r[p] == x
        }),
        forall|w: T|
            gpos(b, 0, w, same) is Some ==> #[trigger] gpos(gone(b, x, same), 0, w, same)
                == gpos(b, 0, w, same),
        forall|q: int|
            0 <= q < b.len() && !same(x, #[trigger] b[q]) && gpos(b, 0, b[q], same) == Some(q)
                ==> gone(b, x, same)[q] == b[q],
{
    lemma_gpos_char(b, 0, x, same);
    let r = gone(b, x, same);
    match gpos(b, 0, x, same) {
        Some(p) => {
            assert(r =~= b.update(p, x));
            assert(same(b[p], x));
            assert forall|j: int| 0 <= j < b.len() implies same(#[trigger] r[j], b[j]) by {
                if j == p {
                    assert(same(x, b[p]));
                } else {
                    assert(same(r[j], r[j]));
                }
            }
            assert(gpos(r, 0, x, same) == Some(p)) by {
                lemma_gpos_char(r, 0, x, same);
                assert forall|j: int| 0 <= j < p implies !same(#[trigger] r[j], x) by {
                    assert(r[j] == b[j]);
                    if same(b[j], x) {
                        assert(false);
                    }
                }
                assert(same(r[p], x));
                lemma_gpos_first(r, x, same, p);
            }
            assert forall|w: T|
                gpos(b, 0, w, same) is Some implies #[trigger] gpos(r, 0, w, same) == gpos(
                b,
                0,
                w,
                same,
            ) by {
                let q = gpos(b, 0, w, same).unwrap();
                lemma_gpos_char(b, 0, w, same);
                assert forall|j: int| 0 <= j < q implies !same(#[trigger] r[j], w) by {
                    assert(same(r[j], b[j]));
                    if same(r[j], w) {
                        assert(same(b[j], r[j]));
                        assert(same(b[j], w));
                    }
                }
                assert(same(r[q], b[q]) && same(b[q], w));
                assert(same(r[q], w));
                lemma_gpos_first(r, w, same, q);
            }
            assert forall|q: int|
                0 <= q < b.len() && !same(x, #[trigger] b[q]) && gpos(b, 0, b[q], same) == Some(
                    q,
                ) implies r[q] == b[q] by {
                if q == p {
                    assert(same(x, b[p]));
                }
            }
        },
        None => {
            assert(r =~= b.push(x));
            assert forall|j: int| 0 <= j < b.len() implies same(#[trigger] r[j], b[j]) by {
                assert(r[j] == b[j]);
                assert(same(b[j], b[j]));
            }
            assert(gpos(r, 0, x, same) == Some(b.len() as int)) by {
                assert forall|j: int| 0 <= j < b.len() implies !same(#[trigger] r[j], x) by {
                    assert(r[j] == b[j]);
                }
                assert(same(r[b.len() as int], x));
                lemma_gpos_first(r, x, same, b.len() as int);
            }
            assert forall|w: T|
                gpos(b, 0, w, same) is Some implies #[trigger] gpos(r, 0, w, same) == gpos(
                b,
                0,
                w,
                same,
            ) by {
                let q = gpos(b, 0, w, same).unwrap();
                lemma_gpos_char(b, 0, w, same);
                assert forall|j: int| 0 <= j < q implies !same(#[trigger] r[j], w) by {
                    assert(r[j] == b[j]);
                }
                assert(same(r[q], w));
                lemma_gpos_first(r, w, same, q);
            }
        },
    }
}

/// A position in the class, with nothing of the class before it, is the
/// class\'s first position.
proof fn lemma_gpos_first<T>(b: Seq<T>, x: T, same: spec_fn(T, T) -> bool, q: int)
    requires
        0 <= q < b.len(),
        same(b[q], x),
        forall|j: int| 0 <= j < q ==> !same(#[trigger] b[j], x),
    ensures
        gpos(b, 0, x, same) == Some(q),
{
    lemma_gpos_first_from(b, x, same, q, 0);
}

proof fn lemma_gpos_first_from<T>(b: Seq<T>, x: T, same: spec_fn(T, T) -> bool, q: int, i: int)
    requires
        0 <= i <= q < b.len(),
        same(b[q], x),
        forall|j: int| i <= j < q ==> !same(#[trigger] b[j], x),
    ensures
        gpos(b, i, x, same) == Some(q),
    decreases q - i,
{
    if i < q {
        lemma_gpos_first_from(b, x, same, q, i + 1);
    }
}

/// A whole overlay keeps every base position in its identity class.
proof fn lemma_gov_ids<T>(b: Seq<T>, u: Seq<T>, same: spec_fn(T, T) -> bool)
    requires
        is_equiv(same),
    ensures
        gov(b, u, same).len() >= b.len(),
        forall|j: int| 0 <= j < b.len() ==> same(#[trigger] gov(b, u, same)[j], b[j]),
    decreases u.len(),
{
    if u.len() == 0 {
        assert forall|j: int| 0 <= j < b.len() implies same(#[trigger] gov(b, u, same)[j], b[j])
            by {
            assert(same(b[j], b[j]));
        }
    } else {
        let b1 = gone(b, u.first(), same);
        lemma_gone_facts(b, u.first(), same);
        lemma_gov_ids(b1, u.drop_first(), same);
        assert forall|j: int| 0 <= j < b.len() implies same(#[trigger] gov(b, u, same)[j], b[j])
            by {
            assert(same(gov(b1, u.drop_first(), same)[j], b1[j]));
            assert(same(b1[j], b[j]));
        }
    }
}

/// A whole overlay keeps every class\'s first position where it was.
proof fn lemma_gov_pos_stable<T>(b: Seq<T>, u: Seq<T>, w: T, q: int, same: spec_fn(T, T) -> bool)
    requires
        is_equiv(same),
        gpos(b, 0, w, same) == Some(q),
    ensures
        gpos(gov(b, u, same), 0, w, same) == Some(q),
    decreases u.len(),
{
    if u.len() > 0 {
        let b1 = gone(b, u.first(), same);
        lemma_gone_facts(b, u.first(), same);
        lemma_gov_pos_stable(b1, u.drop_first(), w, q, same);
    }
}

/// An overlay none of whose entries are in a class leaves the class\'s
/// first entry untouched.
proof fn lemma_gov_no_touch<T>(b: Seq<T>, u: Seq<T>, w: T, q: int, same: spec_fn(T, T) -> bool)
    requires
        is_equiv(same),
        gpos(b, 0, w, same) == Some(q),
        forall|k: int| 0 <= k < u.len() ==> !same(#[trigger] u[k], w),
    ensures
        gov(b, u, same)[q] == b[q],
    decreases u.len(),
{
    lemma_gpos_char(b, 0, w, same);
    if u.len() > 0 {
        let b1 = gone(b, u.first(), same);
        lemma_gone_facts(b, u.first(), same);
        assert(gpos(b, 0, b[q], same) == Some(q)) by {
            lemma_gpos_congruence(b, 0, w, b[q], same);
            assert(same(w, b[q]));
        }
        assert(!same(u.first(), b[q])) by {
            assert(!same(u[0], w));
            if same(u.first(), b[q]) {
                assert(same(b[q], w));
                assert(same(u[0], w));
            }
        }
        assert(b1[q] == b[q]);
        lemma_gov_no_touch(b1, u.drop_first(), w, q, same);
        assert(forall|k: int|
            0 <= k < u.drop_first().len() ==> u.drop_first()[k] == u[k + 1]);
    }
}

/// Two lists that differ only at one class\'s first position come to one
/// list once some later entry rewrites that class.
#[verifier::rlimit(100)]
#[verifier::spinoff_prover]
proof fn lemma_gov_absorb<T>(
    r1: Seq<T>,
    r2: Seq<T>,
    u: Seq<T>,
    p: int,
    same: spec_fn(T, T) -> bool,
)
    requires
        is_equiv(same),
        r1.len() == r2.len(),
        0 <= p < r2.len(),
        forall|j: int| 0 <= j < r2.len() && j != p ==> #[trigger] r1[j] == r2[j],
        same(r1[p], r2[p]),
        gpos(r2, 0, r2[p], same) == Some(p),
        exists|k: int| 0 <= k < u.len() && same(#[trigger] u[k], r2[p]),
    ensures
        gov(r1, u, same) == gov(r2, u, same),
    decreases u.len(),
{
    assert forall|j: int| 0 <= j < r2.len() implies same(#[trigger] r1[j], r2[j]) by {
        if j != p {
            assert(same(r2[j], r2[j]));
        }
    }
    let k0 = choose|k: int| 0 <= k < u.len() && same(#[trigger] u[k], r2[p]);
    let x = u.first();
    lemma_gpos_ids_eq(r1, r2, 0, x, same);
    let pos = gpos(r2, 0, x, same);
    if same(x, r2[p]) {
        assert(pos == Some(p)) by {
            lemma_gpos_congruence(r2, 0, x, r2[p], same);
        }
        assert(gone(r1, x, same) =~= gone(r2, x, same)) by {
            assert(gone(r1, x, same) =~= r1.update(p, x));
            assert(gone(r2, x, same) =~= r2.update(p, x));
            assert forall|j: int| 0 <= j < r1.len() implies r1.update(p, x)[j] == r2.update(
                p,
                x,
            )[j] by {
                if j != p {
                    assert(r1[j] == r2[j]);
                }
            }
        }
    } else {
        match pos {
            Some(q) => {
                assert(q != p) by {
                    lemma_gpos_char(r2, 0, x, same);
                    if q == p {
                        assert(same(r2[p], x));
                        assert(same(x, r2[p]));
                    }
                }
                assert(gpos(r1, 0, x, same) == Some(q));
                assert(gpos(r2, 0, x, same) == Some(q));
                lemma_gpos_char(r2, 0, x, same);
                assert(0 <= q < r2.len());
                let n1 = r1.update(q, x);
                let n2 = r2.update(q, x);
                assert(gone(r1, x, same) == n1);
                assert(gone(r2, x, same) == n2);
                assert(n1.len() == n2.len());
                assert forall|j: int|
                    0 <= j < n2.len() && j != p implies #[trigger] n1[j] == n2[j] by {
                    if j == q {
                        assert(n1[j] == x && n2[j] == x);
                    } else {
                        assert(n1[j] == r1[j] && n2[j] == r2[j]);
                    }
                }
                assert(n1[p] == r1[p] && n2[p] == r2[p]);
                assert(gpos(n2, 0, n2[p], same) == Some(p)) by {
                    lemma_gone_facts(r2, x, same);
                    lemma_gpos_congruence(r2, 0, r2[p], n2[p], same);
                    assert(same(r2[p], n2[p]));
                }
                assert(exists|k: int|
                    0 <= k < u.drop_first().len() && same(
                        #[trigger] u.drop_first()[k],
                        n2[p],
                    )) by {
                    assert(k0 != 0);
                    assert(u.drop_first()[k0 - 1] == u[k0]);
                    assert(same(u[k0], r2[p]));
                }
                lemma_gov_absorb(n1, n2, u.drop_first(), p, same);
            },
            None => {
                assert(gpos(r1, 0, x, same) is None);
                let n1 = r1.push(x);
                let n2 = r2.push(x);
                assert(gone(r1, x, same) == n1);
                assert(gone(r2, x, same) == n2);
                assert(n1.len() == n2.len());
                assert(forall|j: int|
                    0 <= j < n2.len() && j != p ==> #[trigger] n1[j] == n2[j]);
                assert(n1[p] == r1[p] && n2[p] == r2[p]);
                assert(gpos(n2, 0, n2[p], same) == Some(p)) by {
                    lemma_gone_facts(r2, x, same);
                    assert(same(r2[p], n2[p]));
                    lemma_gpos_congruence(r2, 0, r2[p], n2[p], same);
                }
                assert(exists|k: int|
                    0 <= k < u.drop_first().len() && same(
                        #[trigger] u.drop_first()[k],
                        n2[p],
                    )) by {
                    assert(k0 != 0) by {
                        if k0 == 0 {
                            assert(same(x, r2[p]));
                        }
                    }
                    assert(u.drop_first()[k0 - 1] == u[k0]);
                }
                lemma_gov_absorb(n1, n2, u.drop_first(), p, same);
            },
        }
    }
}

/// Overlay idempotence: laying one user file over a base twice gives
/// exactly what laying it once gives.
#[verifier::rlimit(100)]
#[verifier::spinoff_prover]
pub proof fn lemma_gov_idempotent<T>(b: Seq<T>, u: Seq<T>, same: spec_fn(T, T) -> bool)
    requires
        is_equiv(same),
    ensures
        gov(gov(b, u, same), u, same) == gov(b, u, same),
    decreases u.len(),
{
    if u.len() == 0 {
    } else {
        let x = u.first();
        let us = u.drop_first();
        let b1 = gone(b, x, same);
        let r = gov(b, u, same);
        assert(r == gov(b1, us, same));
        lemma_gov_idempotent(b1, us, same);
        assert(gov(r, us, same) == r);
        lemma_gone_facts(b, x, same);
        let q = gpos(b1, 0, x, same).unwrap();
        assert(b1[q] == x);
        lemma_gov_pos_stable(b1, us, x, q, same);
        assert(gpos(r, 0, x, same) == Some(q));
        let n = gone(r, x, same);
        assert(n =~= r.update(q, x));
        if exists|k: int| 0 <= k < us.len() && same(#[trigger] us[k], x) {
            assert(gov(n, us, same) == gov(r, us, same)) by {
                lemma_gpos_char(r, 0, x, same);
                assert(same(n[q], r[q])) by {
                    assert(n[q] == x);
                    assert(same(r[q], x));
                    assert(same(x, r[q]));
                }
                assert(gpos(r, 0, r[q], same) == Some(q)) by {
                    lemma_gpos_congruence(r, 0, x, r[q], same);
                    assert(same(x, r[q])) by {
                        assert(same(r[q], x));
                    }
                }
                assert(exists|k: int| 0 <= k < us.len() && same(#[trigger] us[k], r[q])) by {
                    let k1 = choose|k: int| 0 <= k < us.len() && same(#[trigger] us[k], x);
                    assert(same(r[q], x));
                    assert(same(x, r[q]));
                    assert(same(us[k1], r[q]));
                }
                lemma_gov_absorb(n, r, us, q, same);
            }
            assert(gov(r, u, same) == gov(n, us, same));
        } else {
            assert(r[q] == x) by {
                lemma_gov_no_touch(b1, us, x, q, same);
            }
            lemma_gpos_char(r, 0, x, same);
            assert(0 <= q < r.len());
            assert(n =~= r);
            assert(gov(r, u, same) == gov(n, us, same));
        }
    }
}

/// The identity tuple of a fix for the user-overlay: ident, ICAO region,
/// terminal region.
pub open spec fn fix_same_id(a: crate::navdata::fix::Fix, b: crate::navdata::fix::Fix) -> bool {
    a.ident@ == b.ident@ && a.icao_region@ == b.icao_region@ && a.terminal_region@
        == b.terminal_region@
}

/// The identity relation of the fix overlay, as a value.
pub open spec fn fix_same_fn() -> spec_fn(crate::navdata::fix::Fix, crate::navdata::fix::Fix) -> bool {
    |a: crate::navdata::fix::Fix, b: crate::navdata::fix::Fix| fix_same_id(a, b)
}

/// The first fix with the identity of `u`.
pub open spec fn sp_fix_pos(base: Seq<crate::navdata::fix::Fix>, i: int, u: crate::navdata::fix::Fix) -> Option<int> {
    gpos(base, i, u, fix_same_fn())
}

/// Lay one user fix over the base: replace the first entry with its
/// identity, or append it.
pub open spec fn sp_fix_overlay_one(
    base: Seq<crate::navdata::fix::Fix>,
    u: crate::navdata::fix::Fix,
) -> Seq<crate::navdata::fix::Fix> {
    gone(base, u, fix_same_fn())
}

/// Lay a whole user file over the base, entry by entry, in file order.
pub open spec fn sp_fix_overlay(
    base: Seq<crate::navdata::fix::Fix>,
    user: Seq<crate::navdata::fix::Fix>,
) -> Seq<crate::navdata::fix::Fix> {
    gov(base, user, fix_same_fn())
}

/// Whether two navaid payloads are of the same kind.
pub open spec fn td_same_kind(
    a: crate::navdata::nav::TypeSpecificData,
    b: crate::navdata::nav::TypeSpecificData,
) -> bool {
    match (a, b) {
        (
            crate::navdata::nav::TypeSpecificData::Ndb { .. },
            crate::navdata::nav::TypeSpecificData::Ndb { .. },
        ) => true,
        (
            crate::navdata::nav::TypeSpecificData::Vor { .. },
            crate::navdata::nav::TypeSpecificData::Vor { .. },
        ) => true,
        (
            crate::navdata::nav::TypeSpecificData::Localizer { .. },
            crate::navdata::nav::TypeSpecificData::Localizer { .. },
        ) => true,
        (
            crate::navdata::nav::TypeSpecificData::Glideslope { .. },
            crate::navdata::nav::TypeSpecificData::Glideslope { .. },
        ) => true,
        (
            crate::navdata::nav::TypeSpecificData::MarkerBeacon { .. },
            crate::navdata::nav::TypeSpecificData::MarkerBeacon { .. },
        ) => true,
        (
            crate::navdata::nav::TypeSpecificData::Dme { .. },
            crate::navdata::nav::TypeSpecificData::Dme { .. },
        ) => true,
        (
            crate::navdata::nav::TypeSpecificData::Fpap { .. },
            crate::navdata::nav::TypeSpecificData::Fpap { .. },
        ) => true,
        (
            crate::navdata::nav::TypeSpecificData::ThresholdPoint { .. },
            crate::navdata::nav::TypeSpecificData::ThresholdPoint { .. },
        ) => true,
        (
            crate::navdata::nav::TypeSpecificData::Gls { .. },
            crate::navdata::nav::TypeSpecificData::Gls { .. },
        ) => true,
        _ => false,
    }
}

/// The identity tuple of a navaid for the user-overlay: ident, ICAO
/// region, and the payload kind.
pub open spec fn navaid_same_id(
    a: crate::navdata::nav::Navaid,
    b: crate::navdata::nav::Navaid,
) -> bool {
    a.ident@ == b.ident@ && a.icao_region@ == b.icao_region@ && td_same_kind(
        a.type_data,
        b.type_data,
    )
}

/// The identity relation of the navaid overlay, as a value.
pub open spec fn navaid_same_fn() -> spec_fn(crate::navdata::nav::Navaid, crate::navdata::nav::Navaid) -> bool {
    |a: crate::navdata::nav::Navaid, b: crate::navdata::nav::Navaid| navaid_same_id(a, b)
}

/// The first navaid with the identity of `u`.
pub open spec fn sp_nav_pos(
    base: Seq<crate::navdata::nav::Navaid>,
    i: int,
    u: crate::navdata::nav::Navaid,
) -> Option<int> {
    gpos(base, i, u, navaid_same_fn())
}

pub open spec fn sp_nav_overlay_one(
    base: Seq<crate::navdata::nav::Navaid>,
    u: crate::navdata::nav::Navaid,
) -> Seq<crate::navdata::nav::Navaid> {
    gone(base, u, navaid_same_fn())
}

pub open spec fn sp_nav_overlay(
    base: Seq<crate::navdata::nav::Navaid>,
    user: Seq<crate::navdata::nav::Navaid>,
) -> Seq<crate::navdata::nav::Navaid> {
    gov(base, user, navaid_same_fn())
}

/// The fix overlay identity is an equivalence.
proof fn lemma_fix_same_equiv()
    ensures
        is_equiv(fix_same_fn()),
{
    let same = fix_same_fn();
    assert forall|a: crate::navdata::fix::Fix| #[trigger] same(a, a) by {
        assert(fix_same_id(a, a));
    }
    assert forall|a: crate::navdata::fix::Fix, b: crate::navdata::fix::Fix| #[trigger]
        same(a, b) implies same(b, a) by {
        assert(fix_same_id(a, b) ==> fix_same_id(b, a));
    }
    assert forall|
        a: crate::navdata::fix::Fix,
        b: crate::navdata::fix::Fix,
        c: crate::navdata::fix::Fix,
    | #[trigger] same(a, b) && #[trigger] same(b, c) implies same(a, c) by {
        assert(fix_same_id(a, b) && fix_same_id(b, c) ==> fix_same_id(a, c));
    }
}

/// Overlay idempotence for fixes: laying one user fix file over a base
/// twice leaves exactly the list that laying it once leaves, so the graph
/// built from it is the same graph.
pub proof fn lemma_fix_overlay_idempotent(
    base: Seq<crate::navdata::fix::Fix>,
    user: Seq<crate::navdata::fix::Fix>,
)
    ensures
        sp_fix_overlay(sp_fix_overlay(base, user), user) == sp_fix_overlay(base, user),
{
    lemma_fix_same_equiv();
    lemma_gov_idempotent(base, user, fix_same_fn());
}

/// The navaid overlay identity is an equivalence.
proof fn lemma_navaid_same_equiv()
    ensures
        is_equiv(navaid_same_fn()),
{
    let same = navaid_same_fn();
    assert forall|a: crate::navdata::nav::Navaid| #[trigger] same(a, a) by {
        assert(navaid_same_id(a, a));
    }
    assert forall|a: crate::navdata::nav::Navaid, b: crate::navdata::nav::Navaid| #[trigger]
        same(a, b) implies same(b, a) by {
        assert(navaid_same_id(a, b) ==> navaid_same_id(b, a));
    }
    assert forall|
        a: crate::navdata::nav::Navaid,
        b: crate::navdata::nav::Navaid,
        c: crate::navdata::nav::Navaid,
    | #[trigger] same(a, b) && #[trigger] same(b, c) implies same(a, c) by {
        assert(navaid_same_id(a, b) && navaid_same_id(b, c) ==> navaid_same_id(a, c));
    }
}

/// Overlay idempotence for navaids.
pub proof fn lemma_nav_overlay_idempotent(
    base: Seq<crate::navdata::nav::Navaid>,
    user: Seq<crate::navdata::nav::Navaid>,
)
    ensures
        sp_nav_overlay(sp_nav_overlay(base, user), user) == sp_nav_overlay(base, user),
{
    lemma_navaid_same_equiv();
    lemma_gov_idempotent(base, user, navaid_same_fn());
}

/// Whether two fixes carry the same overlay identity.
fn fix_id_eq(a: &crate::navdata::fix::Fix, b: &crate::navdata::fix::Fix) -> (r: bool)
    ensures
        r == fix_same_id(*a, *b),
{
    str_eq(a.ident.as_str(), b.ident.as_str()) && str_eq(
        a.icao_region.as_str(),
        b.icao_region.as_str(),
    ) && str_eq(a.terminal_region.as_str(), b.terminal_region.as_str())
}

/// Whether two navaids carry the same overlay identity.
fn navaid_id_eq(a: &crate::navdata::nav::Navaid, b: &crate::navdata::nav::Navaid) -> (r: bool)
    ensures
        r == navaid_same_id(*a, *b),
{
    let kind_ok = match (&a.type_data, &b.type_data) {
        (
            crate::navdata::nav::TypeSpecificData::Ndb { .. },
            crate::navdata::nav::TypeSpecificData::Ndb { .. },
        ) => true,
        (
            crate::navdata::nav::TypeSpecificData::Vor { .. },
            crate::navdata::nav::TypeSpecificData::Vor { .. },
        ) => true,
        (
            crate::navdata::nav::TypeSpecificData::Localizer { .. },
            crate::navdata::nav::TypeSpecificData::Localizer { .. },
        ) => true,
        (
            crate::navdata::nav::TypeSpecificData::Glideslope { .. },
            crate::navdata::nav::TypeSpecificData::Glideslope { .. },
        ) => true,
        (
            crate::navdata::nav::TypeSpecificData::MarkerBeacon { .. },
            crate::navdata::nav::TypeSpecificData::MarkerBeacon { .. },
        ) => true,
        (
            crate::navdata::nav::TypeSpecificData::Dme { .. },
            crate::navdata::nav::TypeSpecificData::Dme { .. },
        ) => true,
        (
            crate::navdata::nav::TypeSpecificData::Fpap { .. },
            crate::navdata::nav::TypeSpecificData::Fpap { .. },
        ) => true,
        (
            crate::navdata::nav::TypeSpecificData::ThresholdPoint { .. },
            crate::navdata::nav::TypeSpecificData::ThresholdPoint { .. },
        ) => true,
        (
            crate::navdata::nav::TypeSpecificData::Gls { .. },
            crate::navdata::nav::TypeSpecificData::Gls { .. },
        ) => true,
        _ => false,
    };
    kind_ok && str_eq(a.ident.as_str(), b.ident.as_str()) && str_eq(
        a.icao_region.as_str(),
        b.icao_region.as_str(),
    )
}

/// Lay the user fixes over the base list, replacing by identity or
/// appending.
pub fn overlay_fixes(base: &mut Vec<crate::navdata::fix::Fix>, user: Vec<crate::navdata::fix::Fix>)
    ensures
        final(base)@ == sp_fix_overlay(old(base)@, user@),
{
    let mut user = user;
    let ghost user0 = user@;
    while user.len() > 0
        invariant
            sp_fix_overlay(old(base)@, user0) == sp_fix_overlay(base@, user@),
        decreases user@.len(),
    {
        let ghost users_b = user@;
        let u = user.remove(0);
        proof {
            assert(user@ =~= users_b.drop_first());
            assert(u == users_b.first());
        }
        let mut p: usize = 0;
        let mut found: Option<usize> = None;
        while p < base.len() && found.is_none()
            invariant
                p <= base@.len(),
                found is None ==> sp_fix_pos(base@, 0, u) == sp_fix_pos(base@, p as int, u),
                found matches Some(q) ==> sp_fix_pos(base@, 0, u) == Some(q as int) && q
                    < base@.len(),
            decreases base@.len() - p + (if found is None {
                1int
            } else {
                0int
            }),
        {
            if fix_id_eq(&base[p], &u) {
                found = Some(p);
            } else {
                p = p + 1;
            }
        }
        let ghost base_b = base@;
        match found {
            Some(q) => {
                base.set(q, u);
                proof {
                    assert(base@ =~= sp_fix_overlay_one(base_b, users_b.first()));
                }
            },
            None => {
                base.push(u);
                proof {
                    assert(base@ =~= sp_fix_overlay_one(base_b, users_b.first()));
                }
            },
        }
    }
}

/// Lay the user navaids over the base list, replacing by identity (the
/// payload kind included) or appending.
pub fn overlay_navaids(
    base: &mut Vec<crate::navdata::nav::Navaid>,
    user: Vec<crate::navdata::nav::Navaid>,
)
    ensures
        final(base)@ == sp_nav_overlay(old(base)@, user@),
{
    let mut user = user;
    let ghost user0 = user@;
    while user.len() > 0
        invariant
            sp_nav_overlay(old(base)@, user0) == sp_nav_overlay(base@, user@),
        decreases user@.len(),
    {
        let ghost users_b = user@;
        let u = user.remove(0);
        proof {
            assert(user@ =~= users_b.drop_first());
            assert(u == users_b.first());
        }
        let mut p: usize = 0;
        let mut found: Option<usize> = None;
        while p < base.len() && found.is_none()
            invariant
                p <= base@.len(),
                found is None ==> sp_nav_pos(base@, 0, u) == sp_nav_pos(base@, p as int, u),
                found matches Some(q) ==> sp_nav_pos(base@, 0, u) == Some(q as int) && q
                    < base@.len(),
            decreases base@.len() - p + (if found is None {
                1int
            } else {
                0int
            }),
        {
            if navaid_id_eq(&base[p], &u) {
                found = Some(p);
            } else {
                p = p + 1;
            }
        }
        let ghost base_b = base@;
        match found {
            Some(q) => {
                base.set(q, u);
                proof {
                    assert(base@ =~= sp_nav_overlay_one(base_b, users_b.first()));
                }
            },
            None => {
                base.push(u);
                proof {
                    assert(base@ =~= sp_nav_overlay_one(base_b, users_b.first()));
                }
            },
        }
    }
}

/// Header decoding is injective on version, cycle and build: two accepted
/// header lines that decode to one version, one cycle and one build agree
/// on the characters of all three columns.
pub proof fn lemma_header_injective(l1: Seq<char>, l2: Seq<char>, kind: FileKind)
    requires
        sp_header_line(l1, kind) is Some,
        sp_header_line(l2, kind) is Some,
        sp_header_line(l1, kind).unwrap().version == sp_header_line(l2, kind).unwrap().version,
        sp_header_line(l1, kind).unwrap().cycle == sp_header_line(l2, kind).unwrap().cycle,
        sp_header_line(l1, kind).unwrap().build == sp_header_line(l2, kind).unwrap().build,
    ensures
        l1.subrange(0, 4) == l2.subrange(0, 4),
        ({
            let p1 = 4 + " Version - data cycle "@.len() as int;
            l1.subrange(p1, p1 + 4) == l2.subrange(p1, p1 + 4)
        }),
        ({
            let p2 = 4 + " Version - data cycle "@.len() as int + 4 + ", build "@.len() as int;
            l1.subrange(p2, p2 + 8) == l2.subrange(p2, p2 + 8)
        }),
{
    let h1 = sp_header_line(l1, kind).unwrap();
    let h2 = sp_header_line(l2, kind).unwrap();
    let c1 = l1.subrange(0, 4);
    let c2 = l2.subrange(0, 4);
    assert(sp_version(c1) == Some(h1.version));
    assert(sp_version(c2) == Some(h2.version));
    assert(c1 == c2) by {
        if c1 == "1100"@ || c1 == "1101"@ || c1 == "1140"@ || c1 == "1150"@ || c1 == "1200"@ {
        }
    }
    let p1 = 4 + " Version - data cycle "@.len() as int;
    let cy1 = l1.subrange(p1, p1 + 4);
    let cy2 = l2.subrange(p1, p1 + 4);
    assert(all_digits(cy1) && all_digits(cy2));
    assert(digits_val(cy1) == h1.cycle && digits_val(cy2) == h2.cycle);
    crate::navdata::scan::lemma_digits_val_injective(cy1, cy2);
    let p2 = p1 + 4 + ", build "@.len() as int;
    let b1 = l1.subrange(p2, p2 + 8);
    let b2 = l2.subrange(p2, p2 + 8);
    assert(all_digits(b1) && all_digits(b2));
    crate::navdata::scan::lemma_digits_val_injective(b1, b2);
}

/// Sentinel placement: a body holding the sentinel `99` alone, directly
/// after the preamble, is a valid, empty body under every row grammar.
pub proof fn lemma_sentinel_only(ls: Seq<Seq<char>>, ok: spec_fn(Seq<char>) -> bool)
    requires
        ls.len() == 3,
        ls[2] == "99"@,
    ensures
        sp_shape(ls, 2, ok) == FileShape::Rows(Seq::<int>::empty()),
{
}

/// Whether two fixes agree on everything the overlay identity, the
/// waypoint resolution and the hold region check read: ident, ICAO region
/// and terminal region, compared by characters.
pub open spec fn fix_vq(a: crate::navdata::fix::Fix, b: crate::navdata::fix::Fix) -> bool {
    &&& a.ident@ == b.ident@
    &&& a.icao_region@ == b.icao_region@
    &&& a.terminal_region@ == b.terminal_region@
}

pub open spec fn fix_vq_fn() -> spec_fn(crate::navdata::fix::Fix, crate::navdata::fix::Fix) -> bool {
    |a: crate::navdata::fix::Fix, b: crate::navdata::fix::Fix| fix_vq(a, b)
}

/// Whether two navaids agree on everything the overlay identity, the
/// waypoint resolution and the hold region check read: ident, ICAO region,
/// the payload kind, a DME's display flag, and an NDB's or DME's terminal
/// region.
pub open spec fn navaid_vq(a: crate::navdata::nav::Navaid, b: crate::navdata::nav::Navaid) -> bool {
    &&& a.ident@ == b.ident@
    &&& a.icao_region@ == b.icao_region@
    &&& td_same_kind(a.type_data, b.type_data)
    &&& match (a.type_data, b.type_data) {
        (
            crate::navdata::nav::TypeSpecificData::Ndb { terminal_region: t1, .. },
            crate::navdata::nav::TypeSpecificData::Ndb { terminal_region: t2, .. },
        ) => t1@ == t2@,
        (
            crate::navdata::nav::TypeSpecificData::Dme {
                display_freq: d1,
                terminal_region: t1,
                ..
            },
            crate::navdata::nav::TypeSpecificData::Dme {
                display_freq: d2,
                terminal_region: t2,
                ..
            },
        ) => d1 == d2 && t1@ == t2@,
        _ => true,
    }
}

pub open spec fn navaid_vq_fn() -> spec_fn(
    crate::navdata::nav::Navaid,
    crate::navdata::nav::Navaid,
) -> bool {
    |a: crate::navdata::nav::Navaid, b: crate::navdata::nav::Navaid| navaid_vq(a, b)
}

/// Whether two vertices agree on everything the waypoint resolution and
/// the hold region check read.
pub open spec fn entry_vq(a: NavEntry, b: NavEntry) -> bool {
    match (a, b) {
        (NavEntry::Fix(f1), NavEntry::Fix(f2)) => fix_vq(f1, f2),
        (NavEntry::Navaid(n1), NavEntry::Navaid(n2)) => navaid_vq(n1, n2),
        _ => false,
    }
}

/// Whether the relation `same` cannot tell apart values that `vq`
/// identifies.
pub open spec fn sp_respects<T>(same: spec_fn(T, T) -> bool, vq: spec_fn(T, T) -> bool) -> bool {
    forall|a1: T, a2: T, c1: T, c2: T|
        vq(a1, a2) && vq(c1, c2) ==> #[trigger] same(a1, c1) == #[trigger] same(a2, c2)
}

/// The fix overlay identity reads only what `fix_vq` compares.
proof fn lemma_fix_respects()
    ensures
        sp_respects(fix_same_fn(), fix_vq_fn()),
{
    let same = fix_same_fn();
    let vq = fix_vq_fn();
    assert forall|
        a1: crate::navdata::fix::Fix,
        a2: crate::navdata::fix::Fix,
        c1: crate::navdata::fix::Fix,
        c2: crate::navdata::fix::Fix,
    |
        vq(a1, a2) && vq(c1, c2) implies #[trigger] same(a1, c1) == #[trigger] same(a2, c2) by {
        assert(fix_vq(a1, a2) && fix_vq(c1, c2));
        assert(fix_same_id(a1, c1) == fix_same_id(a2, c2));
    }
}

/// The navaid overlay identity reads only what `navaid_vq` compares.
proof fn lemma_navaid_respects()
    ensures
        sp_respects(navaid_same_fn(), navaid_vq_fn()),
{
    let same = navaid_same_fn();
    let vq = navaid_vq_fn();
    assert forall|
        a1: crate::navdata::nav::Navaid,
        a2: crate::navdata::nav::Navaid,
        c1: crate::navdata::nav::Navaid,
        c2: crate::navdata::nav::Navaid,
    |
        vq(a1, a2) && vq(c1, c2) implies #[trigger] same(a1, c1) == #[trigger] same(a2, c2) by {
        assert(navaid_vq(a1, a2) && navaid_vq(c1, c2));
        assert(td_same_kind(a1.type_data, c1.type_data) == td_same_kind(
            a2.type_data,
            c2.type_data,
        ));
        assert(navaid_same_id(a1, c1) == navaid_same_id(a2, c2));
    }
}

/// Lists that pair off under `vq` find every entry one first position.
proof fn lemma_gpos_respects<T>(
    b1: Seq<T>,
    b2: Seq<T>,
    i: int,
    x1: T,
    x2: T,
    same: spec_fn(T, T) -> bool,
    vq: spec_fn(T, T) -> bool,
)
    requires
        0 <= i,
        sp_respects(same, vq),
        b1.len() == b2.len(),
        forall|j: int| 0 <= j < b1.len() ==> vq(#[trigger] b1[j], b2[j]),
        vq(x1, x2),
    ensures
        gpos(b1, i, x1, same) == gpos(b2, i, x2, same),
    decreases b1.len() - i,
{
    if i < b1.len() {
        assert(vq(b1[i], b2[i]));
        assert(same(b1[i], x1) == same(b2[i], x2));
        lemma_gpos_respects(b1, b2, i + 1, x1, x2, same, vq);
    }
}

/// Overlaying lists that pair off under `vq` with user lists that pair off
/// under `vq` leaves lists that pair off under `vq`.
proof fn lemma_gov_respects<T>(
    b1: Seq<T>,
    u1: Seq<T>,
    b2: Seq<T>,
    u2: Seq<T>,
    same: spec_fn(T, T) -> bool,
    vq: spec_fn(T, T) -> bool,
)
    requires
        sp_respects(same, vq),
        b1.len() == b2.len(),
        forall|j: int| 0 <= j < b1.len() ==> vq(#[trigger] b1[j], b2[j]),
        u1.len() == u2.len(),
        forall|k: int| 0 <= k < u1.len() ==> vq(#[trigger] u1[k], u2[k]),
    ensures
        gov(b1, u1, same).len() == gov(b2, u2, same).len(),
        forall|j: int|
            0 <= j < gov(b1, u1, same).len() ==> vq(
                #[trigger] gov(b1, u1, same)[j],
                gov(b2, u2, same)[j],
            ),
    decreases u1.len(),
{
    if u1.len() > 0 {
        let x1 = u1.first();
        let x2 = u2.first();
        assert(vq(u1[0], u2[0]));
        lemma_gpos_respects(b1, b2, 0, x1, x2, same, vq);
        let n1 = gone(b1, x1, same);
        let n2 = gone(b2, x2, same);
        assert(n1.len() == n2.len() && forall|j: int|
            0 <= j < n1.len() ==> vq(#[trigger] n1[j], n2[j])) by {
            lemma_gpos_char(b1, 0, x1, same);
            match gpos(b1, 0, x1, same) {
                Some(p) => {
                    assert(n1 =~= b1.update(p, x1));
                    assert(n2 =~= b2.update(p, x2));
                    assert forall|j: int| 0 <= j < n1.len() implies vq(
                        #[trigger] n1[j],
                        n2[j],
                    ) by {
                        if j != p {
                            assert(n1[j] == b1[j] && n2[j] == b2[j]);
                        }
                    }
                },
                None => {
                    assert(n1 =~= b1.push(x1));
                    assert(n2 =~= b2.push(x2));
                    assert forall|j: int| 0 <= j < n1.len() implies vq(
                        #[trigger] n1[j],
                        n2[j],
                    ) by {
                        if j < b1.len() {
                            assert(n1[j] == b1[j] && n2[j] == b2[j]);
                        }
                    }
                },
            }
        }
        assert(u1.drop_first().len() == u2.drop_first().len() && forall|k: int|
            0 <= k < u1.drop_first().len() ==> vq(
                #[trigger] u1.drop_first()[k],
                u2.drop_first()[k],
            )) by {
            assert forall|k: int| 0 <= k < u1.drop_first().len() implies vq(
                #[trigger] u1.drop_first()[k],
                u2.drop_first()[k],
            ) by {
                assert(u1.drop_first()[k] == u1[k + 1] && u2.drop_first()[k] == u2[k + 1]);
            }
        }
        lemma_gov_respects(n1, u1.drop_first(), n2, u2.drop_first(), same, vq);
    }
}

/// One text decodes any two fix lists to the same content.
proof fn lemma_fixes_of_vq(
    t: Seq<char>,
    fs1: Seq<crate::navdata::fix::Fix>,
    fs2: Seq<crate::navdata::fix::Fix>,
)
    requires
        crate::navdata::fix::fixes_of(t, fs1),
        crate::navdata::fix::fixes_of(t, fs2),
    ensures
        fs1.len() == fs2.len(),
        forall|k: int| 0 <= k < fs1.len() ==> fix_vq(#[trigger] fs1[k], fs2[k]),
{
    let ls = spec_lines(t);
    let idx = sp_shape(ls, 2, crate::navdata::fix::fix_ok_fn())->Rows_0;
    assert forall|k: int| 0 <= k < fs1.len() implies fix_vq(#[trigger] fs1[k], fs2[k]) by {
        let v = crate::navdata::fix::sp_fix_row(ls[idx[k]]).unwrap();
        assert(crate::navdata::fix::fix_matches(fs1[k], v));
        assert(crate::navdata::fix::fix_matches(fs2[k], v));
    }
}

/// One text decodes any two navaid lists to the same content.
proof fn lemma_navaids_of_vq(
    t: Seq<char>,
    ns1: Seq<crate::navdata::nav::Navaid>,
    ns2: Seq<crate::navdata::nav::Navaid>,
)
    requires
        crate::navdata::nav::navaids_of(t, ns1),
        crate::navdata::nav::navaids_of(t, ns2),
    ensures
        ns1.len() == ns2.len(),
        forall|k: int| 0 <= k < ns1.len() ==> navaid_vq(#[trigger] ns1[k], ns2[k]),
{
    let ls = spec_lines(t);
    let idx = sp_shape(ls, 2, crate::navdata::nav::nav_ok_fn())->Rows_0;
    assert forall|k: int| 0 <= k < ns1.len() implies navaid_vq(#[trigger] ns1[k], ns2[k]) by {
        let v = crate::navdata::nav::sp_nav_row(ls[idx[k]]).unwrap();
        assert(crate::navdata::nav::navaid_matches(ns1[k], v));
        assert(crate::navdata::nav::navaid_matches(ns2[k], v));
        assert(crate::navdata::nav::td_matches(ns1[k].type_data, v.type_data));
        assert(crate::navdata::nav::td_matches(ns2[k].type_data, v.type_data));
    }
}

/// The vertex list two entry lists give: the fixes, then the navaids.
pub open spec fn sp_entry_list(
    fs: Seq<crate::navdata::fix::Fix>,
    ns: Seq<crate::navdata::nav::Navaid>,
) -> Seq<NavEntry> {
    fs.map_values(|f: crate::navdata::fix::Fix| NavEntry::Fix(f)) + ns.map_values(
        |n: crate::navdata::nav::Navaid| NavEntry::Navaid(n),
    )
}

/// The vertex list a database's decoded files give: the overlaid fixes,
/// then the overlaid navaids.
pub open spec fn sp_overlaid_nodes(
    fs: Seq<crate::navdata::fix::Fix>,
    ufs: Seq<crate::navdata::fix::Fix>,
    nvs: Seq<crate::navdata::nav::Navaid>,
    unvs: Seq<crate::navdata::nav::Navaid>,
) -> Seq<NavEntry> {
    sp_entry_list(sp_fix_overlay(fs, ufs), sp_nav_overlay(nvs, unvs))
}

/// Entry lists that pair off under `vq` give vertex lists that pair off.
proof fn lemma_entry_list_vq(
    f1: Seq<crate::navdata::fix::Fix>,
    f2: Seq<crate::navdata::fix::Fix>,
    n1: Seq<crate::navdata::nav::Navaid>,
    n2: Seq<crate::navdata::nav::Navaid>,
)
    requires
        f1.len() == f2.len(),
        forall|j: int| 0 <= j < f1.len() ==> fix_vq(#[trigger] f1[j], f2[j]),
        n1.len() == n2.len(),
        forall|j: int| 0 <= j < n1.len() ==> navaid_vq(#[trigger] n1[j], n2[j]),
    ensures
        sp_entry_list(f1, n1).len() == sp_entry_list(f2, n2).len(),
        forall|j: int|
            0 <= j < sp_entry_list(f1, n1).len() ==> entry_vq(
                #[trigger] sp_entry_list(f1, n1)[j],
                sp_entry_list(f2, n2)[j],
            ),
{
    let e1 = sp_entry_list(f1, n1);
    let e2 = sp_entry_list(f2, n2);
    assert forall|j: int| 0 <= j < e1.len() implies entry_vq(#[trigger] e1[j], e2[j]) by {
        if j < f1.len() {
            assert(e1[j] == NavEntry::Fix(f1[j]));
            assert(e2[j] == NavEntry::Fix(f2[j]));
            assert(fix_vq(f1[j], f2[j]));
        } else {
            assert(e1[j] == NavEntry::Navaid(n1[j - f1.len()]));
            assert(e2[j] == NavEntry::Navaid(n2[j - f1.len()]));
            assert(navaid_vq(n1[j - f1.len()], n2[j - f1.len()]));
        }
    }
}

/// Waypoint matching reads only what `entry_vq` compares.
proof fn lemma_wpt_match_vq(
    ident: Seq<char>,
    icao: Seq<char>,
    typ: ParsedNodeRefType,
    a: NavEntry,
    b: NavEntry,
)
    requires
        entry_vq(a, b),
    ensures
        sp_wpt_match(ident, icao, typ, a) == sp_wpt_match(ident, icao, typ, b),
{
    match (a, b) {
        (NavEntry::Navaid(x1), NavEntry::Navaid(x2)) => {
            assert(td_same_kind(x1.type_data, x2.type_data));
        },
        _ => {},
    }
}

/// The hold region check reads only what `entry_vq` compares.
proof fn lemma_hold_region_vq(terminal: Seq<char>, a: NavEntry, b: NavEntry)
    requires
        entry_vq(a, b),
    ensures
        crate::navdata::hold::sp_hold_region_ok(terminal, a)
            == crate::navdata::hold::sp_hold_region_ok(terminal, b),
{
    match (a, b) {
        (NavEntry::Navaid(x1), NavEntry::Navaid(x2)) => {
            assert(td_same_kind(x1.type_data, x2.type_data));
        },
        _ => {},
    }
}

/// Vertex lists that pair off under `entry_vq` resolve every waypoint
/// reference to the same position.
proof fn lemma_first_match_vq(
    n1: Seq<NavEntry>,
    n2: Seq<NavEntry>,
    i: int,
    ident: Seq<char>,
    icao: Seq<char>,
    typ: ParsedNodeRefType,
)
    requires
        0 <= i,
        n1.len() == n2.len(),
        forall|j: int| 0 <= j < n1.len() ==> entry_vq(#[trigger] n1[j], n2[j]),
    ensures
        crate::navdata::graph::sp_first_match(n1, i, ident, icao, typ)
            == crate::navdata::graph::sp_first_match(n2, i, ident, icao, typ),
    decreases n1.len() - i,
{
    if i < n1.len() {
        assert(entry_vq(n1[i], n2[i]));
        lemma_wpt_match_vq(ident, icao, typ, n1[i], n2[i]);
        lemma_first_match_vq(n1, n2, i + 1, ident, icao, typ);
    }
}

/// Vertex lists that pair off under `entry_vq` resolve every hold
/// reference to the same position.
proof fn lemma_first_hold_vq(
    n1: Seq<NavEntry>,
    n2: Seq<NavEntry>,
    i: int,
    terminal: Seq<char>,
    ident: Seq<char>,
    icao: Seq<char>,
    typ: ParsedNodeRefType,
)
    requires
        0 <= i,
        n1.len() == n2.len(),
        forall|j: int| 0 <= j < n1.len() ==> entry_vq(#[trigger] n1[j], n2[j]),
    ensures
        crate::navdata::hold::sp_first_hold(n1, i, terminal, ident, icao, typ)
            == crate::navdata::hold::sp_first_hold(n2, i, terminal, ident, icao, typ),
    decreases n1.len() - i,
{
    if i < n1.len() {
        assert(entry_vq(n1[i], n2[i]));
        lemma_wpt_match_vq(ident, icao, typ, n1[i], n2[i]);
        lemma_hold_region_vq(terminal, n1[i], n2[i]);
        lemma_first_hold_vq(n1, n2, i + 1, terminal, ident, icao, typ);
    }
}

/// Vertex lists that pair off under `entry_vq` accept the same airway
/// rows.
proof fn lemma_awy_ok_fn_vq(n1: Seq<NavEntry>, n2: Seq<NavEntry>)
    requires
        n1.len() == n2.len(),
        forall|j: int| 0 <= j < n1.len() ==> entry_vq(#[trigger] n1[j], n2[j]),
    ensures
        crate::navdata::airways::awy_ok_fn(n1) == crate::navdata::airways::awy_ok_fn(n2),
{
    let f1 = crate::navdata::airways::awy_ok_fn(n1);
    let f2 = crate::navdata::airways::awy_ok_fn(n2);
    assert forall|l: Seq<char>| #[trigger] f1(l) == f2(l) by {
        if crate::navdata::airways::sp_awy_row(l) is Some {
            let v = crate::navdata::airways::sp_awy_row(l).unwrap();
            lemma_first_match_vq(n1, n2, 0, v.first_ident, v.first_icao, v.first_typ);
            lemma_first_match_vq(n1, n2, 0, v.second_ident, v.second_icao, v.second_typ);
        }
    }
    assert(f1 =~= f2);
}

/// Vertex lists that pair off under `entry_vq` accept the same hold rows.
proof fn lemma_hold_ok_fn_vq(n1: Seq<NavEntry>, n2: Seq<NavEntry>)
    requires
        n1.len() == n2.len(),
        forall|j: int| 0 <= j < n1.len() ==> entry_vq(#[trigger] n1[j], n2[j]),
    ensures
        crate::navdata::hold::hold_ok_fn(n1) == crate::navdata::hold::hold_ok_fn(n2),
{
    let f1 = crate::navdata::hold::hold_ok_fn(n1);
    let f2 = crate::navdata::hold::hold_ok_fn(n2);
    assert forall|l: Seq<char>| #[trigger] f1(l) == f2(l) by {
        if crate::navdata::hold::sp_hold_row(l) is Some {
            let v = crate::navdata::hold::sp_hold_row(l).unwrap();
            lemma_first_hold_vq(n1, n2, 0, v.terminal_region, v.ident, v.icao_region, v.typ);
        }
    }
    assert(f1 =~= f2);
}

/// The four fix and navaid texts are accepted and decode to the four
/// entry lists (an absent overlay decodes to the empty list).
pub open spec fn sp_base_sources_ok(
    fix: Seq<char>,
    ufix: Option<Seq<char>>,
    nav: Seq<char>,
    unav: Option<Seq<char>>,
    fs: Seq<crate::navdata::fix::Fix>,
    ufs: Seq<crate::navdata::fix::Fix>,
    nvs: Seq<crate::navdata::nav::Navaid>,
    unvs: Seq<crate::navdata::nav::Navaid>,
) -> bool {
    &&& crate::navdata::fix::sp_fix_file_ok(fix)
    &&& crate::navdata::fix::fixes_of(fix, fs)
    &&& match ufix {
        Some(t) => crate::navdata::fix::sp_fix_file_ok(t) && crate::navdata::fix::fixes_of(
            t,
            ufs,
        ),
        None => ufs == Seq::<crate::navdata::fix::Fix>::empty(),
    }
    &&& crate::navdata::nav::sp_nav_file_ok(nav)
    &&& crate::navdata::nav::navaids_of(nav, nvs)
    &&& match unav {
        Some(t) => crate::navdata::nav::sp_nav_file_ok(t) && crate::navdata::nav::navaids_of(
            t,
            unvs,
        ),
        None => unvs == Seq::<crate::navdata::nav::Navaid>::empty(),
    }
}

/// The airway text is accepted against the vertex list: preamble, header,
/// and every row serviceable up to the sentinel.
pub open spec fn sp_awy_source_ok(awy: Seq<char>, nodes: Seq<NavEntry>) -> bool {
    let ls = spec_lines(awy);
    &&& ls.len() >= 2
    &&& bom_ok(ls[0])
    &&& sp_header_line(ls[1], FileKind::Awy) is Some
    &&& sp_shape(ls, 2, crate::navdata::airways::awy_ok_fn(nodes)) is Rows
}

/// The hold text is accepted against the vertex list.
pub open spec fn sp_hold_source_ok(hold: Seq<char>, nodes: Seq<NavEntry>) -> bool {
    let ls = spec_lines(hold);
    &&& ls.len() >= 2
    &&& bom_ok(ls[0])
    &&& (sp_header_line(ls[1], FileKind::Hold) matches Some(h) && h.version
        == DataVersion::XP1140)
    &&& sp_shape(ls, 2, crate::navdata::hold::hold_ok_fn(nodes)) is Rows
}

/// The AIRAC cycle a file's header line names.
pub open spec fn sp_cycle_of(text: Seq<char>, kind: FileKind) -> int {
    sp_header_line(spec_lines(text)[1], kind).unwrap().cycle
}

/// The view of an optional file text.
pub open spec fn opt_view(o: Option<&str>) -> Option<Seq<char>> {
    match o {
        Some(t) => Some(t@),
        None => None,
    }
}

/// How a finished graph relates to the six file texts: `fs`/`nvs` decode
/// the base files, `ufs`/`unvs` the user overlays (empty when absent), the
/// vertices are the overlaid fixes then the overlaid navaids, the first
/// `aw_len` edges are the airway file's rows and the rest the hold file's.
pub open spec fn sp_built(
    g: crate::navdata::graph::DiGraph,
    fix: Seq<char>,
    ufix: Option<Seq<char>>,
    nav: Seq<char>,
    unav: Option<Seq<char>>,
    awy: Seq<char>,
    hold: Seq<char>,
    fs: Seq<crate::navdata::fix::Fix>,
    ufs: Seq<crate::navdata::fix::Fix>,
    nvs: Seq<crate::navdata::nav::Navaid>,
    unvs: Seq<crate::navdata::nav::Navaid>,
    aw_len: int,
) -> bool {
    let merged_f = sp_fix_overlay(fs, ufs);
    let merged_n = sp_nav_overlay(nvs, unvs);
    let nodes = merged_f.map_values(|f: crate::navdata::fix::Fix| NavEntry::Fix(f))
        + merged_n.map_values(|n: crate::navdata::nav::Navaid| NavEntry::Navaid(n));
    &&& crate::navdata::fix::fixes_of(fix, fs)
    &&& match ufix {
        Some(t) => crate::navdata::fix::fixes_of(t, ufs),
        None => ufs == Seq::<crate::navdata::fix::Fix>::empty(),
    }
    &&& crate::navdata::nav::navaids_of(nav, nvs)
    &&& match unav {
        Some(t) => crate::navdata::nav::navaids_of(t, unvs),
        None => unvs == Seq::<crate::navdata::nav::Navaid>::empty(),
    }
    &&& g.nodes@ == nodes
    &&& 0 <= aw_len <= g.edges@.len()
    &&& (sp_shape(spec_lines(awy), 2, crate::navdata::airways::awy_ok_fn(nodes))
        matches FileShape::Rows(aidx) && crate::navdata::airways::rows_applied(
        g.edges@.subrange(0, aw_len),
        0,
        spec_lines(awy),
        aidx,
        nodes,
    ))
    &&& (sp_shape(spec_lines(hold), 2, crate::navdata::hold::hold_ok_fn(nodes))
        matches FileShape::Rows(hidx) && crate::navdata::hold::hold_rows_applied(
        g.edges@,
        aw_len,
        spec_lines(hold),
        hidx,
        nodes,
    ))
}

/// Two decodings of the same four texts give vertex lists that pair off
/// under `entry_vq`.
proof fn lemma_sources_nodes_vq(
    fix: Seq<char>,
    ufix: Option<Seq<char>>,
    nav: Seq<char>,
    unav: Option<Seq<char>>,
    fs1: Seq<crate::navdata::fix::Fix>,
    ufs1: Seq<crate::navdata::fix::Fix>,
    nvs1: Seq<crate::navdata::nav::Navaid>,
    unvs1: Seq<crate::navdata::nav::Navaid>,
    fs2: Seq<crate::navdata::fix::Fix>,
    ufs2: Seq<crate::navdata::fix::Fix>,
    nvs2: Seq<crate::navdata::nav::Navaid>,
    unvs2: Seq<crate::navdata::nav::Navaid>,
)
    requires
        sp_base_sources_ok(fix, ufix, nav, unav, fs1, ufs1, nvs1, unvs1),
        sp_base_sources_ok(fix, ufix, nav, unav, fs2, ufs2, nvs2, unvs2),
    ensures
        sp_overlaid_nodes(fs1, ufs1, nvs1, unvs1).len() == sp_overlaid_nodes(
            fs2,
            ufs2,
            nvs2,
            unvs2,
        ).len(),
        forall|j: int|
            0 <= j < sp_overlaid_nodes(fs1, ufs1, nvs1, unvs1).len() ==> entry_vq(
                #[trigger] sp_overlaid_nodes(fs1, ufs1, nvs1, unvs1)[j],
                sp_overlaid_nodes(fs2, ufs2, nvs2, unvs2)[j],
            ),
{
    lemma_fixes_of_vq(fix, fs1, fs2);
    match ufix {
        Some(t) => lemma_fixes_of_vq(t, ufs1, ufs2),
        None => {},
    }
    lemma_navaids_of_vq(nav, nvs1, nvs2);
    match unav {
        Some(t) => lemma_navaids_of_vq(t, unvs1, unvs2),
        None => {},
    }
    lemma_fix_respects();
    lemma_navaid_respects();
    let fvq = fix_vq_fn();
    let nvq = navaid_vq_fn();
    assert(forall|j: int| 0 <= j < fs1.len() ==> fvq(#[trigger] fs1[j], fs2[j]));
    assert(forall|k: int| 0 <= k < ufs1.len() ==> fvq(#[trigger] ufs1[k], ufs2[k]));
    assert(forall|j: int| 0 <= j < nvs1.len() ==> nvq(#[trigger] nvs1[j], nvs2[j]));
    assert(forall|k: int| 0 <= k < unvs1.len() ==> nvq(#[trigger] unvs1[k], unvs2[k]));
    lemma_gov_respects(fs1, ufs1, fs2, ufs2, fix_same_fn(), fvq);
    lemma_gov_respects(nvs1, unvs1, nvs2, unvs2, navaid_same_fn(), nvq);
    let mf1 = sp_fix_overlay(fs1, ufs1);
    let mf2 = sp_fix_overlay(fs2, ufs2);
    let mn1 = sp_nav_overlay(nvs1, unvs1);
    let mn2 = sp_nav_overlay(nvs2, unvs2);
    assert(forall|j: int| 0 <= j < mf1.len() ==> fix_vq(#[trigger] mf1[j], mf2[j]));
    assert(forall|j: int| 0 <= j < mn1.len() ==> navaid_vq(#[trigger] mn1[j], mn2[j]));
    lemma_entry_list_vq(mf1, mf2, mn1, mn2);
}

/// Airway-file acceptance carries over between two decodings of the same
/// texts.
proof fn lemma_awy_accept_transfers(
    fix: Seq<char>,
    ufix: Option<Seq<char>>,
    nav: Seq<char>,
    unav: Option<Seq<char>>,
    awy: Seq<char>,
    fs1: Seq<crate::navdata::fix::Fix>,
    ufs1: Seq<crate::navdata::fix::Fix>,
    nvs1: Seq<crate::navdata::nav::Navaid>,
    unvs1: Seq<crate::navdata::nav::Navaid>,
    fs2: Seq<crate::navdata::fix::Fix>,
    ufs2: Seq<crate::navdata::fix::Fix>,
    nvs2: Seq<crate::navdata::nav::Navaid>,
    unvs2: Seq<crate::navdata::nav::Navaid>,
)
    requires
        sp_base_sources_ok(fix, ufix, nav, unav, fs1, ufs1, nvs1, unvs1),
        sp_base_sources_ok(fix, ufix, nav, unav, fs2, ufs2, nvs2, unvs2),
        sp_awy_source_ok(awy, sp_overlaid_nodes(fs1, ufs1, nvs1, unvs1)),
    ensures
        sp_awy_source_ok(awy, sp_overlaid_nodes(fs2, ufs2, nvs2, unvs2)),
{
    lemma_sources_nodes_vq(fix, ufix, nav, unav, fs1, ufs1, nvs1, unvs1, fs2, ufs2, nvs2, unvs2);
    lemma_awy_ok_fn_vq(
        sp_overlaid_nodes(fs1, ufs1, nvs1, unvs1),
        sp_overlaid_nodes(fs2, ufs2, nvs2, unvs2),
    );
}

/// Hold-file acceptance carries over between two decodings of the same
/// texts.
proof fn lemma_hold_accept_transfers(
    fix: Seq<char>,
    ufix: Option<Seq<char>>,
    nav: Seq<char>,
    unav: Option<Seq<char>>,
    hold: Seq<char>,
    fs1: Seq<crate::navdata::fix::Fix>,
    ufs1: Seq<crate::navdata::fix::Fix>,
    nvs1: Seq<crate::navdata::nav::Navaid>,
    unvs1: Seq<crate::navdata::nav::Navaid>,
    fs2: Seq<crate::navdata::fix::Fix>,
    ufs2: Seq<crate::navdata::fix::Fix>,
    nvs2: Seq<crate::navdata::nav::Navaid>,
    unvs2: Seq<crate::navdata::nav::Navaid>,
)
    requires
        sp_base_sources_ok(fix, ufix, nav, unav, fs1, ufs1, nvs1, unvs1),
        sp_base_sources_ok(fix, ufix, nav, unav, fs2, ufs2, nvs2, unvs2),
        sp_hold_source_ok(hold, sp_overlaid_nodes(fs1, ufs1, nvs1, unvs1)),
    ensures
        sp_hold_source_ok(hold, sp_overlaid_nodes(fs2, ufs2, nvs2, unvs2)),
{
    lemma_sources_nodes_vq(fix, ufix, nav, unav, fs1, ufs1, nvs1, unvs1, fs2, ufs2, nvs2, unvs2);
    lemma_hold_ok_fn_vq(
        sp_overlaid_nodes(fs1, ufs1, nvs1, unvs1),
        sp_overlaid_nodes(fs2, ufs2, nvs2, unvs2),
    );
}

impl NavGraph {
    /// Build the navigation database from the texts of the four primary
    /// files and the two optional user-overlay files: parse the fixes and
    /// navaids, lay the user entries over them, assemble the graph, then
    /// thread the airway and hold files through it, holding every file to
    /// the first file's AIRAC cycle.
    ///
    /// Success is owed exactly when all six texts are accepted — the
    /// airway and hold rows against the overlaid vertex list — and the
    /// four header cycles agree; the first header cycle that differs from
    /// the fix file's, scanning navaids, airways, holds in file order, is
    /// reported as a `CycleMismatch`.
    #[verifier::rlimit(100)]
    #[verifier::spinoff_prover]
    pub fn build_data(
        fix_text: &str,
        user_fix_text: Option<&str>,
        nav_text: &str,
        user_nav_text: Option<&str>,
        awy_text: &str,
        hold_text: &str,
    ) -> (r: Result<NavGraph, ParseError>)
        ensures
            r matches Ok(g) ==> g.wf(),
            r matches Ok(g) ==> sp_header_line(spec_lines(fix_text@)[1], FileKind::Fix) == Some(
                g.sp_fix_header()@,
            ) && sp_header_line(spec_lines(nav_text@)[1], FileKind::Nav) == Some(
                g.sp_navaids_header()@,
            ) && g.sp_fix_header()@.cycle == g.sp_navaids_header()@.cycle,
            r matches Ok(g) ==> (sp_header_line(spec_lines(awy_text@)[1], FileKind::Awy)
                matches Some(ah) && ah.cycle == g.sp_fix_header()@.cycle) && (sp_header_line(
                spec_lines(hold_text@)[1],
                FileKind::Hold,
            ) matches Some(hh) && hh.cycle == g.sp_fix_header()@.cycle),
            r matches Ok(g) ==> exists|
                fs: Seq<crate::navdata::fix::Fix>,
                ufs: Seq<crate::navdata::fix::Fix>,
                nvs: Seq<crate::navdata::nav::Navaid>,
                unvs: Seq<crate::navdata::nav::Navaid>,
                aw_len: int,
            |
                #[trigger] sp_built(
                    g.sp_graph(),
                    fix_text@,
                    opt_view(user_fix_text),
                    nav_text@,
                    opt_view(user_nav_text),
                    awy_text@,
                    hold_text@,
                    fs,
                    ufs,
                    nvs,
                    unvs,
                    aw_len,
                ),
            !crate::navdata::fix::sp_fix_file_ok(fix_text@) ==> r is Err,
            crate::navdata::fix::sp_fix_file_ok(fix_text@) && (user_fix_text matches Some(t)
                && !crate::navdata::fix::sp_fix_file_ok(t@)) ==> r is Err,
            !crate::navdata::nav::sp_nav_file_ok(nav_text@) ==> r is Err,
            crate::navdata::fix::sp_fix_file_ok(fix_text@) && (match user_fix_text {
                Some(t) => crate::navdata::fix::sp_fix_file_ok(t@),
                None => true,
            }) && crate::navdata::nav::sp_nav_file_ok(nav_text@) && sp_cycle_of(
                nav_text@,
                FileKind::Nav,
            ) != sp_cycle_of(fix_text@, FileKind::Fix) ==> (r matches Err(
                ParseError::CycleMismatch { established_cycle, new_cycle },
            ) && established_cycle == sp_cycle_of(fix_text@, FileKind::Fix) && new_cycle
                == sp_cycle_of(nav_text@, FileKind::Nav)),
            user_nav_text matches Some(t) && !crate::navdata::nav::sp_nav_file_ok(t@) ==> r
                is Err,
            (exists|
                fs: Seq<crate::navdata::fix::Fix>,
                ufs: Seq<crate::navdata::fix::Fix>,
                nvs: Seq<crate::navdata::nav::Navaid>,
                unvs: Seq<crate::navdata::nav::Navaid>,
            |
                #[trigger] sp_base_sources_ok(
                    fix_text@,
                    opt_view(user_fix_text),
                    nav_text@,
                    opt_view(user_nav_text),
                    fs,
                    ufs,
                    nvs,
                    unvs,
                ) && sp_awy_source_ok(awy_text@, sp_overlaid_nodes(fs, ufs, nvs, unvs)))
                && sp_cycle_of(nav_text@, FileKind::Nav) == sp_cycle_of(fix_text@, FileKind::Fix)
                && sp_cycle_of(awy_text@, FileKind::Awy) != sp_cycle_of(fix_text@, FileKind::Fix)
                ==> (r matches Err(ParseError::CycleMismatch { established_cycle, new_cycle })
                && established_cycle == sp_cycle_of(fix_text@, FileKind::Fix) && new_cycle
                == sp_cycle_of(awy_text@, FileKind::Awy)),
            (exists|
                fs: Seq<crate::navdata::fix::Fix>,
                ufs: Seq<crate::navdata::fix::Fix>,
                nvs: Seq<crate::navdata::nav::Navaid>,
                unvs: Seq<crate::navdata::nav::Navaid>,
            |
                #[trigger] sp_base_sources_ok(
                    fix_text@,
                    opt_view(user_fix_text),
                    nav_text@,
                    opt_view(user_nav_text),
                    fs,
                    ufs,
                    nvs,
                    unvs,
                ) && sp_awy_source_ok(awy_text@, sp_overlaid_nodes(fs, ufs, nvs, unvs))
                    && sp_hold_source_ok(hold_text@, sp_overlaid_nodes(fs, ufs, nvs, unvs)))
                && sp_cycle_of(nav_text@, FileKind::Nav) == sp_cycle_of(fix_text@, FileKind::Fix)
                && sp_cycle_of(awy_text@, FileKind::Awy) == sp_cycle_of(fix_text@, FileKind::Fix)
                && sp_cycle_of(hold_text@, FileKind::Hold) != sp_cycle_of(fix_text@, FileKind::Fix)
                ==> (r matches Err(ParseError::CycleMismatch { established_cycle, new_cycle })
                && established_cycle == sp_cycle_of(fix_text@, FileKind::Fix) && new_cycle
                == sp_cycle_of(hold_text@, FileKind::Hold)),
            r is Ok <==> ((exists|
                fs: Seq<crate::navdata::fix::Fix>,
                ufs: Seq<crate::navdata::fix::Fix>,
                nvs: Seq<crate::navdata::nav::Navaid>,
                unvs: Seq<crate::navdata::nav::Navaid>,
            |
                #[trigger] sp_base_sources_ok(
                    fix_text@,
                    opt_view(user_fix_text),
                    nav_text@,
                    opt_view(user_nav_text),
                    fs,
                    ufs,
                    nvs,
                    unvs,
                ) && sp_awy_source_ok(awy_text@, sp_overlaid_nodes(fs, ufs, nvs, unvs))
                    && sp_hold_source_ok(hold_text@, sp_overlaid_nodes(fs, ufs, nvs, unvs)))
                && sp_cycle_of(nav_text@, FileKind::Nav) == sp_cycle_of(fix_text@, FileKind::Fix)
                && sp_cycle_of(awy_text@, FileKind::Awy) == sp_cycle_of(fix_text@, FileKind::Fix)
                && sp_cycle_of(hold_text@, FileKind::Hold) == sp_cycle_of(
                fix_text@,
                FileKind::Fix,
            )),
    {
        let fixes_file = crate::navdata::fix::parse_file(fix_text)?;
        let crate::navdata::fix::Fixes { header: fix_header, entries: mut fix_entries } =
            fixes_file;
        let ghost fs0 = fix_entries@;
        proof {
            assert(crate::navdata::fix::sp_fix_file_ok(fix_text@));
            assert(crate::navdata::fix::fixes_of(fix_text@, fs0));
            assert(sp_cycle_of(fix_text@, FileKind::Fix) == fix_header@.cycle);
        }
        let ghost mut ufs0: Seq<crate::navdata::fix::Fix> = Seq::empty();
        match user_fix_text {
            Some(t) => {
                let uf = crate::navdata::fix::parse_file(t)?;
                proof {
                    ufs0 = uf.entries@;
                    assert(opt_view(user_fix_text) == Some(t@));
                    assert(crate::navdata::fix::sp_fix_file_ok(t@));
                    assert(crate::navdata::fix::fixes_of(t@, ufs0));
                }
                overlay_fixes(&mut fix_entries, uf.entries);
            },
            None => {
                proof {
                    assert(opt_view(user_fix_text) is None);
                    assert(sp_fix_overlay(fs0, ufs0) == fs0);
                }
            },
        }
        let navaids_file = crate::navdata::nav::parse_file(nav_text)?;
        let crate::navdata::nav::Navaids { header: navaids_header, entries: mut nav_entries } =
            navaids_file;
        let ghost nvs0 = nav_entries@;
        proof {
            assert(crate::navdata::nav::sp_nav_file_ok(nav_text@));
            assert(crate::navdata::nav::navaids_of(nav_text@, nvs0));
            assert(sp_cycle_of(nav_text@, FileKind::Nav) == navaids_header@.cycle);
        }
        if navaids_header.cycle != fix_header.cycle {
            return Err(
                ParseError::CycleMismatch {
                    established_cycle: fix_header.cycle,
                    new_cycle: navaids_header.cycle,
                },
            );
        }
        let ghost mut unvs0: Seq<crate::navdata::nav::Navaid> = Seq::empty();
        match user_nav_text {
            Some(t) => {
                let un = crate::navdata::nav::parse_file(t)?;
                proof {
                    unvs0 = un.entries@;
                    assert(opt_view(user_nav_text) == Some(t@));
                    assert(crate::navdata::nav::sp_nav_file_ok(t@));
                    assert(crate::navdata::nav::navaids_of(t@, unvs0));
                }
                overlay_navaids(&mut nav_entries, un.entries);
            },
            None => {
                proof {
                    assert(opt_view(user_nav_text) is None);
                    assert(sp_nav_overlay(nvs0, unvs0) == nvs0);
                }
            },
        }
        proof {
            assert(sp_base_sources_ok(
                fix_text@,
                opt_view(user_fix_text),
                nav_text@,
                opt_view(user_nav_text),
                fs0,
                ufs0,
                nvs0,
                unvs0,
            ));
        }
        let ghost merged_f = fix_entries@;
        let ghost merged_n = nav_entries@;
        let mut graph = crate::navdata::graph::DiGraph::new();
        while fix_entries.len() > 0
            invariant
                graph.wf(),
                graph.edges@.len() == 0,
                fix_entries@.len() <= merged_f.len(),
                graph.nodes@ =~= merged_f.take(merged_f.len() - fix_entries@.len()).map_values(
                    |f: crate::navdata::fix::Fix| NavEntry::Fix(f),
                ),
                fix_entries@ =~= merged_f.skip(merged_f.len() - fix_entries@.len()),
            decreases fix_entries@.len(),
        {
            let ghost consumed = merged_f.len() - fix_entries@.len();
            let ghost fe_b = fix_entries@;
            let f = fix_entries.remove(0);
            proof {
                assert(f == fe_b[0]);
                assert(fe_b[0] == merged_f.skip(consumed)[0]);
                assert(merged_f.skip(consumed)[0] == merged_f[consumed]);
                assert(f == merged_f[consumed]);
                assert(merged_f.take(consumed + 1) =~= merged_f.take(consumed).push(f));
                assert(merged_f.take(consumed + 1).map_values(
                    |f: crate::navdata::fix::Fix| NavEntry::Fix(f),
                ) =~= merged_f.take(consumed).map_values(
                    |f: crate::navdata::fix::Fix| NavEntry::Fix(f),
                ).push(NavEntry::Fix(f)));
                assert(fix_entries@ =~= merged_f.skip(consumed + 1));
            }
            graph.add_node(NavEntry::Fix(f));
        }
        proof {
            assert(merged_f.take(merged_f.len() as int) =~= merged_f);
        }
        while nav_entries.len() > 0
            invariant
                graph.wf(),
                graph.edges@.len() == 0,
                nav_entries@.len() <= merged_n.len(),
                graph.nodes@ =~= merged_f.map_values(|f: crate::navdata::fix::Fix| NavEntry::Fix(f))
                    + merged_n.take(merged_n.len() - nav_entries@.len()).map_values(
                    |n: crate::navdata::nav::Navaid| NavEntry::Navaid(n),
                ),
                nav_entries@ =~= merged_n.skip(merged_n.len() - nav_entries@.len()),
            decreases nav_entries@.len(),
        {
            let ghost consumed = merged_n.len() - nav_entries@.len();
            let ghost ne_b = nav_entries@;
            let n = nav_entries.remove(0);
            proof {
                assert(n == ne_b[0]);
                assert(ne_b[0] == merged_n.skip(consumed)[0]);
                assert(merged_n.skip(consumed)[0] == merged_n[consumed]);
                assert(n == merged_n[consumed]);
                assert(merged_n.take(consumed + 1) =~= merged_n.take(consumed).push(n));
                assert(merged_n.take(consumed + 1).map_values(
                    |n: crate::navdata::nav::Navaid| NavEntry::Navaid(n),
                ) =~= merged_n.take(consumed).map_values(
                    |n: crate::navdata::nav::Navaid| NavEntry::Navaid(n),
                ).push(NavEntry::Navaid(n)));
                assert(nav_entries@ =~= merged_n.skip(consumed + 1));
            }
            graph.add_node(NavEntry::Navaid(n));
        }
        proof {
            assert(merged_n.take(merged_n.len() as int) =~= merged_n);
        }
        let ghost nodes = graph.nodes@;
        proof {
            assert(nodes =~= sp_overlaid_nodes(fs0, ufs0, nvs0, unvs0));
        }
        let airway_header = match crate::navdata::airways::parse_file(awy_text, &mut graph) {
            Ok(h) => h,
            Err(e) => {
                proof {
                    if exists|
                        fs: Seq<crate::navdata::fix::Fix>,
                        ufs: Seq<crate::navdata::fix::Fix>,
                        nvs: Seq<crate::navdata::nav::Navaid>,
                        unvs: Seq<crate::navdata::nav::Navaid>,
                    |
                        #[trigger] sp_base_sources_ok(
                            fix_text@,
                            opt_view(user_fix_text),
                            nav_text@,
                            opt_view(user_nav_text),
                            fs,
                            ufs,
                            nvs,
                            unvs,
                        ) && sp_awy_source_ok(awy_text@, sp_overlaid_nodes(fs, ufs, nvs, unvs)) {
                        let (fsh, ufsh, nvsh, unvsh) = choose|
                            fs: Seq<crate::navdata::fix::Fix>,
                            ufs: Seq<crate::navdata::fix::Fix>,
                            nvs: Seq<crate::navdata::nav::Navaid>,
                            unvs: Seq<crate::navdata::nav::Navaid>,
                        |
                            #[trigger] sp_base_sources_ok(
                                fix_text@,
                                opt_view(user_fix_text),
                                nav_text@,
                                opt_view(user_nav_text),
                                fs,
                                ufs,
                                nvs,
                                unvs,
                            ) && sp_awy_source_ok(
                                awy_text@,
                                sp_overlaid_nodes(fs, ufs, nvs, unvs),
                            );
                        lemma_awy_accept_transfers(
                            fix_text@,
                            opt_view(user_fix_text),
                            nav_text@,
                            opt_view(user_nav_text),
                            awy_text@,
                            fsh,
                            ufsh,
                            nvsh,
                            unvsh,
                            fs0,
                            ufs0,
                            nvs0,
                            unvs0,
                        );
                        assert(sp_awy_source_ok(awy_text@, nodes));
                        assert(false);
                    }
                }
                return Err(e);
            },
        };
        proof {
            assert(sp_cycle_of(awy_text@, FileKind::Awy) == airway_header@.cycle);
        }
        if airway_header.cycle != fix_header.cycle {
            return Err(
                ParseError::CycleMismatch {
                    established_cycle: fix_header.cycle,
                    new_cycle: airway_header.cycle,
                },
            );
        }
        let ghost aw_len = graph.edges@.len() as int;
        let ghost edges_after_awy = graph.edges@;
        let hold_header = match crate::navdata::hold::parse_file(hold_text, &mut graph) {
            Ok(h) => h,
            Err(e) => {
                proof {
                    if exists|
                        fs: Seq<crate::navdata::fix::Fix>,
                        ufs: Seq<crate::navdata::fix::Fix>,
                        nvs: Seq<crate::navdata::nav::Navaid>,
                        unvs: Seq<crate::navdata::nav::Navaid>,
                    |
                        #[trigger] sp_base_sources_ok(
                            fix_text@,
                            opt_view(user_fix_text),
                            nav_text@,
                            opt_view(user_nav_text),
                            fs,
                            ufs,
                            nvs,
                            unvs,
                        ) && sp_awy_source_ok(awy_text@, sp_overlaid_nodes(fs, ufs, nvs, unvs))
                            && sp_hold_source_ok(
                            hold_text@,
                            sp_overlaid_nodes(fs, ufs, nvs, unvs),
                        ) {
                        let (fsh, ufsh, nvsh, unvsh) = choose|
                            fs: Seq<crate::navdata::fix::Fix>,
                            ufs: Seq<crate::navdata::fix::Fix>,
                            nvs: Seq<crate::navdata::nav::Navaid>,
                            unvs: Seq<crate::navdata::nav::Navaid>,
                        |
                            #[trigger] sp_base_sources_ok(
                                fix_text@,
                                opt_view(user_fix_text),
                                nav_text@,
                                opt_view(user_nav_text),
                                fs,
                                ufs,
                                nvs,
                                unvs,
                            ) && sp_awy_source_ok(
                                awy_text@,
                                sp_overlaid_nodes(fs, ufs, nvs, unvs),
                            ) && sp_hold_source_ok(
                                hold_text@,
                                sp_overlaid_nodes(fs, ufs, nvs, unvs),
                            );
                        lemma_hold_accept_transfers(
                            fix_text@,
                            opt_view(user_fix_text),
                            nav_text@,
                            opt_view(user_nav_text),
                            hold_text@,
                            fsh,
                            ufsh,
                            nvsh,
                            unvsh,
                            fs0,
                            ufs0,
                            nvs0,
                            unvs0,
                        );
                        assert(sp_hold_source_ok(hold_text@, nodes));
                        assert(false);
                    }
                }
                return Err(e);
            },
        };
        proof {
            assert(sp_cycle_of(hold_text@, FileKind::Hold) == hold_header@.cycle);
        }
        if hold_header.cycle != fix_header.cycle {
            return Err(
                ParseError::CycleMismatch {
                    established_cycle: fix_header.cycle,
                    new_cycle: hold_header.cycle,
                },
            );
        }
        let g = NavGraph { fix_header, navaids_header, graph };
        proof {
            assert(g.sp_graph().edges@.subrange(0, aw_len) =~= edges_after_awy);
            assert(sp_built(
                g.sp_graph(),
                fix_text@,
                opt_view(user_fix_text),
                nav_text@,
                opt_view(user_nav_text),
                awy_text@,
                hold_text@,
                fs0,
                ufs0,
                nvs0,
                unvs0,
                aw_len,
            ));
            assert(sp_awy_source_ok(awy_text@, sp_overlaid_nodes(fs0, ufs0, nvs0, unvs0)));
            assert(sp_hold_source_ok(hold_text@, sp_overlaid_nodes(fs0, ufs0, nvs0, unvs0)));
        }
        Ok(g)
    }
}

} // verus!

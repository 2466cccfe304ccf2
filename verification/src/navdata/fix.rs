//! Rows of `earth_fix.dat` and `user_fix.dat`.

use vstd::prelude::*;
use vstd::string::*;

use crate::navdata::scan::{
    is_space, skip_spaces, sp_col_dec, sp_col_dec0, sp_col_token, sp_col_uint, spec_lines,
    split_lines, str_eq, Dec, RowError, Scanner,
};
use crate::navdata::{
    bom_ok, parse_header, shape_prepend, sp_header_line, sp_shape, FileKind, FileShape, Header,
    ParseError,
};

verus! {

/// First column of the waypoint-type field.
#[derive(Debug, Clone, Copy, PartialEq, Eq, Structural)]
pub enum FixType {
    /// ARC center fix waypoint.
    ArcCenterFix,
    /// Combined named intersection and RNAV.
    NamedIntxAndRnav,
    /// Unnamed, charted intersection.
    UnnamedChartedIntx,
    /// Middle marker as waypoint.
    MiddleMarker,
    /// (Terminal) NDB navaid as waypoint.
    NdbAsWpt,
    /// Outer marker as waypoint.
    OuterMarker,
    /// Named intersection.
    NamedIntx,
    /// Uncharted airway intersection.
    UnchartedAwyIntx,
    /// VFR waypoint.
    VfrWpt,
    /// RNAV waypoint.
    RnavWpt,
    Unspecified,
    Unrecognized(u8),
}

/// Second column of the waypoint-type field.
#[derive(Debug, Clone, Copy, PartialEq, Eq, Structural)]
pub enum FixFunction {
    /// Final approach fix.
    FinalAppFix,
    /// Initial and final approach fix.
    InitialAndFinalAppFix,
    /// Final approach course fix.
    FinalAppCrsFix,
    /// Intermediate approach fix.
    IntermediateAppFix,
    /// Off-route intersection in the FAA national reference system.
    OffRouteIntxFAA,
    /// Off-route intersection.
    OffRouteIntx,
    /// Initial approach fix.
    InitialAppFix,
    /// Final approach course fix at initial approach fix.
    FinalAppCrsFixAtIAF,
    /// Final approach course fix at intermediate approach fix.
    FinalAppCrsFixAtIF,
    /// Missed approach fix.
    MissedAppFix,
    /// Initial approach fix and missed approach fix.
    InitialAppFixAndMAF,
    /// Oceanic entry/exit waypoint.
    OceanicEntryExitWpt,
    /// Unnamed stepdown fix.
    UnnamedStepdownFix,
    /// Pitch and catch point in the FAA high altitude redesign.
    PitchAndCatchPoint,
    /// Named stepdown fix.
    NamedStepdownFix,
    /// AACAA and SUA waypoints in the FAA high altitude redesign.
    AacaaAndSuaWpt,
    /// FIR/UIR or controlled airspace intersection.
    FirUirCtrlIntx,
    /// Latitude/longitude intersection, full degree of latitude.
    LatLonFullDegIntx,
    /// Latitude/longitude intersection, half degree of latitude.
    LatLonHalfDegIntx,
    Unspecified,
    Unrecognized(u8),
}

/// What procedures a fix is on, if any.
#[derive(Debug, Clone, Copy, PartialEq, Eq, Structural)]
pub enum FixProcedure {
    /// A standard instrument departure.
    SID,
    /// A standard terminal arrival route.
    STAR,
    /// An approach procedure.
    Approach,
    /// The fix is on multiple procedure types.
    Multiple,
    /// The data does not specify.
    Unspecified,
    Unrecognized(u8),
}

/// A fix: a named point in space without a radio signal.
#[derive(Debug, Clone)]
pub struct Fix {
    pub lat: Dec,
    pub lon: Dec,
    pub ident: String,
    /// The airport terminal area this waypoint belongs to, or `ENRT` for
    /// enroute waypoints.
    pub terminal_region: String,
    /// The ICAO region code, according to ICAO document No. 7910.
    pub icao_region: String,
    /// The type of waypoint this is.
    pub typ: FixType,
    /// The function of this waypoint.
    pub func: FixFunction,
    /// The type of procedure this waypoint belongs to.
    pub proc: FixProcedure,
    /// The printed or spoken name of this waypoint.
    pub printed_spoken_name: Option<String>,
}

impl Fix {
    /// Column-width bounds the parser enforces.
    pub open spec fn wf(self) -> bool {
        &&& self.lat.wf()
        &&& self.lon.wf()
        &&& self.ident@.len() <= 8
        &&& self.terminal_region@.len() <= 4
        &&& self.icao_region@.len() <= 2
        &&& (self.printed_spoken_name matches Some(n) ==> n@.len() <= 32)
    }
}

/// Little-endian byte `k` of a flags word.
pub open spec fn sp_byte(flags: int, k: int) -> int
    recommends
        0 <= k <= 3,
    decreases k when 0 <= k
{
    if k <= 0 {
        flags % 256
    } else {
        sp_byte(flags / 256, k - 1)
    }
}

/// Byte 0 of the flags word selects the fix type.
pub open spec fn sp_fix_type(b: int) -> FixType {
    if b == 'A' as int {
        FixType::ArcCenterFix
    } else if b == 'C' as int {
        FixType::NamedIntxAndRnav
    } else if b == 'I' as int {
        FixType::UnnamedChartedIntx
    } else if b == 'M' as int {
        FixType::MiddleMarker
    } else if b == 'N' as int {
        FixType::NdbAsWpt
    } else if b == 'O' as int {
        FixType::OuterMarker
    } else if b == 'R' as int {
        FixType::NamedIntx
    } else if b == 'V' as int {
        FixType::VfrWpt
    } else if b == 'W' as int {
        FixType::RnavWpt
    } else if b == ' ' as int {
        FixType::Unspecified
    } else {
        FixType::Unrecognized(b as u8)
    }
}

/// Byte 1 selects the fix function; `P` and `S` depend on whether the fix
/// is in a terminal area.
pub open spec fn sp_fix_function(b: int, terminal: bool) -> FixFunction {
    if b == 'A' as int {
        FixFunction::FinalAppFix
    } else if b == 'B' as int {
        FixFunction::InitialAndFinalAppFix
    } else if b == 'C' as int {
        FixFunction::FinalAppCrsFix
    } else if b == 'D' as int {
        FixFunction::IntermediateAppFix
    } else if b == 'E' as int {
        FixFunction::OffRouteIntxFAA
    } else if b == 'F' as int {
        FixFunction::OffRouteIntx
    } else if b == 'I' as int {
        FixFunction::InitialAppFix
    } else if b == 'K' as int {
        FixFunction::FinalAppCrsFixAtIAF
    } else if b == 'L' as int {
        FixFunction::FinalAppCrsFixAtIF
    } else if b == 'M' as int {
        FixFunction::MissedAppFix
    } else if b == 'N' as int {
        FixFunction::InitialAppFixAndMAF
    } else if b == 'O' as int {
        FixFunction::OceanicEntryExitWpt
    } else if b == 'P' as int {
        if terminal {
            FixFunction::UnnamedStepdownFix
        } else {
            FixFunction::PitchAndCatchPoint
        }
    } else if b == 'S' as int {
        if terminal {
            FixFunction::NamedStepdownFix
        } else {
            FixFunction::AacaaAndSuaWpt
        }
    } else if b == 'U' as int {
        FixFunction::FirUirCtrlIntx
    } else if b == 'V' as int {
        FixFunction::LatLonFullDegIntx
    } else if b == 'W' as int {
        FixFunction::LatLonHalfDegIntx
    } else if b == ' ' as int {
        FixFunction::Unspecified
    } else {
        FixFunction::Unrecognized(b as u8)
    }
}

/// Byte 2 selects the procedure kind.
pub open spec fn sp_fix_procedure(b: int) -> FixProcedure {
    if b == 'D' as int {
        FixProcedure::SID
    } else if b == 'E' as int {
        FixProcedure::STAR
    } else if b == 'F' as int {
        FixProcedure::Approach
    } else if b == 'Z' as int {
        FixProcedure::Multiple
    } else if b == ' ' as int {
        FixProcedure::Unspecified
    } else {
        FixProcedure::Unrecognized(b as u8)
    }
}

/// Decode the packed 32-bit flags column: its three low little-endian bytes
/// carry one letter code each.
pub fn parse_wpt_flags(flags: u32, terminal: bool) -> (r: (FixType, FixFunction, FixProcedure))
    ensures
        r.0 == sp_fix_type(sp_byte(flags as int, 0)),
        r.1 == sp_fix_function(sp_byte(flags as int, 1), terminal),
        r.2 == sp_fix_procedure(sp_byte(flags as int, 2)),
{
    let b0 = (flags % 256) as u8;
    let b1 = ((flags / 256) % 256) as u8;
    let b2 = ((flags / 65536) % 256) as u8;
    proof {
        reveal_with_fuel(sp_byte, 4);
        assert(sp_byte(flags as int, 0) == flags as int % 256);
        assert(sp_byte(flags as int, 1) == (flags as int / 256) % 256);
        assert(sp_byte(flags as int, 2) == ((flags as int / 256) / 256) % 256);
        assert((flags as int / 256) / 256 == flags as int / 65536) by (nonlinear_arith);
    }
    let typ = if b0 == 'A' as u8 {
        FixType::ArcCenterFix
    } else if b0 == 'C' as u8 {
        FixType::NamedIntxAndRnav
    } else if b0 == 'I' as u8 {
        FixType::UnnamedChartedIntx
    } else if b0 == 'M' as u8 {
        FixType::MiddleMarker
    } else if b0 == 'N' as u8 {
        FixType::NdbAsWpt
    } else if b0 == 'O' as u8 {
        FixType::OuterMarker
    } else if b0 == 'R' as u8 {
        FixType::NamedIntx
    } else if b0 == 'V' as u8 {
        FixType::VfrWpt
    } else if b0 == 'W' as u8 {
        FixType::RnavWpt
    } else if b0 == ' ' as u8 {
        FixType::Unspecified
    } else {
        FixType::Unrecognized(b0)
    };
    let func = if b1 == 'A' as u8 {
        FixFunction::FinalAppFix
    } else if b1 == 'B' as u8 {
        FixFunction::InitialAndFinalAppFix
    } else if b1 == 'C' as u8 {
        FixFunction::FinalAppCrsFix
    } else if b1 == 'D' as u8 {
        FixFunction::IntermediateAppFix
    } else if b1 == 'E' as u8 {
        FixFunction::OffRouteIntxFAA
    } else if b1 == 'F' as u8 {
        FixFunction::OffRouteIntx
    } else if b1 == 'I' as u8 {
        FixFunction::InitialAppFix
    } else if b1 == 'K' as u8 {
        FixFunction::FinalAppCrsFixAtIAF
    } else if b1 == 'L' as u8 {
        FixFunction::FinalAppCrsFixAtIF
    } else if b1 == 'M' as u8 {
        FixFunction::MissedAppFix
    } else if b1 == 'N' as u8 {
        FixFunction::InitialAppFixAndMAF
    } else if b1 == 'O' as u8 {
        FixFunction::OceanicEntryExitWpt
    } else if b1 == 'P' as u8 {
        if terminal {
            FixFunction::UnnamedStepdownFix
        } else {
            FixFunction::PitchAndCatchPoint
        }
    } else if b1 == 'S' as u8 {
        if terminal {
            FixFunction::NamedStepdownFix
        } else {
            FixFunction::AacaaAndSuaWpt
        }
    } else if b1 == 'U' as u8 {
        FixFunction::FirUirCtrlIntx
    } else if b1 == 'V' as u8 {
        FixFunction::LatLonFullDegIntx
    } else if b1 == 'W' as u8 {
        FixFunction::LatLonHalfDegIntx
    } else if b1 == ' ' as u8 {
        FixFunction::Unspecified
    } else {
        FixFunction::Unrecognized(b1)
    };
    let proc = if b2 == 'D' as u8 {
        FixProcedure::SID
    } else if b2 == 'E' as u8 {
        FixProcedure::STAR
    } else if b2 == 'F' as u8 {
        FixProcedure::Approach
    } else if b2 == 'Z' as u8 {
        FixProcedure::Multiple
    } else if b2 == ' ' as u8 {
        FixProcedure::Unspecified
    } else {
        FixProcedure::Unrecognized(b2)
    };
    (typ, func, proc)
}

/// The raw columns of one fix row.
pub ghost struct FixRowV {
    pub lat: Dec,
    pub lon: Dec,
    pub ident: Seq<char>,
    pub terminal_region: Seq<char>,
    pub icao_region: Seq<char>,
    pub flags: int,
    pub printed_spoken_name: Option<Seq<char>>,
}

/// The fix-row grammar: latitude, longitude, ident, terminal region, ICAO
/// region, the packed flags word, and an optional name running to the end
/// of the line.
pub open spec fn sp_fix_row(s: Seq<char>) -> Option<FixRowV> {
    match sp_col_dec0(s, 0) {
        None => None,
        Some((lat, p)) => match sp_col_dec(s, p) {
            None => None,
            Some((lon, p)) => match sp_col_token(s, p, 8) {
                None => None,
                Some((ident, p)) => match sp_col_token(s, p, 4) {
                    None => None,
                    Some((terminal_region, p)) => match sp_col_token(s, p, 2) {
                        None => None,
                        Some((icao_region, p)) => match sp_col_uint(s, p, u32::MAX as int) {
                            None => None,
                            Some((flags, p)) => {
                                if p == s.len() {
                                    Some(
                                        FixRowV {
                                            lat,
                                            lon,
                                            ident,
                                            terminal_region,
                                            icao_region,
                                            flags,
                                            printed_spoken_name: None,
                                        },
                                    )
                                } else if is_space(s[p]) && s.len() - skip_spaces(s, p) <= 32 {
                                    Some(
                                        FixRowV {
                                            lat,
                                            lon,
                                            ident,
                                            terminal_region,
                                            icao_region,
                                            flags,
                                            printed_spoken_name: Some(
                                                s.subrange(skip_spaces(s, p), s.len() as int),
                                            ),
                                        },
                                    )
                                } else {
                                    None
                                }
                            },
                        },
                    },
                },
            },
        },
    }
}

/// Whether a parsed fix carries exactly the decoded content of a row.
pub open spec fn fix_matches(f: Fix, v: FixRowV) -> bool {
    &&& f.lat == v.lat
    &&& f.lon == v.lon
    &&& f.ident@ == v.ident
    &&& f.terminal_region@ == v.terminal_region
    &&& f.icao_region@ == v.icao_region
    &&& f.typ == sp_fix_type(sp_byte(v.flags, 0))
    &&& f.func == sp_fix_function(sp_byte(v.flags, 1), v.terminal_region != "ENRT"@)
    &&& f.proc == sp_fix_procedure(sp_byte(v.flags, 2))
    &&& match (f.printed_spoken_name, v.printed_spoken_name) {
        (Option::None, Option::None) => true,
        (Option::Some(a), Option::Some(b)) => a@ == b,
        _ => false,
    }
}

/// Parse one fix row.
pub fn parse_row(line: &str) -> (r: Result<Fix, RowError>)
    ensures
        r is Ok <==> sp_fix_row(line@) is Some,
        r matches Ok(f) ==> (sp_fix_row(line@) matches Some(v) && fix_matches(f, v) && f.wf()),
{
    let ghost s = line@;
    let mut sc = Scanner::new(line);
    let lat = sc.col_dec0()?;
    let lon = sc.col_dec()?;
    let ident = sc.token_max(8)?;
    let terminal_region = sc.token_max(4)?;
    let icao_region = sc.token_max(2)?;
    let flags = sc.col_u32()?;
    let ghost after_flags = sc.at();
    let printed_spoken_name = if sc.at_end() {
        None
    } else {
        match sc.rest_after_spaces() {
            Ok(name) => {
                if name.as_str().unicode_len() > 32 {
                    proof {
                        assert(sp_fix_row(s) is None);
                    }
                    return Err(RowError { pos: 0 });
                }
                Some(name)
            },
            Err(e) => {
                proof {
                    assert(after_flags < s.len() && !is_space(s[after_flags]));
                    assert(sp_fix_row(s) is None);
                }
                return Err(e);
            },
        }
    };
    let terminal = !str_eq(terminal_region.as_str(), "ENRT");
    let (typ, func, proc) = parse_wpt_flags(flags, terminal);
    Ok(
        Fix {
            lat,
            lon,
            ident,
            terminal_region,
            icao_region,
            typ,
            func,
            proc,
            printed_spoken_name,
        },
    )
}

/// One parsed fix file: its header and its rows.
#[derive(Debug)]
pub struct Fixes {
    pub header: Header,
    pub entries: Vec<Fix>,
}

/// Whether a line fits the fix-row grammar.
pub open spec fn fix_row_ok(l: Seq<char>) -> bool {
    sp_fix_row(l) is Some
}

pub open spec fn fix_ok_fn() -> spec_fn(Seq<char>) -> bool {
    |l: Seq<char>| fix_row_ok(l)
}

/// The versions the fix parser accepts.
pub open spec fn sp_fix_version_ok(v: DataVersion) -> bool {
    v == DataVersion::XP1101 || v == DataVersion::XP1200
}

use crate::navdata::DataVersion;

/// Parse a whole fix file: preamble, rows, sentinel.
pub fn parse_file(text: &str) -> (r: Result<Fixes, ParseError>)
    ensures
        ({
            let ls = spec_lines(text@);
            let shape = sp_shape(ls, 2, fix_ok_fn());
            let hdr = sp_header_line(ls[1], FileKind::Fix);
            &&& (r is Ok <==> ls.len() >= 2 && bom_ok(ls[0]) && (hdr matches Some(h)
                && sp_fix_version_ok(h.version)) && shape matches FileShape::Rows(_))
            &&& (r matches Ok(fx) ==> hdr == Some(fx.header@) && sp_fix_version_ok(
                fx.header@.version,
            ) && (shape matches FileShape::Rows(idx) && fx.entries@.len() == idx.len() && (forall|
                k: int,
            |
                0 <= k < idx.len() ==> (sp_fix_row(ls[#[trigger] idx[k]]) matches Some(v)
                    && fix_matches(fx.entries@[k], v) && fx.entries@[k].wf()))))
            &&& (ls.len() == 0 ==> r matches Err(ParseError::MissingLine))
            &&& (ls.len() >= 1 && !bom_ok(ls[0]) ==> (r matches Err(ParseError::BadBOM { bom })
                && bom@ == ls[0]))
            &&& (ls.len() == 1 && bom_ok(ls[0]) ==> r matches Err(ParseError::MissingLine))
            &&& (ls.len() >= 2 && bom_ok(ls[0]) && hdr is None ==> (r matches Err(
                ParseError::Parse { stage, .. },
            ) && stage@ == "header"@))
            &&& (ls.len() >= 2 && bom_ok(ls[0]) && hdr is Some && !sp_fix_version_ok(
                hdr.unwrap().version,
            ) ==> (r matches Err(ParseError::UnsupportedVersion { version }) && version
                == hdr.unwrap().version))
            &&& (ls.len() >= 2 && bom_ok(ls[0]) && hdr is Some && sp_fix_version_ok(
                hdr.unwrap().version,
            ) && (shape matches FileShape::NoSentinel) ==> r matches Err(ParseError::MissingLine))
            &&& (ls.len() >= 2 && bom_ok(ls[0]) && hdr is Some && sp_fix_version_ok(
                hdr.unwrap().version,
            ) && (shape matches FileShape::BadRow(_)) ==> (r matches Err(
                ParseError::Parse { stage, .. },
            ) && stage@ == "fix row"@))
        }),
{
    let lines = split_lines(text);
    let ghost ls = spec_lines(text@);
    proof {
        assert(lines@.map_values(|l: String| l@) =~= ls);
    }
    let header = parse_header(&lines, FileKind::Fix)?;
    match header.version {
        DataVersion::XP1101 | DataVersion::XP1200 => {},
        _ => {
            return Err(ParseError::UnsupportedVersion { version: header.version });
        },
    }
    let mut entries: Vec<Fix> = Vec::new();
    let ghost mut done: Seq<int> = Seq::empty();
    let mut i: usize = 2;
    proof {
        assert(shape_prepend(done, sp_shape(ls, 2, fix_ok_fn())) == sp_shape(ls, 2, fix_ok_fn()));
    }
    while i < lines.len()
        invariant
            2 <= i,
            ls == spec_lines(text@),
            lines@.len() == ls.len(),
            forall|k: int| 0 <= k < ls.len() ==> ls[k] == lines@[k]@,
            ls.len() >= 2 && bom_ok(ls[0]),
            sp_header_line(ls[1], FileKind::Fix) == Some(header@),
            sp_fix_version_ok(header@.version),
            sp_shape(ls, 2, fix_ok_fn()) == shape_prepend(done, sp_shape(ls, i as int, fix_ok_fn())),
            entries@.len() == done.len(),
            forall|k: int|
                0 <= k < done.len() ==> (sp_fix_row(ls[#[trigger] done[k]]) matches Some(v)
                    && fix_matches(entries@[k], v) && entries@[k].wf()),
        decreases lines@.len() - i,
    {
        let line = &lines[i];
        if str_eq(line.as_str(), "99") {
            proof {
                assert(sp_shape(ls, i as int, fix_ok_fn()) == FileShape::Rows(Seq::<int>::empty()));
                assert(done + Seq::<int>::empty() =~= done);
                assert(sp_shape(ls, 2, fix_ok_fn()) == FileShape::Rows(done));
            }
            return Ok(Fixes { header, entries });
        }
        if line.as_str().unicode_len() == 0 {
            i = i + 1;
            continue;
        }
        match parse_row(line.as_str()) {
            Ok(f) => {
                entries.push(f);
                proof {
                    assert(fix_ok_fn()(ls[i as int]));
                    let rest = sp_shape(ls, i as int + 1, fix_ok_fn());
                    if rest is Rows {
                        let ridx = rest->Rows_0;
                        assert((done + seq![i as int]) + ridx =~= done + (seq![i as int] + ridx));
                    }
                    done = done + seq![i as int];
                }
                i = i + 1;
            },
            Err(e) => {
                proof {
                    assert(!fix_ok_fn()(ls[i as int]));
                    assert(sp_shape(ls, i as int, fix_ok_fn()) == FileShape::BadRow(i as int));
                }
                return Err(
                    ParseError::Parse {
                        rendered: String::from_str("the row does not fit the fix row grammar"),
                        stage: String::from_str("fix row"),
                        pos: e.pos,
                    },
                );
            },
        }
    }
    Err(ParseError::MissingLine)
}

/// Whether a whole fix-file text is accepted.
pub open spec fn sp_fix_file_ok(text: Seq<char>) -> bool {
    let ls = spec_lines(text);
    &&& ls.len() >= 2
    &&& bom_ok(ls[0])
    &&& (sp_header_line(ls[1], FileKind::Fix) matches Some(h) && sp_fix_version_ok(h.version))
    &&& sp_shape(ls, 2, fix_ok_fn()) is Rows
}

/// Whether `fs` is exactly the fix list a fix-file text decodes to.
pub open spec fn fixes_of(text: Seq<char>, fs: Seq<Fix>) -> bool {
    let ls = spec_lines(text);
    &&& (sp_shape(ls, 2, fix_ok_fn()) matches FileShape::Rows(idx) && fs.len() == idx.len() && (
    forall|k: int|
        0 <= k < idx.len() ==> (sp_fix_row(ls[#[trigger] idx[k]]) matches Some(v) && fix_matches(
            fs[k],
            v,
        ))))
}

} // verus!

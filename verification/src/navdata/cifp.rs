//! Rows of the per-airport coded-instrument-flight-procedure files:
//! SID/STAR/APPCH procedure rows, runway rows, and the undocumented PRDAT
//! rows, which are recognized and discarded.

use vstd::prelude::*;
use vstd::string::*;

use crate::navdata::scan::{
    all_digits, all_spaces, digit_val, digits_end, digits_val, find_char, skip_spaces,
    span_all_spaces, sp_div_pow10, sp_field_comma, sp_field_comma_exact, sp_opt_char_sep,
    sp_opt_dec_sep, sp_opt_int_sep, sp_opt_uint_sep, Dec, RowError, Scanner,
};

verus! {

/// One CIFP row.
#[derive(Debug, Clone)]
pub enum Row {
    Sid(Box<SidStarApchRow>),
    Star(Box<SidStarApchRow>),
    Apch(Box<SidStarApchRow>),
    Rwy(Box<RwyRow>),
    /// The PRDAT record format is not documented in the ARINC 424 revision
    /// this grammar follows; such rows are recognized and ignored.
    PrDat,
}

/// One SID, STAR or approach procedure row; every field but the first
/// three may be empty.
#[derive(Debug, Clone)]
pub struct SidStarApchRow {
    pub sequence: u16,
    pub route_typ: char,
    pub proc_ident: String,
    pub trans_ident: Option<String>,
    pub wpt_ident: Option<String>,
    pub wpt_icao_region: Option<String>,
    pub section: Option<char>,
    pub subsection: Option<char>,
    pub waypoint_desc_code: Option<String>,
    pub turn_dir: Option<char>,
    /// Required navigation performance, decoded from the packed
    /// significand-and-exponent column.
    pub rnp: Option<Dec>,
    pub path_and_term: Option<String>,
    pub turn_dir_valid: Option<char>,
    pub rcmd_navaid: Option<String>,
    pub rcmd_navaid_icao_region: Option<String>,
    pub rcmd_navaid_section: Option<char>,
    pub rcmd_navaid_subsection: Option<char>,
    /// Nautical miles; the file stores thousandths.
    pub arc_radius_nm: Option<Dec>,
    /// Degrees; the file stores tenths.
    pub theta: Option<Dec>,
    /// Nautical miles; the file stores tenths.
    pub rho: Option<Dec>,
    pub ob_mag_crs: Option<String>,
    pub rte_dist_from_or_hold_dist_time: Option<String>,
    pub alt_desc: Option<char>,
    pub alt_one: Option<String>,
    pub alt_two: Option<String>,
    pub trans_alt_ft_msl: Option<u32>,
    pub speed_lim_desc: Option<char>,
    pub speed_lim: Option<u16>,
    /// Degrees; the file stores hundredths.
    pub vertical_angle: Option<Dec>,
    pub center_fix_or_proc_turn: Option<String>,
    pub center_fix_icao_region: Option<String>,
    pub center_fix_section: Option<char>,
    pub center_fix_subsection: Option<char>,
    pub multiple_code_or_taa_sect_ident: Option<char>,
    pub gps_fms_indicator: Option<char>,
    pub rte_qual1: Option<char>,
    pub rte_qual2: Option<char>,
}

/// One runway row; note the intentional mid-row semicolon the format
/// uses.
#[derive(Debug, Clone)]
pub struct RwyRow {
    pub rwy_ident: String,
    /// Hundredths of a percent.
    pub rwy_grad_1_1000_pct: Option<i16>,
    /// Tenths of a metre.
    pub ellipsoidal_height_1_10m: Option<i64>,
    /// Feet above mean sea level.
    pub landing_threshold_elev_ft_msl: i64,
    pub tch_val_indicator: Option<char>,
    pub loc_mls_gls_ident: Option<String>,
    pub ils_mls_gls_cat: Option<char>,
    /// Feet above ground level.
    pub thresh_cross_height_ft_agl: Option<u8>,
    pub lat: String,
    pub lon: String,
    pub displaced_thresh_dist_ft: u16,
}

/// The decoded columns of one procedure row.
pub ghost struct SsaRowV {
    pub sequence: int,
    pub route_typ: char,
    pub proc_ident: Seq<char>,
    pub trans_ident: Option<Seq<char>>,
    pub wpt_ident: Option<Seq<char>>,
    pub wpt_icao_region: Option<Seq<char>>,
    pub section: Option<char>,
    pub subsection: Option<char>,
    pub waypoint_desc_code: Option<Seq<char>>,
    pub turn_dir: Option<char>,
    pub rnp: Option<Dec>,
    pub path_and_term: Option<Seq<char>>,
    pub turn_dir_valid: Option<char>,
    pub rcmd_navaid: Option<Seq<char>>,
    pub rcmd_navaid_icao_region: Option<Seq<char>>,
    pub rcmd_navaid_section: Option<char>,
    pub rcmd_navaid_subsection: Option<char>,
    pub arc_radius_nm: Option<Dec>,
    pub theta: Option<Dec>,
    pub rho: Option<Dec>,
    pub ob_mag_crs: Option<Seq<char>>,
    pub rte_dist_from_or_hold_dist_time: Option<Seq<char>>,
    pub alt_desc: Option<char>,
    pub alt_one: Option<Seq<char>>,
    pub alt_two: Option<Seq<char>>,
    pub trans_alt_ft_msl: Option<int>,
    pub speed_lim_desc: Option<char>,
    pub speed_lim: Option<int>,
    pub vertical_angle: Option<Dec>,
    pub center_fix_or_proc_turn: Option<Seq<char>>,
    pub center_fix_icao_region: Option<Seq<char>>,
    pub center_fix_section: Option<char>,
    pub center_fix_subsection: Option<char>,
    pub multiple_code_or_taa_sect_ident: Option<char>,
    pub gps_fms_indicator: Option<char>,
    pub rte_qual1: Option<char>,
    pub rte_qual2: Option<char>,
}

/// The decoded columns of one runway row.
pub ghost struct RwyRowV {
    pub rwy_ident: Seq<char>,
    pub rwy_grad_1_1000_pct: Option<int>,
    pub ellipsoidal_height_1_10m: Option<int>,
    pub landing_threshold_elev_ft_msl: int,
    pub tch_val_indicator: Option<char>,
    pub loc_mls_gls_ident: Option<Seq<char>>,
    pub ils_mls_gls_cat: Option<char>,
    pub thresh_cross_height_ft_agl: Option<int>,
    pub lat: Seq<char>,
    pub lon: Seq<char>,
    pub displaced_thresh_dist_ft: int,
}

/// The decoded content of one CIFP row.
pub ghost enum RowV {
    Sid(SsaRowV),
    Star(SsaRowV),
    Apch(SsaRowV),
    Rwy(RwyRowV),
    PrDat,
}

/// An all-whitespace field decodes to nothing.
pub open spec fn sp_empty_to_none(span: Seq<char>) -> Option<Seq<char>> {
    if all_spaces(span) {
        None
    } else {
        Some(span)
    }
}

/// The packed RNP column: three characters, a two-digit significand and a
/// one-digit negated exponent, or an all-space field for none.
pub open spec fn sp_rnp(s: Seq<char>, i: int) -> Option<(Option<Dec>, int)> {
    let fd = find_char(s, i, ',');
    if fd >= s.len() {
        None
    } else {
        let span = s.subrange(i, fd);
        if span.len() == 3 && all_digits(span) {
            Some(
                (
                    Some(
                        Dec {
                            neg: false,
                            mantissa: digits_val(span.subrange(0, 2)) as u64,
                            scale: digit_val(span[2]) as u8,
                        },
                    ),
                    fd + 1,
                ),
            )
        } else if all_spaces(span) {
            Some((None, fd + 1))
        } else {
            None
        }
    }
}

/// An optional decimal column whose stored value is scaled down by ten to
/// the `k` on decoding.
pub open spec fn sp_scaled_down_dec(s: Seq<char>, i: int, k: int) -> Option<(Option<Dec>, int)> {
    match sp_opt_dec_sep(s, i, ',') {
        None => None,
        Some((None, p)) => Some((None, p)),
        Some((Some(d), p)) => match sp_div_pow10(d, k) {
            None => None,
            Some(d2) => Some((Some(d2), p)),
        },
    }
}

/// The discarded column with no known ARINC definition: anything up to
/// the next comma, the comma, and any spaces after it.
pub open spec fn sp_skip_field(s: Seq<char>, i: int) -> Option<int> {
    let fd = find_char(s, i, ',');
    if fd < s.len() {
        Some(skip_spaces(s, fd + 1))
    } else {
        None
    }
}

/// The procedure-row grammar after its record tag.
pub open spec fn sp_ssa_row(s: Seq<char>, i: int) -> Option<SsaRowV> {
    let de = digits_end(s, i);
    if !(de > i && digits_val(s.subrange(i, de)) <= u16::MAX) {
        None
    } else {
        let sequence = digits_val(s.subrange(i, de));
        let j = skip_spaces(s, de);
        if !(j < s.len() && s[j] == ',') {
            None
        } else {
            let p = j + 1;
            if !(p < s.len() && s[p] != ',') {
                None
            } else {
                let route_typ = s[p];
                let j2 = skip_spaces(s, p + 1);
                if !(j2 < s.len() && s[j2] == ',') {
                    None
                } else {
                    match sp_field_comma(s, j2 + 1, 6) {
                        None => None,
                        Some((proc_ident, p)) => match sp_field_comma(s, p, 5) {
                            None => None,
                            Some((trans_span, p)) => match sp_field_comma(s, p, 5) {
                                None => None,
                                Some((wpt_span, p)) => match sp_field_comma(s, p, 2) {
                                    None => None,
                                    Some((icao_span, p)) => match sp_opt_char_sep(s, p, ',') {
                                        None => None,
                                        Some((section, p)) => match sp_opt_char_sep(s, p, ',') {
                                            None => None,
                                            Some((subsection, p)) => sp_ssa_row_b(
                                                s,
                                                p,
                                                SsaPrefix {
                                                    sequence,
                                                    route_typ,
                                                    proc_ident,
                                                    trans_ident: sp_empty_to_none(trans_span),
                                                    wpt_ident: sp_empty_to_none(wpt_span),
                                                    wpt_icao_region: sp_empty_to_none(icao_span),
                                                    section,
                                                    subsection,
                                                },
                                            ),
                                        },
                                    },
                                },
                            },
                        },
                    }
                }
            }
        }
    }
}

/// The first eight decoded columns, carried into the rest of the grammar.
pub ghost struct SsaPrefix {
    pub sequence: int,
    pub route_typ: char,
    pub proc_ident: Seq<char>,
    pub trans_ident: Option<Seq<char>>,
    pub wpt_ident: Option<Seq<char>>,
    pub wpt_icao_region: Option<Seq<char>>,
    pub section: Option<char>,
    pub subsection: Option<char>,
}

/// The procedure-row grammar from the waypoint description code on.
pub open spec fn sp_ssa_row_b(s: Seq<char>, i: int, pre: SsaPrefix) -> Option<SsaRowV> {
    match sp_field_comma_exact(s, i, 4) {
        None => None,
        Some((desc_span, p)) => match sp_opt_char_sep(s, p, ',') {
            None => None,
            Some((turn_dir, p)) => match sp_rnp(s, p) {
                None => None,
                Some((rnp, p)) => match sp_field_comma_exact(s, p, 2) {
                    None => None,
                    Some((pt_span, p)) => match sp_opt_char_sep(s, p, ',') {
                        None => None,
                        Some((turn_dir_valid, p)) => match sp_field_comma(s, p, 4) {
                            None => None,
                            Some((rcmd_span, p)) => match sp_field_comma(s, p, 2) {
                                None => None,
                                Some((rcmd_icao_span, p)) => match sp_opt_char_sep(s, p, ',') {
                                    None => None,
                                    Some((rcmd_section, p)) => match sp_opt_char_sep(s, p, ',') {
                                        None => None,
                                        Some((rcmd_subsection, p)) => match sp_scaled_down_dec(
                                            s,
                                            p,
                                            3,
                                        ) {
                                            None => None,
                                            Some((arc_radius_nm, p)) => match sp_scaled_down_dec(
                                                s,
                                                p,
                                                1,
                                            ) {
                                                None => None,
                                                Some((theta, p)) => match sp_scaled_down_dec(
                                                    s,
                                                    p,
                                                    1,
                                                ) {
                                                    None => None,
                                                    Some((rho, p)) => sp_ssa_row_c(
                                                        s,
                                                        p,
                                                        pre,
                                                        SsaMiddle {
                                                            waypoint_desc_code: sp_empty_to_none(
                                                                desc_span,
                                                            ),
                                                            turn_dir,
                                                            rnp,
                                                            path_and_term: sp_empty_to_none(
                                                                pt_span,
                                                            ),
                                                            turn_dir_valid,
                                                            rcmd_navaid: sp_empty_to_none(
                                                                rcmd_span,
                                                            ),
                                                            rcmd_navaid_icao_region:
                                                                sp_empty_to_none(rcmd_icao_span),
                                                            rcmd_navaid_section: rcmd_section,
                                                            rcmd_navaid_subsection:
                                                                rcmd_subsection,
                                                            arc_radius_nm,
                                                            theta,
                                                            rho,
                                                        },
                                                    ),
                                                },
                                            },
                                        },
                                    },
                                },
                            },
                        },
                    },
                },
            },
        },
    }
}

/// The middle decoded columns.
pub ghost struct SsaMiddle {
    pub waypoint_desc_code: Option<Seq<char>>,
    pub turn_dir: Option<char>,
    pub rnp: Option<Dec>,
    pub path_and_term: Option<Seq<char>>,
    pub turn_dir_valid: Option<char>,
    pub rcmd_navaid: Option<Seq<char>>,
    pub rcmd_navaid_icao_region: Option<Seq<char>>,
    pub rcmd_navaid_section: Option<char>,
    pub rcmd_navaid_subsection: Option<char>,
    pub arc_radius_nm: Option<Dec>,
    pub theta: Option<Dec>,
    pub rho: Option<Dec>,
}

/// The procedure-row grammar from the outbound course on.
pub open spec fn sp_ssa_row_c(s: Seq<char>, i: int, pre: SsaPrefix, mid: SsaMiddle) -> Option<
    SsaRowV,
> {
    match sp_field_comma_exact(s, i, 4) {
        None => None,
        Some((ob_span, p)) => match sp_field_comma_exact(s, p, 4) {
            None => None,
            Some((rte_span, p)) => match sp_opt_char_sep(s, p, ',') {
                None => None,
                Some((alt_desc, p)) => match sp_field_comma_exact(s, p, 5) {
                    None => None,
                    Some((alt1_span, p)) => match sp_field_comma_exact(s, p, 5) {
                        None => None,
                        Some((alt2_span, p)) => match sp_opt_uint_sep(s, p, u32::MAX as int, ',') {
                            None => None,
                            Some((trans_alt, p)) => match sp_opt_char_sep(s, p, ',') {
                                None => None,
                                Some((speed_lim_desc, p)) => match sp_opt_uint_sep(
                                    s,
                                    p,
                                    u16::MAX as int,
                                    ',',
                                ) {
                                    None => None,
                                    Some((speed_lim, p)) => match sp_scaled_down_dec(s, p, 2) {
                                        None => None,
                                        Some((vertical_angle, p)) => match sp_skip_field(s, p) {
                                            None => None,
                                            Some(p) => match sp_field_comma(s, p, 5) {
                                                None => None,
                                                Some((center_span, p)) => match sp_field_comma(
                                                    s,
                                                    p,
                                                    2,
                                                ) {
                                                    None => None,
                                                    Some((center_icao_span, p)) => match
                                                        sp_opt_char_sep(s, p, ',') {
                                                        None => None,
                                                        Some((center_section, p)) => match
                                                            sp_opt_char_sep(s, p, ',') {
                                                            None => None,
                                                            Some((center_subsection, p)) => match
                                                                sp_opt_char_sep(s, p, ',') {
                                                                None => None,
                                                                Some((multiple_code, p)) => match
                                                                    sp_opt_char_sep(s, p, ',') {
                                                                    None => None,
                                                                    Some((gps_fms, p)) => match
                                                                        sp_opt_char_sep(s, p, ',') {
                                                                        None => None,
                                                                        Some((qual1, p)) => match
                                                                            sp_opt_char_sep(
                                                                            s,
                                                                            p,
                                                                            ';',
                                                                        ) {
                                                                            None => None,
                                                                            Some((qual2, p)) => {
                                                                                if p == s.len() {
                                                                                    Some(
                                                                                        mk_ssa(
                                                                                            pre,
                                                                                            mid,
                                                                                            ob_span,
                                                                                            rte_span,
                                                                                            alt_desc,
                                                                                            alt1_span,
                                                                                            alt2_span,
                                                                                            trans_alt,
                                                                                            speed_lim_desc,
                                                                                            speed_lim,
                                                                                            vertical_angle,
                                                                                            center_span,
                                                                                            center_icao_span,
                                                                                            center_section,
                                                                                            center_subsection,
                                                                                            multiple_code,
                                                                                            gps_fms,
                                                                                            qual1,
                                                                                            qual2,
                                                                                        ),
                                                                                    )
                                                                                } else {
                                                                                    None
                                                                                }
                                                                            },
                                                                        },
                                                                    },
                                                                },
                                                            },
                                                        },
                                                    },
                                                },
                                            },
                                        },
                                    },
                                },
                            },
                        },
                    },
                },
            },
        },
    }
}

/// Assemble the decoded procedure row.
pub open spec fn mk_ssa(
    pre: SsaPrefix,
    mid: SsaMiddle,
    ob_span: Seq<char>,
    rte_span: Seq<char>,
    alt_desc: Option<char>,
    alt1_span: Seq<char>,
    alt2_span: Seq<char>,
    trans_alt: Option<int>,
    speed_lim_desc: Option<char>,
    speed_lim: Option<int>,
    vertical_angle: Option<Dec>,
    center_span: Seq<char>,
    center_icao_span: Seq<char>,
    center_fix_section: Option<char>,
    center_fix_subsection: Option<char>,
    multiple_code_or_taa_sect_ident: Option<char>,
    gps_fms_indicator: Option<char>,
    rte_qual1: Option<char>,
    rte_qual2: Option<char>,
) -> SsaRowV {
    SsaRowV {
        sequence: pre.sequence,
        route_typ: pre.route_typ,
        proc_ident: pre.proc_ident,
        trans_ident: pre.trans_ident,
        wpt_ident: pre.wpt_ident,
        wpt_icao_region: pre.wpt_icao_region,
        section: pre.section,
        subsection: pre.subsection,
        waypoint_desc_code: mid.waypoint_desc_code,
        turn_dir: mid.turn_dir,
        rnp: mid.rnp,
        path_and_term: mid.path_and_term,
        turn_dir_valid: mid.turn_dir_valid,
        rcmd_navaid: mid.rcmd_navaid,
        rcmd_navaid_icao_region: mid.rcmd_navaid_icao_region,
        rcmd_navaid_section: mid.rcmd_navaid_section,
        rcmd_navaid_subsection: mid.rcmd_navaid_subsection,
        arc_radius_nm: mid.arc_radius_nm,
        theta: mid.theta,
        rho: mid.rho,
        ob_mag_crs: sp_empty_to_none(ob_span),
        rte_dist_from_or_hold_dist_time: sp_empty_to_none(rte_span),
        alt_desc,
        alt_one: sp_empty_to_none(alt1_span),
        alt_two: sp_empty_to_none(alt2_span),
        trans_alt_ft_msl: trans_alt,
        speed_lim_desc,
        speed_lim,
        vertical_angle,
        center_fix_or_proc_turn: sp_empty_to_none(center_span),
        center_fix_icao_region: sp_empty_to_none(center_icao_span),
        center_fix_section,
        center_fix_subsection,
        multiple_code_or_taa_sect_ident,
        gps_fms_indicator,
        rte_qual1,
        rte_qual2,
    }
}

/// The runway-row grammar after its record tag.
pub open spec fn sp_rwy_row(s: Seq<char>, i: int) -> Option<RwyRowV> {
    match sp_field_comma(s, i, 5) {
        None => None,
        Some((rwy_ident, p)) => match sp_opt_int_sep(s, p, i16::MIN as int, i16::MAX as int, ',') {
            None => None,
            Some((rwy_grad, p)) => match sp_opt_int_sep(
                s,
                p,
                i64::MIN as int,
                i64::MAX as int,
                ',',
            ) {
                None => None,
                Some((ellips, p)) => match sp_req_int_comma(s, p) {
                    None => None,
                    Some((thresh_elev, p)) => match sp_opt_char_sep(s, p, ',') {
                        None => None,
                        Some((tch_val_indicator, p)) => match sp_field_comma(s, p, 4) {
                            None => None,
                            Some((loc_span, p)) => match sp_opt_char_sep(s, p, ',') {
                                None => None,
                                Some((ils_mls_gls_cat, p)) => match sp_opt_uint_sep(
                                    s,
                                    p,
                                    u8::MAX as int,
                                    ';',
                                ) {
                                    None => None,
                                    Some((thresh_cross, p)) => match sp_field_comma(s, p, 10) {
                                        None => None,
                                        Some((lat, p)) => match sp_field_comma(s, p, 10) {
                                            None => None,
                                            Some((lon, p)) => match sp_req_uint_semi(s, p) {
                                                None => None,
                                                Some((displaced, p)) => {
                                                    if p == s.len() {
                                                        Some(
                                                            RwyRowV {
                                                                rwy_ident,
                                                                rwy_grad_1_1000_pct: rwy_grad,
                                                                ellipsoidal_height_1_10m: ellips,
                                                                landing_threshold_elev_ft_msl:
                                                                    thresh_elev,
                                                                tch_val_indicator,
                                                                loc_mls_gls_ident:
                                                                    sp_empty_to_none(loc_span),
                                                                ils_mls_gls_cat,
                                                                thresh_cross_height_ft_agl:
                                                                    thresh_cross,
                                                                lat,
                                                                lon,
                                                                displaced_thresh_dist_ft:
                                                                    displaced,
                                                            },
                                                        )
                                                    } else {
                                                        None
                                                    }
                                                },
                                            },
                                        },
                                    },
                                },
                            },
                        },
                    },
                },
            },
        },
    }
}

/// A required signed-number field closed by a comma.
pub open spec fn sp_req_int_comma(s: Seq<char>, i: int) -> Option<(int, int)> {
    let (neg, j0) = crate::navdata::scan::sign_at(s, i);
    let de = digits_end(s, j0);
    let m = digits_val(s.subrange(j0, de));
    let v = if neg {
        -m
    } else {
        m
    };
    let j = skip_spaces(s, de);
    if de > j0 && m <= i64::MAX && i64::MIN <= v <= i64::MAX && j < s.len() && s[j] == ',' {
        Some((v, j + 1))
    } else {
        None
    }
}

/// A required unsigned-number field closed by a semicolon.
pub open spec fn sp_req_uint_semi(s: Seq<char>, i: int) -> Option<(int, int)> {
    let de = digits_end(s, i);
    let v = digits_val(s.subrange(i, de));
    let j = skip_spaces(s, de);
    if de > i && v <= u16::MAX && j < s.len() && s[j] == ';' {
        Some((v, j + 1))
    } else {
        None
    }
}

/// The CIFP row grammar: the record tag picks the row shape.
pub open spec fn sp_cifp_row(s: Seq<char>) -> Option<RowV> {
    if s.len() >= 4 && s.subrange(0, 4) == "SID:"@ {
        match sp_ssa_row(s, 4) {
            Some(v) => Some(RowV::Sid(v)),
            None => None,
        }
    } else if s.len() >= 5 && s.subrange(0, 5) == "STAR:"@ {
        match sp_ssa_row(s, 5) {
            Some(v) => Some(RowV::Star(v)),
            None => None,
        }
    } else if s.len() >= 6 && s.subrange(0, 6) == "APPCH:"@ {
        match sp_ssa_row(s, 6) {
            Some(v) => Some(RowV::Apch(v)),
            None => None,
        }
    } else if s.len() >= 4 && s.subrange(0, 4) == "RWY:"@ {
        match sp_rwy_row(s, 4) {
            Some(v) => Some(RowV::Rwy(v)),
            None => None,
        }
    } else if s.len() >= 6 && s.subrange(0, 6) == "PRDAT:"@ {
        Some(RowV::PrDat)
    } else {
        None
    }
}

/// Whether an optional string field carries exactly an optional span.
pub open spec fn opt_str_is(a: Option<String>, b: Option<Seq<char>>) -> bool {
    match (a, b) {
        (Some(x), Some(y)) => x@ == y,
        (None, None) => true,
        _ => false,
    }
}

/// Whether a parsed procedure row carries exactly the decoded content of
/// a row.
pub open spec fn ssa_matches(r: SidStarApchRow, v: SsaRowV) -> bool {
    &&& r.sequence == v.sequence
    &&& r.route_typ == v.route_typ
    &&& r.proc_ident@ == v.proc_ident
    &&& opt_str_is(r.trans_ident, v.trans_ident)
    &&& opt_str_is(r.wpt_ident, v.wpt_ident)
    &&& opt_str_is(r.wpt_icao_region, v.wpt_icao_region)
    &&& r.section == v.section
    &&& r.subsection == v.subsection
    &&& opt_str_is(r.waypoint_desc_code, v.waypoint_desc_code)
    &&& r.turn_dir == v.turn_dir
    &&& r.rnp == v.rnp
    &&& opt_str_is(r.path_and_term, v.path_and_term)
    &&& r.turn_dir_valid == v.turn_dir_valid
    &&& opt_str_is(r.rcmd_navaid, v.rcmd_navaid)
    &&& opt_str_is(r.rcmd_navaid_icao_region, v.rcmd_navaid_icao_region)
    &&& r.rcmd_navaid_section == v.rcmd_navaid_section
    &&& r.rcmd_navaid_subsection == v.rcmd_navaid_subsection
    &&& r.arc_radius_nm == v.arc_radius_nm
    &&& r.theta == v.theta
    &&& r.rho == v.rho
    &&& opt_str_is(r.ob_mag_crs, v.ob_mag_crs)
    &&& opt_str_is(r.rte_dist_from_or_hold_dist_time, v.rte_dist_from_or_hold_dist_time)
    &&& r.alt_desc == v.alt_desc
    &&& opt_str_is(r.alt_one, v.alt_one)
    &&& opt_str_is(r.alt_two, v.alt_two)
    &&& (match (r.trans_alt_ft_msl, v.trans_alt_ft_msl) {
        (Some(a), Some(b)) => a == b,
        (None, None) => true,
        _ => false,
    })
    &&& r.speed_lim_desc == v.speed_lim_desc
    &&& (match (r.speed_lim, v.speed_lim) {
        (Some(a), Some(b)) => a == b,
        (None, None) => true,
        _ => false,
    })
    &&& r.vertical_angle == v.vertical_angle
    &&& opt_str_is(r.center_fix_or_proc_turn, v.center_fix_or_proc_turn)
    &&& opt_str_is(r.center_fix_icao_region, v.center_fix_icao_region)
    &&& r.center_fix_section == v.center_fix_section
    &&& r.center_fix_subsection == v.center_fix_subsection
    &&& r.multiple_code_or_taa_sect_ident == v.multiple_code_or_taa_sect_ident
    &&& r.gps_fms_indicator == v.gps_fms_indicator
    &&& r.rte_qual1 == v.rte_qual1
    &&& r.rte_qual2 == v.rte_qual2
}

/// Whether a parsed runway row carries exactly the decoded content of a
/// row.
pub open spec fn rwy_matches(r: RwyRow, v: RwyRowV) -> bool {
    &&& r.rwy_ident@ == v.rwy_ident
    &&& (match (r.rwy_grad_1_1000_pct, v.rwy_grad_1_1000_pct) {
        (Some(a), Some(b)) => a == b,
        (None, None) => true,
        _ => false,
    })
    &&& (match (r.ellipsoidal_height_1_10m, v.ellipsoidal_height_1_10m) {
        (Some(a), Some(b)) => a == b,
        (None, None) => true,
        _ => false,
    })
    &&& r.landing_threshold_elev_ft_msl == v.landing_threshold_elev_ft_msl
    &&& r.tch_val_indicator == v.tch_val_indicator
    &&& opt_str_is(r.loc_mls_gls_ident, v.loc_mls_gls_ident)
    &&& r.ils_mls_gls_cat == v.ils_mls_gls_cat
    &&& (match (r.thresh_cross_height_ft_agl, v.thresh_cross_height_ft_agl) {
        (Some(a), Some(b)) => a == b,
        (None, None) => true,
        _ => false,
    })
    &&& r.lat@ == v.lat
    &&& r.lon@ == v.lon
    &&& r.displaced_thresh_dist_ft == v.displaced_thresh_dist_ft
}

/// Whether a parsed CIFP row carries exactly the decoded content of a
/// row.
pub open spec fn row_matches(r: Row, v: RowV) -> bool {
    match (r, v) {
        (Row::Sid(a), RowV::Sid(b)) => ssa_matches(*a, b),
        (Row::Star(a), RowV::Star(b)) => ssa_matches(*a, b),
        (Row::Apch(a), RowV::Apch(b)) => ssa_matches(*a, b),
        (Row::Rwy(a), RowV::Rwy(b)) => rwy_matches(*a, b),
        (Row::PrDat, RowV::PrDat) => true,
        _ => false,
    }
}

/// A comma-closed string field where an all-space span decodes to none.
fn field_opt_max<'a>(sc: &mut Scanner<'a>, max: usize) -> (r: Result<Option<String>, RowError>)
    requires
        old(sc).wf(),
    ensures
        final(sc).wf(),
        final(sc).src() == old(sc).src(),
        r is Ok <==> sp_field_comma(old(sc).src(), old(sc).at(), max as int) is Some,
        r matches Ok(o) ==> (sp_field_comma(old(sc).src(), old(sc).at(), max as int)
            matches Some((span, p)) && opt_str_is(o, sp_empty_to_none(span)) && final(sc).at()
            == p),
{
    let t = sc.field_comma_max(max)?;
    if span_all_spaces(t.as_str()) {
        Ok(None)
    } else {
        Ok(Some(t))
    }
}

/// As `field_opt_max`, with an exact field width.
fn field_opt_exact<'a>(sc: &mut Scanner<'a>, n: usize) -> (r: Result<Option<String>, RowError>)
    requires
        old(sc).wf(),
    ensures
        final(sc).wf(),
        final(sc).src() == old(sc).src(),
        r is Ok <==> sp_field_comma_exact(old(sc).src(), old(sc).at(), n as int) is Some,
        r matches Ok(o) ==> (sp_field_comma_exact(old(sc).src(), old(sc).at(), n as int)
            matches Some((span, p)) && opt_str_is(o, sp_empty_to_none(span)) && final(sc).at()
            == p),
{
    let t = sc.field_comma_exact(n)?;
    if span_all_spaces(t.as_str()) {
        Ok(None)
    } else {
        Ok(Some(t))
    }
}

/// The packed RNP field.
fn rnp_field<'a>(sc: &mut Scanner<'a>) -> (r: Result<Option<Dec>, RowError>)
    requires
        old(sc).wf(),
    ensures
        final(sc).wf(),
        final(sc).src() == old(sc).src(),
        r is Ok <==> sp_rnp(old(sc).src(), old(sc).at()) is Some,
        r matches Ok(o) ==> sp_rnp(old(sc).src(), old(sc).at()) == Some((o, final(sc).at())),
{
    let ghost s = old(sc).src();
    let ghost i0 = old(sc).at();
    let t = sc.take_until(',')?;
    sc.bump();
    let l = t.as_str().unicode_len();
    if l == 3 {
        let c0 = t.as_str().get_char(0);
        let c1 = t.as_str().get_char(1);
        let c2 = t.as_str().get_char(2);
        if c0 >= '0' && c0 <= '9' && c1 >= '0' && c1 <= '9' && c2 >= '0' && c2 <= '9' {
            let d0 = (c0 as u32 - '0' as u32) as u64;
            let d1 = (c1 as u32 - '0' as u32) as u64;
            let d2 = (c2 as u32 - '0' as u32) as u8;
            proof {
                let span = t@;
                assert(all_digits(span)) by {
                    assert forall|j: int| 0 <= j < span.len() implies crate::navdata::scan::is_digit(
                        #[trigger] span[j],
                    ) by {
                        assert(j == 0 || j == 1 || j == 2);
                    }
                }
                reveal_with_fuel(digits_val, 4);
                let two = span.subrange(0, 2);
                assert(two.drop_last() =~= span.subrange(0, 1));
                assert(two.last() == span[1]);
                assert(span.subrange(0, 1).drop_last() =~= Seq::<char>::empty());
                assert(span.subrange(0, 1).last() == span[0]);
                assert(digits_val(Seq::<char>::empty()) == 0);
                assert(digits_val(span.subrange(0, 1)) == digit_val(span[0]));
                assert(digits_val(two) == digit_val(span[0]) * 10 + digit_val(span[1]));
            }
            return Ok(Some(Dec { neg: false, mantissa: d0 * 10 + d1, scale: d2 }));
        }
        if span_all_spaces(t.as_str()) {
            return Ok(None);
        }
        proof {
            assert(!all_digits(t@)) by {
                if all_digits(t@) {
                    assert(crate::navdata::scan::is_digit(t@[0]));
                    assert(crate::navdata::scan::is_digit(t@[1]));
                    assert(crate::navdata::scan::is_digit(t@[2]));
                }
            }
        }
        return Err(RowError { pos: 0 });
    }
    if span_all_spaces(t.as_str()) {
        return Ok(None);
    }
    Err(RowError { pos: 0 })
}

/// An optional decimal field scaled down by ten to the `k` on decoding.
fn scaled_down_field<'a>(sc: &mut Scanner<'a>, k: u8) -> (r: Result<Option<Dec>, RowError>)
    requires
        old(sc).wf(),
        k <= 19,
    ensures
        final(sc).wf(),
        final(sc).src() == old(sc).src(),
        r is Ok <==> sp_scaled_down_dec(old(sc).src(), old(sc).at(), k as int) is Some,
        r matches Ok(o) ==> sp_scaled_down_dec(old(sc).src(), old(sc).at(), k as int) == Some(
            (o, final(sc).at()),
        ),
{
    let d = sc.opt_dec_sep(',')?;
    match d {
        None => Ok(None),
        Some(x) => match x.div_pow10(k) {
            Some(y) => Ok(Some(y)),
            None => Err(RowError { pos: 0 }),
        },
    }
}

/// The discarded unknown column.
fn skip_field<'a>(sc: &mut Scanner<'a>) -> (r: Result<(), RowError>)
    requires
        old(sc).wf(),
    ensures
        final(sc).wf(),
        final(sc).src() == old(sc).src(),
        r is Ok <==> sp_skip_field(old(sc).src(), old(sc).at()) is Some,
        r is Ok ==> sp_skip_field(old(sc).src(), old(sc).at()) == Some(final(sc).at()),
{
    let _ = sc.take_until(',')?;
    sc.bump();
    sc.skip_spaces();
    Ok(())
}

/// Parse the shared SID/STAR/APPCH row shape after the record tag.
#[verifier::rlimit(100)]
#[verifier::spinoff_prover]
fn parse_ssa_row<'a>(sc: &mut Scanner<'a>) -> (r: Result<Box<SidStarApchRow>, RowError>)
    requires
        old(sc).wf(),
    ensures
        final(sc).wf(),
        r is Ok <==> sp_ssa_row(old(sc).src(), old(sc).at()) is Some,
        r matches Ok(row) ==> (sp_ssa_row(old(sc).src(), old(sc).at()) matches Some(v)
            && ssa_matches(*row, v)),
{
    let sequence = sc.req_u16_sep(',')?;
    let route_typ = if !sc.at_end() && !sc.peek_is(',') {
        let c = sc.take_char()?;
        c
    } else {
        return Err(RowError { pos: 0 });
    };
    sc.spaces_then(',')?;
    let proc_ident = sc.field_comma_max(6)?;
    let trans_ident = field_opt_max(sc, 5)?;
    let wpt_ident = field_opt_max(sc, 5)?;
    let wpt_icao_region = field_opt_max(sc, 2)?;
    let section = sc.opt_char_sep(',')?;
    let subsection = sc.opt_char_sep(',')?;
    let waypoint_desc_code = field_opt_exact(sc, 4)?;
    let turn_dir = sc.opt_char_sep(',')?;
    let rnp = rnp_field(sc)?;
    let path_and_term = field_opt_exact(sc, 2)?;
    let turn_dir_valid = sc.opt_char_sep(',')?;
    let rcmd_navaid = field_opt_max(sc, 4)?;
    let rcmd_navaid_icao_region = field_opt_max(sc, 2)?;
    let rcmd_navaid_section = sc.opt_char_sep(',')?;
    let rcmd_navaid_subsection = sc.opt_char_sep(',')?;
    let arc_radius_nm = scaled_down_field(sc, 3)?;
    let theta = scaled_down_field(sc, 1)?;
    let rho = scaled_down_field(sc, 1)?;
    let ob_mag_crs = field_opt_exact(sc, 4)?;
    let rte_dist_from_or_hold_dist_time = field_opt_exact(sc, 4)?;
    let alt_desc = sc.opt_char_sep(',')?;
    let alt_one = field_opt_exact(sc, 5)?;
    let alt_two = field_opt_exact(sc, 5)?;
    let trans_alt_ft_msl = sc.opt_u32_sep(',')?;
    let speed_lim_desc = sc.opt_char_sep(',')?;
    let speed_lim = sc.opt_u16_sep(',')?;
    let vertical_angle = scaled_down_field(sc, 2)?;
    skip_field(sc)?;
    let center_fix_or_proc_turn = field_opt_max(sc, 5)?;
    let center_fix_icao_region = field_opt_max(sc, 2)?;
    let center_fix_section = sc.opt_char_sep(',')?;
    let center_fix_subsection = sc.opt_char_sep(',')?;
    let multiple_code_or_taa_sect_ident = sc.opt_char_sep(',')?;
    let gps_fms_indicator = sc.opt_char_sep(',')?;
    let rte_qual1 = sc.opt_char_sep(',')?;
    let rte_qual2 = sc.opt_char_sep(';')?;
    if !sc.at_end() {
        return Err(RowError { pos: 0 });
    }
    Ok(
        Box::new(
            SidStarApchRow {
                sequence,
                route_typ,
                proc_ident,
                trans_ident,
                wpt_ident,
                wpt_icao_region,
                section,
                subsection,
                waypoint_desc_code,
                turn_dir,
                rnp,
                path_and_term,
                turn_dir_valid,
                rcmd_navaid,
                rcmd_navaid_icao_region,
                rcmd_navaid_section,
                rcmd_navaid_subsection,
                arc_radius_nm,
                theta,
                rho,
                ob_mag_crs,
                rte_dist_from_or_hold_dist_time,
                alt_desc,
                alt_one,
                alt_two,
                trans_alt_ft_msl,
                speed_lim_desc,
                speed_lim,
                vertical_angle,
                center_fix_or_proc_turn,
                center_fix_icao_region,
                center_fix_section,
                center_fix_subsection,
                multiple_code_or_taa_sect_ident,
                gps_fms_indicator,
                rte_qual1,
                rte_qual2,
            },
        ),
    )
}

/// Parse the runway row shape after the record tag.
#[verifier::rlimit(100)]
#[verifier::spinoff_prover]
fn parse_rwy_row<'a>(sc: &mut Scanner<'a>) -> (r: Result<Box<RwyRow>, RowError>)
    requires
        old(sc).wf(),
    ensures
        final(sc).wf(),
        r is Ok <==> sp_rwy_row(old(sc).src(), old(sc).at()) is Some,
        r matches Ok(row) ==> (sp_rwy_row(old(sc).src(), old(sc).at()) matches Some(v)
            && rwy_matches(*row, v)),
{
    let rwy_ident = sc.field_comma_max(5)?;
    let rwy_grad = sc.opt_i64_sep(i16::MIN as i64, i16::MAX as i64, ',')?;
    let rwy_grad_1_1000_pct = match rwy_grad {
        Some(v) => Some(v as i16),
        None => None,
    };
    let ellipsoidal_height_1_10m = sc.opt_i64_sep(i64::MIN, i64::MAX, ',')?;
    let landing_threshold_elev_ft_msl = sc.req_i64_sep(i64::MIN, i64::MAX, ',')?;
    let tch_val_indicator = sc.opt_char_sep(',')?;
    let loc_mls_gls_ident = field_opt_max(sc, 4)?;
    let ils_mls_gls_cat = sc.opt_char_sep(',')?;
    let thresh_cross_height_ft_agl = sc.opt_u8_sep(';')?;
    let lat = sc.field_comma_max(10)?;
    let lon = sc.field_comma_max(10)?;
    let displaced_thresh_dist_ft = sc.req_u16_sep(';')?;
    if !sc.at_end() {
        return Err(RowError { pos: 0 });
    }
    Ok(
        Box::new(
            RwyRow {
                rwy_ident,
                rwy_grad_1_1000_pct,
                ellipsoidal_height_1_10m,
                landing_threshold_elev_ft_msl,
                tch_val_indicator,
                loc_mls_gls_ident,
                ils_mls_gls_cat,
                thresh_cross_height_ft_agl,
                lat,
                lon,
                displaced_thresh_dist_ft,
            },
        ),
    )
}

/// Parse one CIFP row: the record tag picks the shape.
pub fn parse_row(line: &str) -> (r: Result<Row, RowError>)
    ensures
        r is Ok <==> sp_cifp_row(line@) is Some,
        r matches Ok(row) ==> (sp_cifp_row(line@) matches Some(v) && row_matches(row, v)),
{
    proof {
        reveal_strlit("SID:");
        reveal_strlit("STAR:");
        reveal_strlit("APPCH:");
        reveal_strlit("RWY:");
        reveal_strlit("PRDAT:");
    }
    let mut sc = Scanner::new(line);
    if sc.expect_lit("SID:").is_ok() {
        let row = parse_ssa_row(&mut sc)?;
        Ok(Row::Sid(row))
    } else if sc.expect_lit("STAR:").is_ok() {
        let row = parse_ssa_row(&mut sc)?;
        Ok(Row::Star(row))
    } else if sc.expect_lit("APPCH:").is_ok() {
        let row = parse_ssa_row(&mut sc)?;
        Ok(Row::Apch(row))
    } else if sc.expect_lit("RWY:").is_ok() {
        let row = parse_rwy_row(&mut sc)?;
        Ok(Row::Rwy(row))
    } else if sc.expect_lit("PRDAT:").is_ok() {
        Ok(Row::PrDat)
    } else {
        Err(RowError { pos: 0 })
    }
}

} // verus!

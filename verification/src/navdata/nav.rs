//! Rows of `earth_nav.dat` and `user_nav.dat`: the ten navaid shapes.

use vstd::prelude::*;
use vstd::string::*;

use crate::navdata::scan::{
    is_space, pow10, skip_spaces, sp_col_dec, sp_col_dec_end, sp_col_int, sp_col_token,
    sp_col_uint, sp_col_uint0, spec_lines, split_lines, str_eq, digits_end, Dec, RowError, Scanner,
};
use crate::navdata::{
    bom_ok, parse_header, shape_prepend, sp_header_line, sp_shape, DataVersion, FileKind,
    FileShape, Header, ParseError,
};

verus! {

/// NDB power classes, as coded in the class column.
#[derive(Debug, Copy, Clone, PartialEq, Eq, Structural)]
pub enum NdbClass {
    Locator,
    LowPower,
    Normal,
    HighPower,
    Unrecognized(u8),
}

/// The class column codes 15, 25, 50 and 75 name the four NDB classes.
pub open spec fn sp_ndb_class(c: int) -> NdbClass {
    if c == 15 {
        NdbClass::Locator
    } else if c == 25 {
        NdbClass::LowPower
    } else if c == 50 {
        NdbClass::Normal
    } else if c == 75 {
        NdbClass::HighPower
    } else {
        NdbClass::Unrecognized(c as u8)
    }
}

/// VOR power classes, as coded in the class column.
#[derive(Debug, Copy, Clone, PartialEq, Eq, Structural)]
pub enum VorClass {
    /// Terminal, low power.
    Terminal,
    /// Low altitude, medium power.
    LowAlt,
    /// High altitude, high power.
    HighAlt,
    /// Unspecified, but likely high power.
    Unspecified,
    Unrecognized(u8),
}

/// The class column codes 25, 40, 130 and 125 name the four VOR classes.
pub open spec fn sp_vor_class(c: int) -> VorClass {
    if c == 25 {
        VorClass::Terminal
    } else if c == 40 {
        VorClass::LowAlt
    } else if c == 130 {
        VorClass::HighAlt
    } else if c == 125 {
        VorClass::Unspecified
    } else {
        VorClass::Unrecognized(c as u8)
    }
}

/// The three marker-beacon rows.
#[derive(Debug, Clone, Copy, PartialEq, Eq, Structural)]
pub enum MarkerType {
    Outer,
    Middle,
    Inner,
}

/// A navaid: a radio transmitter or a derived reference point.
#[derive(Debug, Clone)]
pub struct Navaid {
    pub lat: Dec,
    pub lon: Dec,
    /// Feet above mean sea level.
    pub elevation: i32,
    pub icao_region: String,
    pub ident: String,
    pub type_data: TypeSpecificData,
}

/// The per-kind payload of a navaid row.
#[derive(Debug, Clone)]
pub enum TypeSpecificData {
    Ndb {
        /// The frequency of this NDB, in whole kHz.
        freq_khz: u16,
        class: NdbClass,
        /// 1.0 if use of BFO is required, 0.0 otherwise.
        flags: Dec,
        /// The terminal region this NDB belongs to, or `ENRT`.
        terminal_region: String,
        name: String,
    },
    Vor {
        /// The frequency of this VOR, in tens of kHz.
        freq_10khz: u32,
        class: VorClass,
        slaved_variation: Dec,
        name: String,
    },
    Localizer {
        is_with_ils: bool,
        freq_10khz: u32,
        max_range: u16,
        crs_mag: Dec,
        crs_true: Dec,
        airport_icao: String,
        rwy: String,
        name: String,
    },
    Glideslope {
        freq_10khz: u32,
        max_range: u16,
        loc_crs_true: Dec,
        /// Hundredths of a degree; `u16::MAX` encodes a decode failure.
        glide_angle: u16,
        airport_icao: String,
        rwy: String,
        name: String,
    },
    MarkerBeacon {
        typ: MarkerType,
        loc_crs_true: Dec,
        airport_icao: String,
        rwy: String,
        name: String,
    },
    Dme {
        /// Whether the frequency is displayed on its own; false for DMEs
        /// paired with a VOR.
        display_freq: bool,
        paired_freq_10khz: u32,
        service_volume: u16,
        bias: Dec,
        terminal_region: String,
        name: String,
    },
    Fpap {
        channel: u32,
        length_offset: Dec,
        final_app_crs_true: Dec,
        airport_icao: String,
        rwy: String,
        perf: String,
    },
    ThresholdPoint {
        channel: u32,
        thres_cross_height: Dec,
        final_app_crs_true: Dec,
        /// Hundredths of a degree; `u16::MAX` encodes a decode failure.
        glide_path_angle: u16,
        airport_icao: String,
        rwy: String,
        ref_path_ident: String,
    },
    Gls {
        channel: u32,
        final_app_crs_true: Dec,
        /// Hundredths of a degree; `u16::MAX` encodes a decode failure.
        glide_path_angle: u16,
        airport_icao: String,
        rwy: String,
        ref_path_ident: String,
    },
}

/// The raw columns of one navaid row: the shared lead and the per-kind
/// payload, before the class and packed-course columns are decoded.
pub ghost struct NavRowV {
    pub lat: Dec,
    pub lon: Dec,
    pub elevation: int,
    pub icao_region: Seq<char>,
    pub ident: Seq<char>,
    pub type_data: TypeDataV,
}

pub ghost enum TypeDataV {
    Ndb { freq_khz: int, class: int, flags: Dec, terminal_region: Seq<char>, name: Seq<char> },
    Vor { freq_10khz: int, class: int, slaved_variation: Dec, name: Seq<char> },
    Localizer {
        is_with_ils: bool,
        freq_10khz: int,
        max_range: int,
        funny: Dec,
        airport_icao: Seq<char>,
        rwy: Seq<char>,
        name: Seq<char>,
    },
    Glideslope {
        freq_10khz: int,
        max_range: int,
        funny: Dec,
        airport_icao: Seq<char>,
        rwy: Seq<char>,
        name: Seq<char>,
    },
    MarkerBeacon {
        typ: MarkerType,
        loc_crs_true: Dec,
        airport_icao: Seq<char>,
        rwy: Seq<char>,
        name: Seq<char>,
    },
    Dme {
        display_freq: bool,
        paired_freq_10khz: int,
        service_volume: int,
        bias: Dec,
        terminal_region: Seq<char>,
        name: Seq<char>,
    },
    Fpap {
        channel: int,
        length_offset: Dec,
        final_app_crs_true: Dec,
        airport_icao: Seq<char>,
        rwy: Seq<char>,
        perf: Seq<char>,
    },
    ThresholdPoint {
        channel: int,
        thres_cross_height: Dec,
        funny: Dec,
        airport_icao: Seq<char>,
        rwy: Seq<char>,
        ref_path_ident: Seq<char>,
    },
    Gls { channel: int, funny: Dec, airport_icao: Seq<char>, rwy: Seq<char>, ref_path_ident: Seq<char> },
}

/// The remainder of a packed column split by `m`, at the packed value's own
/// scale and sign.
pub open spec fn sp_mod(d: Dec, m: int) -> Dec {
    Dec {
        neg: d.neg,
        mantissa: (d.mantissa as int % (m * pow10(d.scale as nat))) as u64,
        scale: d.scale,
    }
}

/// The whole multiples of `m` in a packed column's absolute value.
pub open spec fn sp_quot(d: Dec, m: int) -> int {
    d.mantissa as int / (m * pow10(d.scale as nat))
}

/// The magnetic course of a localizer: the whole multiples of 360 in the
/// packed course column.
pub open spec fn sp_crs_mag(d: Dec) -> Dec {
    Dec { neg: d.neg, mantissa: sp_quot(d, 360) as u64, scale: 0 }
}

/// The glide angle in hundredths of a degree: the packed column divided by
/// 1000 and truncated toward zero, with `u16::MAX` standing in for values
/// that do not fit.
pub open spec fn sp_angle_u16(d: Dec) -> u16 {
    let q = sp_quot(d, 1000);
    if q == 0 {
        0u16
    } else if d.neg || q > u16::MAX {
        u16::MAX
    } else {
        q as u16
    }
}

/// The shared row lead: row code, latitude, longitude, elevation.
pub open spec fn sp_lead(s: Seq<char>) -> Option<(int, Dec, Dec, int, int)> {
    match sp_col_uint0(s, 0, u8::MAX as int) {
        None => None,
        Some((code, p)) => match sp_col_dec(s, p) {
            None => None,
            Some((lat, p)) => match sp_col_dec(s, p) {
                None => None,
                Some((lon, p)) => match sp_col_int(s, p, i32::MIN as int, i32::MAX as int) {
                    None => None,
                    Some((elev, p)) => Some((code, lat, lon, elev, p)),
                },
            },
        },
    }
}

/// The common tail `ident airport_icao icao_region rwy name…` of the
/// airport-bound navaid rows.
pub open spec fn sp_tail_arpt(s: Seq<char>, i: int) -> Option<
    (Seq<char>, Seq<char>, Seq<char>, Seq<char>, Seq<char>),
> {
    match sp_col_token(s, i, 5) {
        None => None,
        Some((ident, p)) => match sp_col_token(s, p, 4) {
            None => None,
            Some((airport, p)) => match sp_col_token(s, p, 2) {
                None => None,
                Some((icao, p)) => match sp_col_token(s, p, 3) {
                    None => None,
                    Some((rwy, p)) => {
                        if p < s.len() && is_space(s[p]) {
                            Some(
                                (
                                    ident,
                                    airport,
                                    icao,
                                    rwy,
                                    s.subrange(skip_spaces(s, p), s.len() as int),
                                ),
                            )
                        } else {
                            None
                        }
                    },
                },
            },
        },
    }
}

/// The common tail `ident terminal_region icao_region name…` of the NDB and
/// DME rows.
pub open spec fn sp_tail_term(s: Seq<char>, i: int) -> Option<
    (Seq<char>, Seq<char>, Seq<char>, Seq<char>),
> {
    match sp_col_token(s, i, 5) {
        None => None,
        Some((ident, p)) => match sp_col_token(s, p, 4) {
            None => None,
            Some((terminal, p)) => match sp_col_token(s, p, 2) {
                None => None,
                Some((icao, p)) => {
                    if p < s.len() && is_space(s[p]) {
                        Some((ident, terminal, icao, s.subrange(skip_spaces(s, p), s.len() as int)))
                    } else {
                        None
                    }
                },
            },
        },
    }
}

/// The VOR tail: ident, the literal ` ENRT`, the ICAO region, the name.
pub open spec fn sp_tail_vor(s: Seq<char>, i: int) -> Option<(Seq<char>, Seq<char>, Seq<char>)> {
    match sp_col_token(s, i, 5) {
        None => None,
        Some((ident, p)) => {
            if !(p + 5 <= s.len() && s.subrange(p, p + 5) == " ENRT"@) {
                None
            } else {
                match sp_col_token(s, p + 5, 2) {
                    None => None,
                    Some((icao, p)) => {
                        if p < s.len() && is_space(s[p]) {
                            Some((ident, icao, s.subrange(skip_spaces(s, p), s.len() as int)))
                        } else {
                            None
                        }
                    },
                }
            }
        },
    }
}

/// The marker tail: ident, airport, region, runway, and a short name that
/// must end the line.
pub open spec fn sp_tail_mkr(s: Seq<char>, i: int) -> Option<
    (Seq<char>, Seq<char>, Seq<char>, Seq<char>, Seq<char>),
> {
    match sp_col_token(s, i, 5) {
        None => None,
        Some((ident, p)) => match sp_col_token(s, p, 4) {
            None => None,
            Some((airport, p)) => match sp_col_token(s, p, 2) {
                None => None,
                Some((icao, p)) => match sp_col_token(s, p, 3) {
                    None => None,
                    Some((rwy, p)) => match sp_col_token(s, p, 2) {
                        None => None,
                        Some((name, p)) => {
                            if p == s.len() {
                                Some((ident, airport, icao, rwy, name))
                            } else {
                                None
                            }
                        },
                    },
                },
            },
        },
    }
}

/// The per-kind columns after the lead, by row code.
pub open spec fn sp_var_row(s: Seq<char>, i: int, code: int) -> Option<
    (TypeDataV, Seq<char>, Seq<char>),
> {
    if code == 2 {
        match sp_col_uint(s, i, u16::MAX as int) {
            None => None,
            Some((freq_khz, p)) => match sp_col_uint(s, p, u8::MAX as int) {
                None => None,
                Some((class, p)) => match sp_col_dec(s, p) {
                    None => None,
                    Some((flags, p)) => match sp_tail_term(s, p) {
                        None => None,
                        Some((ident, terminal_region, icao, name)) => Some(
                            (
                                TypeDataV::Ndb { freq_khz, class, flags, terminal_region, name },
                                ident,
                                icao,
                            ),
                        ),
                    },
                },
            },
        }
    } else if code == 3 {
        match sp_col_uint(s, i, u32::MAX as int) {
            None => None,
            Some((freq_10khz, p)) => match sp_col_uint(s, p, u8::MAX as int) {
                None => None,
                Some((class, p)) => match sp_col_dec(s, p) {
                    None => None,
                    Some((slaved_variation, p)) => match sp_tail_vor(s, p) {
                        None => None,
                        Some((ident, icao, name)) => Some(
                            (
                                TypeDataV::Vor { freq_10khz, class, slaved_variation, name },
                                ident,
                                icao,
                            ),
                        ),
                    },
                },
            },
        }
    } else if code == 4 || code == 5 {
        match sp_col_uint(s, i, u32::MAX as int) {
            None => None,
            Some((freq_10khz, p)) => match sp_col_uint(s, p, u16::MAX as int) {
                None => None,
                Some((max_range, p)) => match sp_col_dec_end(s, p) {
                    None => None,
                    Some((funny, p)) => match sp_tail_arpt(s, p) {
                        None => None,
                        Some((ident, airport_icao, icao, rwy, name)) => Some(
                            (
                                TypeDataV::Localizer {
                                    is_with_ils: code == 4,
                                    freq_10khz,
                                    max_range,
                                    funny,
                                    airport_icao,
                                    rwy,
                                    name,
                                },
                                ident,
                                icao,
                            ),
                        ),
                    },
                },
            },
        }
    } else if code == 6 {
        match sp_col_uint(s, i, u32::MAX as int) {
            None => None,
            Some((freq_10khz, p)) => match sp_col_uint(s, p, u16::MAX as int) {
                None => None,
                Some((max_range, p)) => match sp_col_dec_end(s, p) {
                    None => None,
                    Some((funny, p)) => match sp_tail_arpt(s, p) {
                        None => None,
                        Some((ident, airport_icao, icao, rwy, name)) => Some(
                            (
                                TypeDataV::Glideslope {
                                    freq_10khz,
                                    max_range,
                                    funny,
                                    airport_icao,
                                    rwy,
                                    name,
                                },
                                ident,
                                icao,
                            ),
                        ),
                    },
                },
            },
        }
    } else if code == 7 || code == 8 || code == 9 {
        let skip1 = sp_skip_digits(s, i);
        match skip1 {
            None => None,
            Some(p) => match sp_skip_digits(s, p) {
                None => None,
                Some(p) => match sp_col_dec(s, p) {
                    None => None,
                    Some((loc_crs_true, p)) => match sp_tail_mkr(s, p) {
                        None => None,
                        Some((ident, airport_icao, icao, rwy, name)) => Some(
                            (
                                TypeDataV::MarkerBeacon {
                                    typ: if code == 7 {
                                        MarkerType::Outer
                                    } else if code == 8 {
                                        MarkerType::Middle
                                    } else {
                                        MarkerType::Inner
                                    },
                                    loc_crs_true,
                                    airport_icao,
                                    rwy,
                                    name,
                                },
                                ident,
                                icao,
                            ),
                        ),
                    },
                },
            },
        }
    } else if code == 12 || code == 13 {
        match sp_col_uint(s, i, u32::MAX as int) {
            None => None,
            Some((paired_freq_10khz, p)) => match sp_col_uint(s, p, u16::MAX as int) {
                None => None,
                Some((service_volume, p)) => match sp_col_dec(s, p) {
                    None => None,
                    Some((bias, p)) => match sp_tail_term(s, p) {
                        None => None,
                        Some((ident, terminal_region, icao, name)) => Some(
                            (
                                TypeDataV::Dme {
                                    display_freq: code == 13,
                                    paired_freq_10khz,
                                    service_volume,
                                    bias,
                                    terminal_region,
                                    name,
                                },
                                ident,
                                icao,
                            ),
                        ),
                    },
                },
            },
        }
    } else if code == 14 {
        match sp_col_uint(s, i, u32::MAX as int) {
            None => None,
            Some((channel, p)) => match sp_col_dec(s, p) {
                None => None,
                Some((length_offset, p)) => match sp_col_dec(s, p) {
                    None => None,
                    Some((final_app_crs_true, p)) => match sp_tail_arpt(s, p) {
                        None => None,
                        Some((ident, airport_icao, icao, rwy, perf)) => Some(
                            (
                                TypeDataV::Fpap {
                                    channel,
                                    length_offset,
                                    final_app_crs_true,
                                    airport_icao,
                                    rwy,
                                    perf,
                                },
                                ident,
                                icao,
                            ),
                        ),
                    },
                },
            },
        }
    } else if code == 15 {
        match sp_col_uint(s, i, u32::MAX as int) {
            None => None,
            Some((channel, p)) => match sp_skip_digits(s, p) {
                None => None,
                Some(p) => match sp_col_dec_end(s, p) {
                    None => None,
                    Some((funny, p)) => match sp_tail_arpt(s, p) {
                        None => None,
                        Some((ident, airport_icao, icao, rwy, ref_path_ident)) => Some(
                            (
                                TypeDataV::Gls { channel, funny, airport_icao, rwy, ref_path_ident },
                                ident,
                                icao,
                            ),
                        ),
                    },
                },
            },
        }
    } else if code == 16 {
        match sp_col_uint(s, i, u32::MAX as int) {
            None => None,
            Some((channel, p)) => match sp_col_dec(s, p) {
                None => None,
                Some((thres_cross_height, p)) => match sp_col_dec_end(s, p) {
                    None => None,
                    Some((funny, p)) => match sp_tail_arpt(s, p) {
                        None => None,
                        Some((ident, airport_icao, icao, rwy, ref_path_ident)) => Some(
                            (
                                TypeDataV::ThresholdPoint {
                                    channel,
                                    thres_cross_height,
                                    funny,
                                    airport_icao,
                                    rwy,
                                    ref_path_ident,
                                },
                                ident,
                                icao,
                            ),
                        ),
                    },
                },
            },
        }
    } else {
        None
    }
}

/// One unused all-digit column: at least one space, then at least one digit.
pub open spec fn sp_skip_digits(s: Seq<char>, i: int) -> Option<int> {
    if i < s.len() && is_space(s[i]) {
        let j = skip_spaces(s, i);
        let de = digits_end(s, j);
        if de > j {
            Some(de)
        } else {
            None
        }
    } else {
        None
    }
}

/// The navaid-row grammar: the shared lead, then the columns of the row
/// kind the code selects.
pub open spec fn sp_nav_row(s: Seq<char>) -> Option<NavRowV> {
    match sp_lead(s) {
        None => None,
        Some((code, lat, lon, elevation, p)) => match sp_var_row(s, p, code) {
            None => None,
            Some((type_data, ident, icao_region)) => Some(
                NavRowV { lat, lon, elevation, icao_region, ident, type_data },
            ),
        },
    }
}

/// Whether a parsed payload carries exactly the decoded content of the raw
/// payload columns.
pub open spec fn td_matches(t: TypeSpecificData, v: TypeDataV) -> bool {
    match (t, v) {
        (
            TypeSpecificData::Ndb { freq_khz, class, flags, terminal_region, name },
            TypeDataV::Ndb { freq_khz: f2, class: c2, flags: fl2, terminal_region: t2, name: n2 },
        ) => {
            &&& freq_khz == f2
            &&& class == sp_ndb_class(c2)
            &&& flags == fl2
            &&& terminal_region@ == t2
            &&& name@ == n2
        },
        (
            TypeSpecificData::Vor { freq_10khz, class, slaved_variation, name },
            TypeDataV::Vor { freq_10khz: f2, class: c2, slaved_variation: s2, name: n2 },
        ) => {
            &&& freq_10khz == f2
            &&& class == sp_vor_class(c2)
            &&& slaved_variation == s2
            &&& name@ == n2
        },
        (
            TypeSpecificData::Localizer {
                is_with_ils,
                freq_10khz,
                max_range,
                crs_mag,
                crs_true,
                airport_icao,
                rwy,
                name,
            },
            TypeDataV::Localizer {
                is_with_ils: i2,
                freq_10khz: f2,
                max_range: m2,
                funny,
                airport_icao: a2,
                rwy: r2,
                name: n2,
            },
        ) => {
            &&& is_with_ils == i2
            &&& freq_10khz == f2
            &&& max_range == m2
            &&& crs_mag == sp_crs_mag(funny)
            &&& crs_true == sp_mod(funny, 360)
            &&& airport_icao@ == a2
            &&& rwy@ == r2
            &&& name@ == n2
        },
        (
            TypeSpecificData::Glideslope {
                freq_10khz,
                max_range,
                loc_crs_true,
                glide_angle,
                airport_icao,
                rwy,
                name,
            },
            TypeDataV::Glideslope {
                freq_10khz: f2,
                max_range: m2,
                funny,
                airport_icao: a2,
                rwy: r2,
                name: n2,
            },
        ) => {
            &&& freq_10khz == f2
            &&& max_range == m2
            &&& loc_crs_true == sp_mod(funny, 1000)
            &&& glide_angle == sp_angle_u16(funny)
            &&& airport_icao@ == a2
            &&& rwy@ == r2
            &&& name@ == n2
        },
        (
            TypeSpecificData::MarkerBeacon { typ, loc_crs_true, airport_icao, rwy, name },
            TypeDataV::MarkerBeacon {
                typ: t2,
                loc_crs_true: l2,
                airport_icao: a2,
                rwy: r2,
                name: n2,
            },
        ) => {
            &&& typ == t2
            &&& loc_crs_true == l2
            &&& airport_icao@ == a2
            &&& rwy@ == r2
            &&& name@ == n2
        },
        (
            TypeSpecificData::Dme {
                display_freq,
                paired_freq_10khz,
                service_volume,
                bias,
                terminal_region,
                name,
            },
            TypeDataV::Dme {
                display_freq: d2,
                paired_freq_10khz: p2,
                service_volume: s2,
                bias: b2,
                terminal_region: t2,
                name: n2,
            },
        ) => {
            &&& display_freq == d2
            &&& paired_freq_10khz == p2
            &&& service_volume == s2
            &&& bias == b2
            &&& terminal_region@ == t2
            &&& name@ == n2
        },
        (
            TypeSpecificData::Fpap {
                channel,
                length_offset,
                final_app_crs_true,
                airport_icao,
                rwy,
                perf,
            },
            TypeDataV::Fpap {
                channel: c2,
                length_offset: l2,
                final_app_crs_true: f2,
                airport_icao: a2,
                rwy: r2,
                perf: p2,
            },
        ) => {
            &&& channel == c2
            &&& length_offset == l2
            &&& final_app_crs_true == f2
            &&& airport_icao@ == a2
            &&& rwy@ == r2
            &&& perf@ == p2
        },
        (
            TypeSpecificData::ThresholdPoint {
                channel,
                thres_cross_height,
                final_app_crs_true,
                glide_path_angle,
                airport_icao,
                rwy,
                ref_path_ident,
            },
            TypeDataV::ThresholdPoint {
                channel: c2,
                thres_cross_height: t2,
                funny,
                airport_icao: a2,
                rwy: r2,
                ref_path_ident: rp2,
            },
        ) => {
            &&& channel == c2
            &&& thres_cross_height == t2
            &&& final_app_crs_true == sp_mod(funny, 1000)
            &&& glide_path_angle == sp_angle_u16(funny)
            &&& airport_icao@ == a2
            &&& rwy@ == r2
            &&& ref_path_ident@ == rp2
        },
        (
            TypeSpecificData::Gls {
                channel,
                final_app_crs_true,
                glide_path_angle,
                airport_icao,
                rwy,
                ref_path_ident,
            },
            TypeDataV::Gls { channel: c2, funny, airport_icao: a2, rwy: r2, ref_path_ident: rp2 },
        ) => {
            &&& channel == c2
            &&& final_app_crs_true == sp_mod(funny, 1000)
            &&& glide_path_angle == sp_angle_u16(funny)
            &&& airport_icao@ == a2
            &&& rwy@ == r2
            &&& ref_path_ident@ == rp2
        },
        _ => false,
    }
}

/// Whether a parsed navaid carries exactly the decoded content of a row.
pub open spec fn navaid_matches(n: Navaid, v: NavRowV) -> bool {
    &&& n.lat == v.lat
    &&& n.lon == v.lon
    &&& n.elevation == v.elevation
    &&& n.icao_region@ == v.icao_region
    &&& n.ident@ == v.ident
    &&& td_matches(n.type_data, v.type_data)
}

/// The shared lead of every navaid row.
#[derive(Debug, Clone, Copy)]
pub struct RowLead {
    pub row_code: u8,
    pub lat: Dec,
    pub lon: Dec,
    pub elevation: i32,
}

/// Parse the shared lead: row code, latitude, longitude, elevation.
pub fn parse_row_lead<'a>(sc: &mut Scanner<'a>) -> (r: Result<RowLead, RowError>)
    requires
        old(sc).wf(),
    ensures
        final(sc).wf(),
        final(sc).src() == old(sc).src(),
        old(sc).at() == 0 ==> {
            &&& (r is Ok <==> sp_lead(old(sc).src()) is Some)
            &&& (r matches Ok(l) ==> sp_lead(old(sc).src()) == Some(
                (l.row_code as int, l.lat, l.lon, l.elevation as int, final(sc).at()),
            ))
        },
{
    let row_code = sc.col_u8_0()?;
    let lat = sc.col_dec()?;
    let lon = sc.col_dec()?;
    let elevation = sc.col_i32()?;
    Ok(RowLead { row_code, lat, lon, elevation })
}

/// The airport-bound tail: ident, airport, region, runway, name.
fn tail_arpt<'a>(sc: &mut Scanner<'a>) -> (r: Result<
    (String, String, String, String, String),
    RowError,
>)
    requires
        old(sc).wf(),
    ensures
        final(sc).wf(),
        final(sc).src() == old(sc).src(),
        r is Ok <==> sp_tail_arpt(old(sc).src(), old(sc).at()) is Some,
        r matches Ok(t) ==> sp_tail_arpt(old(sc).src(), old(sc).at()) == Some(
            (t.0@, t.1@, t.2@, t.3@, t.4@),
        ),
{
    let ident = sc.token_max(5)?;
    let airport = sc.token_max(4)?;
    let icao = sc.token_max(2)?;
    let rwy = sc.token_max(3)?;
    let name = sc.rest_after_spaces()?;
    Ok((ident, airport, icao, rwy, name))
}

/// The terminal-region tail: ident, terminal region, region, name.
fn tail_term<'a>(sc: &mut Scanner<'a>) -> (r: Result<(String, String, String, String), RowError>)
    requires
        old(sc).wf(),
    ensures
        final(sc).wf(),
        final(sc).src() == old(sc).src(),
        r is Ok <==> sp_tail_term(old(sc).src(), old(sc).at()) is Some,
        r matches Ok(t) ==> sp_tail_term(old(sc).src(), old(sc).at()) == Some(
            (t.0@, t.1@, t.2@, t.3@),
        ),
{
    let ident = sc.token_max(5)?;
    let terminal = sc.token_max(4)?;
    let icao = sc.token_max(2)?;
    let name = sc.rest_after_spaces()?;
    Ok((ident, terminal, icao, name))
}

/// The VOR tail: ident, the literal ` ENRT`, region, name.
fn tail_vor<'a>(sc: &mut Scanner<'a>) -> (r: Result<(String, String, String), RowError>)
    requires
        old(sc).wf(),
    ensures
        final(sc).wf(),
        final(sc).src() == old(sc).src(),
        r is Ok <==> sp_tail_vor(old(sc).src(), old(sc).at()) is Some,
        r matches Ok(t) ==> sp_tail_vor(old(sc).src(), old(sc).at()) == Some((t.0@, t.1@, t.2@)),
{
    proof {
        reveal_strlit(" ENRT");
    }
    let ident = sc.token_max(5)?;
    sc.expect_lit(" ENRT")?;
    let icao = sc.token_max(2)?;
    let name = sc.rest_after_spaces()?;
    Ok((ident, icao, name))
}

/// The marker tail: ident, airport, region, runway, short name, end of line.
fn tail_mkr<'a>(sc: &mut Scanner<'a>) -> (r: Result<
    (String, String, String, String, String),
    RowError,
>)
    requires
        old(sc).wf(),
    ensures
        final(sc).wf(),
        final(sc).src() == old(sc).src(),
        r is Ok <==> sp_tail_mkr(old(sc).src(), old(sc).at()) is Some,
        r matches Ok(t) ==> sp_tail_mkr(old(sc).src(), old(sc).at()) == Some(
            (t.0@, t.1@, t.2@, t.3@, t.4@),
        ),
{
    let ident = sc.token_max(5)?;
    let airport = sc.token_max(4)?;
    let icao = sc.token_max(2)?;
    let rwy = sc.token_max(3)?;
    let name = sc.token_max(2)?;
    if !sc.at_end() {
        return Err(RowError { pos: 0 });
    }
    Ok((ident, airport, icao, rwy, name))
}

/// Parse an NDB row after its lead.
fn parse_ndb<'a>(sc: &mut Scanner<'a>, lead: RowLead) -> (r: Result<Navaid, RowError>)
    requires
        old(sc).wf(),
        lead.row_code == 2,
    ensures
        final(sc).wf(),
        r is Ok <==> sp_var_row(old(sc).src(), old(sc).at(), lead.row_code as int) is Some,
        r matches Ok(n) ==> (sp_var_row(old(sc).src(), old(sc).at(), lead.row_code as int)
            matches Some((td, ident, icao)) && n.lat == lead.lat && n.lon == lead.lon
            && n.elevation == lead.elevation && n.ident@ == ident && n.icao_region@ == icao
            && td_matches(n.type_data, td)),
{
    let freq_khz = sc.col_u16()?;
    let class = sc.col_u8()?;
    let flags = sc.col_dec()?;
    let (ident, terminal_region, icao_region, name) = tail_term(sc)?;
    let class = if class == 15 {
        NdbClass::Locator
    } else if class == 25 {
        NdbClass::LowPower
    } else if class == 50 {
        NdbClass::Normal
    } else if class == 75 {
        NdbClass::HighPower
    } else {
        NdbClass::Unrecognized(class)
    };
    Ok(
        Navaid {
            lat: lead.lat,
            lon: lead.lon,
            elevation: lead.elevation,
            icao_region,
            ident,
            type_data: TypeSpecificData::Ndb { freq_khz, class, flags, terminal_region, name },
        },
    )
}

/// Parse a VOR row after its lead.
fn parse_vor<'a>(sc: &mut Scanner<'a>, lead: RowLead) -> (r: Result<Navaid, RowError>)
    requires
        old(sc).wf(),
        lead.row_code == 3,
    ensures
        final(sc).wf(),
        r is Ok <==> sp_var_row(old(sc).src(), old(sc).at(), lead.row_code as int) is Some,
        r matches Ok(n) ==> (sp_var_row(old(sc).src(), old(sc).at(), lead.row_code as int)
            matches Some((td, ident, icao)) && n.lat == lead.lat && n.lon == lead.lon
            && n.elevation == lead.elevation && n.ident@ == ident && n.icao_region@ == icao
            && td_matches(n.type_data, td)),
{
    let freq_10khz = sc.col_u32()?;
    let class = sc.col_u8()?;
    let slaved_variation = sc.col_dec()?;
    let (ident, icao_region, name) = tail_vor(sc)?;
    let class = if class == 25 {
        VorClass::Terminal
    } else if class == 40 {
        VorClass::LowAlt
    } else if class == 130 {
        VorClass::HighAlt
    } else if class == 125 {
        VorClass::Unspecified
    } else {
        VorClass::Unrecognized(class)
    };
    Ok(
        Navaid {
            lat: lead.lat,
            lon: lead.lon,
            elevation: lead.elevation,
            icao_region,
            ident,
            type_data: TypeSpecificData::Vor { freq_10khz, class, slaved_variation, name },
        },
    )
}

/// Parse a localizer row after its lead.
fn parse_loc<'a>(sc: &mut Scanner<'a>, lead: RowLead) -> (r: Result<Navaid, RowError>)
    requires
        old(sc).wf(),
        lead.row_code == 4 || lead.row_code == 5,
    ensures
        final(sc).wf(),
        r is Ok <==> sp_var_row(old(sc).src(), old(sc).at(), lead.row_code as int) is Some,
        r matches Ok(n) ==> (sp_var_row(old(sc).src(), old(sc).at(), lead.row_code as int)
            matches Some((td, ident, icao)) && n.lat == lead.lat && n.lon == lead.lon
            && n.elevation == lead.elevation && n.ident@ == ident && n.icao_region@ == icao
            && td_matches(n.type_data, td)),
{
    let is_with_ils = lead.row_code == 4;
    let freq_10khz = sc.col_u32()?;
    let max_range = sc.col_u16()?;
    let funny = sc.col_dec_tok()?;
    let (ident, airport_icao, icao_region, rwy, name) = tail_arpt(sc)?;
    let (q, crs_true) = funny.mod_div(360);
    let crs_mag = Dec { neg: funny.neg, mantissa: q, scale: 0 };
    Ok(
        Navaid {
            lat: lead.lat,
            lon: lead.lon,
            elevation: lead.elevation,
            icao_region,
            ident,
            type_data: TypeSpecificData::Localizer {
                is_with_ils,
                freq_10khz,
                max_range,
                crs_mag,
                crs_true,
                airport_icao,
                rwy,
                name,
            },
        },
    )
}

/// The truncated division of a packed column by 1000, clamped into `u16`
/// with `u16::MAX` as the failure mark.
fn angle_of(funny: Dec, q: u64) -> (r: u16)
    requires
        q == sp_quot(funny, 1000),
    ensures
        r == sp_angle_u16(funny),
{
    if q == 0 {
        0
    } else if funny.neg {
        u16::MAX
    } else if q > u16::MAX as u64 {
        u16::MAX
    } else {
        q as u16
    }
}

/// Parse a glideslope row after its lead.
fn parse_gs<'a>(sc: &mut Scanner<'a>, lead: RowLead) -> (r: Result<Navaid, RowError>)
    requires
        old(sc).wf(),
        lead.row_code == 6,
    ensures
        final(sc).wf(),
        r is Ok <==> sp_var_row(old(sc).src(), old(sc).at(), lead.row_code as int) is Some,
        r matches Ok(n) ==> (sp_var_row(old(sc).src(), old(sc).at(), lead.row_code as int)
            matches Some((td, ident, icao)) && n.lat == lead.lat && n.lon == lead.lon
            && n.elevation == lead.elevation && n.ident@ == ident && n.icao_region@ == icao
            && td_matches(n.type_data, td)),
{
    let freq_10khz = sc.col_u32()?;
    let max_range = sc.col_u16()?;
    let funny = sc.col_dec_tok()?;
    let (ident, airport_icao, icao_region, rwy, name) = tail_arpt(sc)?;
    let (q, loc_crs_true) = funny.mod_div(1000);
    let glide_angle = angle_of(funny, q);
    Ok(
        Navaid {
            lat: lead.lat,
            lon: lead.lon,
            elevation: lead.elevation,
            icao_region,
            ident,
            type_data: TypeSpecificData::Glideslope {
                freq_10khz,
                max_range,
                loc_crs_true,
                glide_angle,
                airport_icao,
                rwy,
                name,
            },
        },
    )
}

/// Parse a marker-beacon row after its lead.
fn parse_mkr<'a>(sc: &mut Scanner<'a>, lead: RowLead) -> (r: Result<Navaid, RowError>)
    requires
        old(sc).wf(),
        lead.row_code == 7 || lead.row_code == 8 || lead.row_code == 9,
    ensures
        final(sc).wf(),
        r is Ok <==> sp_var_row(old(sc).src(), old(sc).at(), lead.row_code as int) is Some,
        r matches Ok(n) ==> (sp_var_row(old(sc).src(), old(sc).at(), lead.row_code as int)
            matches Some((td, ident, icao)) && n.lat == lead.lat && n.lon == lead.lon
            && n.elevation == lead.elevation && n.ident@ == ident && n.icao_region@ == icao
            && td_matches(n.type_data, td)),
{
    let typ = if lead.row_code == 7 {
        MarkerType::Outer
    } else if lead.row_code == 8 {
        MarkerType::Middle
    } else {
        MarkerType::Inner
    };
    sc.col_digits_skip()?;
    sc.col_digits_skip()?;
    let loc_crs_true = sc.col_dec()?;
    let (ident, airport_icao, icao_region, rwy, name) = tail_mkr(sc)?;
    Ok(
        Navaid {
            lat: lead.lat,
            lon: lead.lon,
            elevation: lead.elevation,
            icao_region,
            ident,
            type_data: TypeSpecificData::MarkerBeacon {
                typ,
                loc_crs_true,
                airport_icao,
                rwy,
                name,
            },
        },
    )
}

/// Parse a DME row after its lead.
fn parse_dme<'a>(sc: &mut Scanner<'a>, lead: RowLead) -> (r: Result<Navaid, RowError>)
    requires
        old(sc).wf(),
        lead.row_code == 12 || lead.row_code == 13,
    ensures
        final(sc).wf(),
        r is Ok <==> sp_var_row(old(sc).src(), old(sc).at(), lead.row_code as int) is Some,
        r matches Ok(n) ==> (sp_var_row(old(sc).src(), old(sc).at(), lead.row_code as int)
            matches Some((td, ident, icao)) && n.lat == lead.lat && n.lon == lead.lon
            && n.elevation == lead.elevation && n.ident@ == ident && n.icao_region@ == icao
            && td_matches(n.type_data, td)),
{
    let display_freq = lead.row_code == 13;
    let paired_freq_10khz = sc.col_u32()?;
    let service_volume = sc.col_u16()?;
    let bias = sc.col_dec()?;
    let (ident, terminal_region, icao_region, name) = tail_term(sc)?;
    Ok(
        Navaid {
            lat: lead.lat,
            lon: lead.lon,
            elevation: lead.elevation,
            icao_region,
            ident,
            type_data: TypeSpecificData::Dme {
                display_freq,
                paired_freq_10khz,
                service_volume,
                bias,
                terminal_region,
                name,
            },
        },
    )
}

/// Parse an FPAP row after its lead.
fn parse_fpap<'a>(sc: &mut Scanner<'a>, lead: RowLead) -> (r: Result<Navaid, RowError>)
    requires
        old(sc).wf(),
        lead.row_code == 14,
    ensures
        final(sc).wf(),
        r is Ok <==> sp_var_row(old(sc).src(), old(sc).at(), lead.row_code as int) is Some,
        r matches Ok(n) ==> (sp_var_row(old(sc).src(), old(sc).at(), lead.row_code as int)
            matches Some((td, ident, icao)) && n.lat == lead.lat && n.lon == lead.lon
            && n.elevation == lead.elevation && n.ident@ == ident && n.icao_region@ == icao
            && td_matches(n.type_data, td)),
{
    let channel = sc.col_u32()?;
    let length_offset = sc.col_dec()?;
    let final_app_crs_true = sc.col_dec()?;
    let (ident, airport_icao, icao_region, rwy, perf) = tail_arpt(sc)?;
    Ok(
        Navaid {
            lat: lead.lat,
            lon: lead.lon,
            elevation: lead.elevation,
            icao_region,
            ident,
            type_data: TypeSpecificData::Fpap {
                channel,
                length_offset,
                final_app_crs_true,
                airport_icao,
                rwy,
                perf,
            },
        },
    )
}

/// Parse a GLS row after its lead.
fn parse_gls<'a>(sc: &mut Scanner<'a>, lead: RowLead) -> (r: Result<Navaid, RowError>)
    requires
        old(sc).wf(),
        lead.row_code == 15,
    ensures
        final(sc).wf(),
        r is Ok <==> sp_var_row(old(sc).src(), old(sc).at(), lead.row_code as int) is Some,
        r matches Ok(n) ==> (sp_var_row(old(sc).src(), old(sc).at(), lead.row_code as int)
            matches Some((td, ident, icao)) && n.lat == lead.lat && n.lon == lead.lon
            && n.elevation == lead.elevation && n.ident@ == ident && n.icao_region@ == icao
            && td_matches(n.type_data, td)),
{
    let channel = sc.col_u32()?;
    sc.col_digits_skip()?;
    let funny = sc.col_dec_tok()?;
    let (ident, airport_icao, icao_region, rwy, ref_path_ident) = tail_arpt(sc)?;
    let (q, final_app_crs_true) = funny.mod_div(1000);
    let glide_path_angle = angle_of(funny, q);
    Ok(
        Navaid {
            lat: lead.lat,
            lon: lead.lon,
            elevation: lead.elevation,
            icao_region,
            ident,
            type_data: TypeSpecificData::Gls {
                channel,
                final_app_crs_true,
                glide_path_angle,
                airport_icao,
                rwy,
                ref_path_ident,
            },
        },
    )
}

/// Parse a landing-threshold-point row after its lead.
fn parse_threshold<'a>(sc: &mut Scanner<'a>, lead: RowLead) -> (r: Result<Navaid, RowError>)
    requires
        old(sc).wf(),
        lead.row_code == 16,
    ensures
        final(sc).wf(),
        r is Ok <==> sp_var_row(old(sc).src(), old(sc).at(), lead.row_code as int) is Some,
        r matches Ok(n) ==> (sp_var_row(old(sc).src(), old(sc).at(), lead.row_code as int)
            matches Some((td, ident, icao)) && n.lat == lead.lat && n.lon == lead.lon
            && n.elevation == lead.elevation && n.ident@ == ident && n.icao_region@ == icao
            && td_matches(n.type_data, td)),
{
    let channel = sc.col_u32()?;
    let thres_cross_height = sc.col_dec()?;
    let funny = sc.col_dec_tok()?;
    let (ident, airport_icao, icao_region, rwy, ref_path_ident) = tail_arpt(sc)?;
    let (q, final_app_crs_true) = funny.mod_div(1000);
    let glide_path_angle = angle_of(funny, q);
    Ok(
        Navaid {
            lat: lead.lat,
            lon: lead.lon,
            elevation: lead.elevation,
            icao_region,
            ident,
            type_data: TypeSpecificData::ThresholdPoint {
                channel,
                thres_cross_height,
                final_app_crs_true,
                glide_path_angle,
                airport_icao,
                rwy,
                ref_path_ident,
            },
        },
    )
}

/// Parse one navaid row: the lead's row code picks the shape.
pub fn parse_row(line: &str) -> (r: Result<Navaid, RowError>)
    ensures
        r is Ok <==> sp_nav_row(line@) is Some,
        r matches Ok(n) ==> (sp_nav_row(line@) matches Some(v) && navaid_matches(n, v)),
{
    proof {
        reveal_strlit(" ENRT");
    }
    let mut sc = Scanner::new(line);
    let lead = parse_row_lead(&mut sc)?;
    if lead.row_code == 2 {
        parse_ndb(&mut sc, lead)
    } else if lead.row_code == 3 {
        parse_vor(&mut sc, lead)
    } else if lead.row_code == 4 || lead.row_code == 5 {
        parse_loc(&mut sc, lead)
    } else if lead.row_code == 6 {
        parse_gs(&mut sc, lead)
    } else if lead.row_code == 7 || lead.row_code == 8 || lead.row_code == 9 {
        parse_mkr(&mut sc, lead)
    } else if lead.row_code == 12 || lead.row_code == 13 {
        parse_dme(&mut sc, lead)
    } else if lead.row_code == 14 {
        parse_fpap(&mut sc, lead)
    } else if lead.row_code == 15 {
        parse_gls(&mut sc, lead)
    } else if lead.row_code == 16 {
        parse_threshold(&mut sc, lead)
    } else {
        Err(RowError { pos: 0 })
    }
}

/// One parsed navaid file: its header and its rows.
#[derive(Debug)]
pub struct Navaids {
    pub header: Header,
    pub entries: Vec<Navaid>,
}

/// Whether a line fits the navaid-row grammar.
pub open spec fn nav_row_ok(l: Seq<char>) -> bool {
    sp_nav_row(l) is Some
}

pub open spec fn nav_ok_fn() -> spec_fn(Seq<char>) -> bool {
    |l: Seq<char>| nav_row_ok(l)
}

/// The versions the navaid parser accepts.
pub open spec fn sp_nav_version_ok(v: DataVersion) -> bool {
    v == DataVersion::XP1150 || v == DataVersion::XP1200
}

/// Parse a whole navaid file: preamble, rows, sentinel.
pub fn parse_file(text: &str) -> (r: Result<Navaids, ParseError>)
    ensures
        ({
            let ls = spec_lines(text@);
            let shape = sp_shape(ls, 2, nav_ok_fn());
            let hdr = sp_header_line(ls[1], FileKind::Nav);
            &&& (r is Ok <==> ls.len() >= 2 && bom_ok(ls[0]) && (hdr matches Some(h)
                && sp_nav_version_ok(h.version)) && shape matches FileShape::Rows(_))
            &&& (r matches Ok(fx) ==> hdr == Some(fx.header@) && sp_nav_version_ok(
                fx.header@.version,
            ) && (shape matches FileShape::Rows(idx) && fx.entries@.len() == idx.len() && (forall|
                k: int,
            |
                0 <= k < idx.len() ==> (sp_nav_row(ls[#[trigger] idx[k]]) matches Some(v)
                    && navaid_matches(fx.entries@[k], v)))))
            &&& (ls.len() == 0 ==> r matches Err(ParseError::MissingLine))
            &&& (ls.len() >= 1 && !bom_ok(ls[0]) ==> (r matches Err(ParseError::BadBOM { bom })
                && bom@ == ls[0]))
            &&& (ls.len() == 1 && bom_ok(ls[0]) ==> r matches Err(ParseError::MissingLine))
            &&& (ls.len() >= 2 && bom_ok(ls[0]) && hdr is None ==> (r matches Err(
                ParseError::Parse { stage, .. },
            ) && stage@ == "header"@))
            &&& (ls.len() >= 2 && bom_ok(ls[0]) && hdr is Some && !sp_nav_version_ok(
                hdr.unwrap().version,
            ) ==> (r matches Err(ParseError::UnsupportedVersion { version }) && version
                == hdr.unwrap().version))
            &&& (ls.len() >= 2 && bom_ok(ls[0]) && hdr is Some && sp_nav_version_ok(
                hdr.unwrap().version,
            ) && (shape matches FileShape::NoSentinel) ==> r matches Err(ParseError::MissingLine))
            &&& (ls.len() >= 2 && bom_ok(ls[0]) && hdr is Some && sp_nav_version_ok(
                hdr.unwrap().version,
            ) && (shape matches FileShape::BadRow(_)) ==> (r matches Err(
                ParseError::Parse { stage, .. },
            ) && stage@ == "navaid row"@))
        }),
{
    let lines = split_lines(text);
    let ghost ls = spec_lines(text@);
    proof {
        assert(lines@.map_values(|l: String| l@) =~= ls);
    }
    let header = parse_header(&lines, FileKind::Nav)?;
    match header.version {
        DataVersion::XP1150 | DataVersion::XP1200 => {},
        _ => {
            return Err(ParseError::UnsupportedVersion { version: header.version });
        },
    }
    let mut entries: Vec<Navaid> = Vec::new();
    let ghost mut done: Seq<int> = Seq::empty();
    let mut i: usize = 2;
    proof {
        assert(shape_prepend(done, sp_shape(ls, 2, nav_ok_fn())) == sp_shape(ls, 2, nav_ok_fn()));
    }
    while i < lines.len()
        invariant
            2 <= i,
            ls == spec_lines(text@),
            lines@.len() == ls.len(),
            forall|k: int| 0 <= k < ls.len() ==> ls[k] == lines@[k]@,
            ls.len() >= 2 && bom_ok(ls[0]),
            sp_header_line(ls[1], FileKind::Nav) == Some(header@),
            sp_nav_version_ok(header@.version),
            sp_shape(ls, 2, nav_ok_fn()) == shape_prepend(done, sp_shape(ls, i as int, nav_ok_fn())),
            entries@.len() == done.len(),
            forall|k: int|
                0 <= k < done.len() ==> (sp_nav_row(ls[#[trigger] done[k]]) matches Some(v)
                    && navaid_matches(entries@[k], v)),
        decreases lines@.len() - i,
    {
        let line = &lines[i];
        if str_eq(line.as_str(), "99") {
            proof {
                assert(sp_shape(ls, i as int, nav_ok_fn()) == FileShape::Rows(Seq::<int>::empty()));
                assert(done + Seq::<int>::empty() =~= done);
                assert(sp_shape(ls, 2, nav_ok_fn()) == FileShape::Rows(done));
            }
            return Ok(Navaids { header, entries });
        }
        if line.as_str().unicode_len() == 0 {
            i = i + 1;
            continue;
        }
        match parse_row(line.as_str()) {
            Ok(n) => {
                entries.push(n);
                proof {
                    assert(nav_ok_fn()(ls[i as int]));
                    let rest = sp_shape(ls, i as int + 1, nav_ok_fn());
                    if rest is Rows {
                        let ridx = rest->Rows_0;
                        assert((done + seq![i as int]) + ridx =~= done + (seq![i as int] + ridx));
                    }
                    done = done + seq![i as int];
                }
                i = i + 1;
            },
            Err(e) => {
                proof {
                    assert(!nav_ok_fn()(ls[i as int]));
                    assert(sp_shape(ls, i as int, nav_ok_fn()) == FileShape::BadRow(i as int));
                }
                return Err(
                    ParseError::Parse {
                        rendered: String::from_str("the row does not fit the navaid row grammar"),
                        stage: String::from_str("navaid row"),
                        pos: e.pos,
                    },
                );
            },
        }
    }
    Err(ParseError::MissingLine)
}

/// Whether a whole navaid-file text is accepted.
pub open spec fn sp_nav_file_ok(text: Seq<char>) -> bool {
    let ls = spec_lines(text);
    &&& ls.len() >= 2
    &&& bom_ok(ls[0])
    &&& (sp_header_line(ls[1], FileKind::Nav) matches Some(h) && sp_nav_version_ok(h.version))
    &&& sp_shape(ls, 2, nav_ok_fn()) is Rows
}

/// Whether `ns` is exactly the navaid list a navaid-file text decodes to.
pub open spec fn navaids_of(text: Seq<char>, ns: Seq<Navaid>) -> bool {
    let ls = spec_lines(text);
    &&& (sp_shape(ls, 2, nav_ok_fn()) matches FileShape::Rows(idx) && ns.len() == idx.len() && (
    forall|k: int|
        0 <= k < idx.len() ==> (sp_nav_row(ls[#[trigger] idx[k]]) matches Some(v)
            && navaid_matches(ns[k], v))))
}

} // verus!

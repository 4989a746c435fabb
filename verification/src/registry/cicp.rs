//! Coding-independent code point (CICP) lookups (ISO/IEC 23091-2).
//!
//! Colour primaries, transfer characteristics and matrix coefficients appear
//! as numeric code points in `colr` (nclx), `vpcC` and elsewhere. These
//! functions give the short names of the values seen in practice; anything
//! unassigned or reserved has no name.

use vstd::prelude::*;
use crate::util::{push_decimal, push_str, spec_decimal};

verus! {

pub open spec fn spec_primaries_name(code: u16) -> Option<&'static str> {
    match code {
        1 => Some("BT.709"),
        2 => Some("unspecified"),
        4 => Some("BT.470M"),
        5 => Some("BT.470BG / BT.601 625"),
        6 => Some("BT.601 525 / SMPTE 170M"),
        7 => Some("SMPTE 240M"),
        8 => Some("Film (C)"),
        9 => Some("BT.2020"),
        10 => Some("SMPTE ST 428 (XYZ)"),
        11 => Some("SMPTE RP 431-2 (DCI P3)"),
        12 => Some("SMPTE EG 432-1 (Display P3)"),
        22 => Some("EBU Tech 3213-E"),
        _ => None,
    }
}

/// Short name for a colour-primaries code point.
pub fn primaries_name(code: u16) -> (r: Option<&'static str>)
    ensures
        r == spec_primaries_name(code),
{
    match code {
        1 => Some("BT.709"),
        2 => Some("unspecified"),
        4 => Some("BT.470M"),
        5 => Some("BT.470BG / BT.601 625"),
        6 => Some("BT.601 525 / SMPTE 170M"),
        7 => Some("SMPTE 240M"),
        8 => Some("Film (C)"),
        9 => Some("BT.2020"),
        10 => Some("SMPTE ST 428 (XYZ)"),
        11 => Some("SMPTE RP 431-2 (DCI P3)"),
        12 => Some("SMPTE EG 432-1 (Display P3)"),
        22 => Some("EBU Tech 3213-E"),
        _ => None,
    }
}

pub open spec fn spec_transfer_name(code: u16) -> Option<&'static str> {
    match code {
        1 => Some("BT.709"),
        2 => Some("unspecified"),
        4 => Some("BT.470M (gamma 2.2)"),
        5 => Some("BT.470BG (gamma 2.8)"),
        6 => Some("BT.601 / SMPTE 170M"),
        7 => Some("SMPTE 240M"),
        8 => Some("linear"),
        9 => Some("log 100:1"),
        10 => Some("log 316:1"),
        11 => Some("IEC 61966-2-4 (xvYCC)"),
        12 => Some("BT.1361"),
        13 => Some("sRGB / sYCC"),
        14 => Some("BT.2020 10-bit"),
        15 => Some("BT.2020 12-bit"),
        16 => Some("PQ / SMPTE ST 2084"),
        17 => Some("SMPTE ST 428 (XYZ)"),
        18 => Some("HLG / ARIB STD-B67"),
        _ => None,
    }
}

/// Short name for a transfer-characteristics code point (16 = PQ and 18 = HLG mark HDR).
pub fn transfer_name(code: u16) -> (r: Option<&'static str>)
    ensures
        r == spec_transfer_name(code),
{
    match code {
        1 => Some("BT.709"),
        2 => Some("unspecified"),
        4 => Some("BT.470M (gamma 2.2)"),
        5 => Some("BT.470BG (gamma 2.8)"),
        6 => Some("BT.601 / SMPTE 170M"),
        7 => Some("SMPTE 240M"),
        8 => Some("linear"),
        9 => Some("log 100:1"),
        10 => Some("log 316:1"),
        11 => Some("IEC 61966-2-4 (xvYCC)"),
        12 => Some("BT.1361"),
        13 => Some("sRGB / sYCC"),
        14 => Some("BT.2020 10-bit"),
        15 => Some("BT.2020 12-bit"),
        16 => Some("PQ / SMPTE ST 2084"),
        17 => Some("SMPTE ST 428 (XYZ)"),
        18 => Some("HLG / ARIB STD-B67"),
        _ => None,
    }
}

pub open spec fn spec_matrix_name(code: u16) -> Option<&'static str> {
    match code {
        0 => Some("Identity (RGB/GBR)"),
        1 => Some("BT.709"),
        2 => Some("unspecified"),
        4 => Some("FCC 73.682"),
        5 => Some("BT.470BG / BT.601 625"),
        6 => Some("BT.601 525 / SMPTE 170M"),
        7 => Some("SMPTE 240M"),
        8 => Some("YCgCo"),
        9 => Some("BT.2020 non-constant luminance"),
        10 => Some("BT.2020 constant luminance"),
        11 => Some("SMPTE ST 2085 (YDzDx)"),
        12 => Some("Chromaticity-derived NCL"),
        13 => Some("Chromaticity-derived CL"),
        14 => Some("ICtCp"),
        _ => None,
    }
}

/// Short name for a matrix-coefficients code point.
pub fn matrix_name(code: u16) -> (r: Option<&'static str>)
    ensures
        r == spec_matrix_name(code),
{
    match code {
        0 => Some("Identity (RGB/GBR)"),
        1 => Some("BT.709"),
        2 => Some("unspecified"),
        4 => Some("FCC 73.682"),
        5 => Some("BT.470BG / BT.601 625"),
        6 => Some("BT.601 525 / SMPTE 170M"),
        7 => Some("SMPTE 240M"),
        8 => Some("YCgCo"),
        9 => Some("BT.2020 non-constant luminance"),
        10 => Some("BT.2020 constant luminance"),
        11 => Some("SMPTE ST 2085 (YDzDx)"),
        12 => Some("Chromaticity-derived NCL"),
        13 => Some("Chromaticity-derived CL"),
        14 => Some("ICtCp"),
        _ => None,
    }
}

/// `N (Name)` when named, `N` alone otherwise.
pub open spec fn spec_labeled(code: u16, name: Option<Seq<char>>) -> Seq<char> {
    match name {
        Some(n) => spec_decimal(code as nat) + " ("@ + n + ")"@,
        None => spec_decimal(code as nat),
    }
}

/// Formats a code point as `N (Name)` when named, or `N` when unassigned.
pub fn labeled(code: u16, name: Option<&str>) -> (r: String)
    ensures
        r@ == spec_labeled(
            code,
            match name {
                Some(n) => Some(n@),
                None => None,
            },
        ),
{
    let mut s = String::new();
    push_decimal(&mut s, code as u64);
    match name {
        Some(n) => {
            push_str(&mut s, " (");
            push_str(&mut s, n);
            push_str(&mut s, ")");
        },
        None => {},
    }
    proof {
        assert(s@ =~= spec_labeled(
            code,
            match name {
                Some(n) => Some(n@),
                None => None,
            },
        ));
    }
    s
}

} // verus!

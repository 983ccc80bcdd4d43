//! The fixed column schema of the standard meteorological feed: fourteen
//! recognized observation fields, in canonical order, following the decoded
//! timestamp.

use vstd::prelude::*;
use vstd::string::StringSliceAdditionalSpecFns;

verus! {

/// Number of recognized observation fields.
pub const FIELD_COUNT: usize = 14;

/// The canonical name of recognized field `f`, as feed bytes: wind direction,
/// wind speed, gust, wave height, dominant and average wave period, mean wave
/// direction, pressure, air, water and dewpoint temperature, visibility,
/// pressure tendency, tide.
pub open spec fn field_name(f: int) -> Seq<u8> {
    if f == 0 {
        "WDIR".spec_bytes()
    } else if f == 1 {
        "WSPD".spec_bytes()
    } else if f == 2 {
        "GST".spec_bytes()
    } else if f == 3 {
        "WVHT".spec_bytes()
    } else if f == 4 {
        "DPD".spec_bytes()
    } else if f == 5 {
        "APD".spec_bytes()
    } else if f == 6 {
        "MWD".spec_bytes()
    } else if f == 7 {
        "PRES".spec_bytes()
    } else if f == 8 {
        "ATMP".spec_bytes()
    } else if f == 9 {
        "WTMP".spec_bytes()
    } else if f == 10 {
        "DEWP".spec_bytes()
    } else if f == 11 {
        "VIS".spec_bytes()
    } else if f == 12 {
        "PTDY".spec_bytes()
    } else {
        "TIDE".spec_bytes()
    }
}

/// The canonical name of field `f`, as bytes to compare against header tokens.
pub fn field_name_bytes(f: usize) -> (r: &'static [u8])
    requires
        f < FIELD_COUNT,
    ensures
        r@ == field_name(f as int),
{
    if f == 0 {
        "WDIR".as_bytes()
    } else if f == 1 {
        "WSPD".as_bytes()
    } else if f == 2 {
        "GST".as_bytes()
    } else if f == 3 {
        "WVHT".as_bytes()
    } else if f == 4 {
        "DPD".as_bytes()
    } else if f == 5 {
        "APD".as_bytes()
    } else if f == 6 {
        "MWD".as_bytes()
    } else if f == 7 {
        "PRES".as_bytes()
    } else if f == 8 {
        "ATMP".as_bytes()
    } else if f == 9 {
        "WTMP".as_bytes()
    } else if f == 10 {
        "DEWP".as_bytes()
    } else if f == 11 {
        "VIS".as_bytes()
    } else if f == 12 {
        "PTDY".as_bytes()
    } else {
        "TIDE".as_bytes()
    }
}

/// The canonical name of field `f`, as text for callers that label columns.
pub fn field_name_label(f: usize) -> (r: &'static str)
    requires
        f < FIELD_COUNT,
    ensures
        r.spec_bytes() == field_name(f as int),
{
    if f == 0 {
        "WDIR"
    } else if f == 1 {
        "WSPD"
    } else if f == 2 {
        "GST"
    } else if f == 3 {
        "WVHT"
    } else if f == 4 {
        "DPD"
    } else if f == 5 {
        "APD"
    } else if f == 6 {
        "MWD"
    } else if f == 7 {
        "PRES"
    } else if f == 8 {
        "ATMP"
    } else if f == 9 {
        "WTMP"
    } else if f == 10 {
        "DEWP"
    } else if f == 11 {
        "VIS"
    } else if f == 12 {
        "PTDY"
    } else {
        "TIDE"
    }
}

} // verus!

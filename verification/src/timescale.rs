//! Timescales at a fixed distance from UTC. The offsets are those in force since 2017-01-01, applied
//! to every instant: there is no leap second table.
use crate::encoding::NS_PER_S;
use vstd::prelude::*;

verus! {

pub const TAI_MINUS_UTC_S: i128 = 37;

pub const GPS_MINUS_UTC_S: i128 = 18;

pub const LEAP_TABLE_AS_OF: &'static str = "2017-01-01";

/// TAI, approximately.
pub fn tai_approx_ns(utc_ns: i128) -> (r: i128)
    requires
        utc_ns + TAI_MINUS_UTC_S * NS_PER_S <= i128::MAX,
    ensures
        r == utc_ns + 37_000_000_000,
{
    utc_ns + TAI_MINUS_UTC_S * NS_PER_S
}

/// GPS time, approximately.
pub fn gps_approx_ns(utc_ns: i128) -> (r: i128)
    requires
        utc_ns + GPS_MINUS_UTC_S * NS_PER_S <= i128::MAX,
    ensures
        r == utc_ns + 18_000_000_000,
{
    utc_ns + GPS_MINUS_UTC_S * NS_PER_S
}

/// TAI runs ahead of GPS time by 19 seconds, at every instant.
pub proof fn law_tai_ahead_of_gps(utc_ns: int)
    ensures
        (utc_ns + TAI_MINUS_UTC_S * NS_PER_S) - (utc_ns + GPS_MINUS_UTC_S * NS_PER_S) == 19 * NS_PER_S,
{
}

} // verus!

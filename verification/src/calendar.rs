//! Calendar text: the calls into `chrono` and `chrono_tz`.
use crate::text;
use vstd::prelude::*;

verus! {

/// The first second that `chrono` can represent: -262143-01-01T00:00:00Z.
pub const MIN_SECS: i64 = -8334601228800;

/// The last second that `chrono` can represent: 262142-12-31T23:59:59Z.
pub const MAX_SECS: i64 = 8210266876799;

/// The first second of the year 0.
pub const YEAR_0_SECS: i64 = -62167219200;

/// The last second of the year 9999.
pub const YEAR_9999_SECS: i64 = 253402300799;

/// The text of an instant at an offset from UTC.
pub uninterp spec fn rfc3339_text(secs: i64, nanos: u32, offset: i32) -> Seq<char>;

/// The instant that an RFC 3339 text names: seconds since the epoch, and nanoseconds on top.
pub uninterp spec fn rfc3339_instant(s: Seq<char>) -> Option<(i64, u32)>;

/// The offset of a time zone from UTC at an instant; `None` for a name that is no zone.
pub uninterp spec fn zone_offset(zone: Seq<char>, secs: i64) -> Option<i32>;

/// `chrono::DateTime::to_rfc3339_opts` with `SecondsFormat::AutoSi` and `Z` for a zero offset, on the
/// instant `secs` and `nanos` after the epoch at the given offset (seconds east of UTC).
///
/// The text is a function of the three numbers. It neither starts nor ends with white space. Where
/// the local year has four digits and the offset is a whole number of minutes,
/// `chrono::DateTime::parse_from_rfc3339` reads the same instant back from it. How the text is laid
/// out is left unsaid.
#[verifier::external_body]
pub(crate) fn format_rfc3339(secs: i64, nanos: u32, offset: i32) -> (r: String)
    requires
        MIN_SECS <= secs <= MAX_SECS,
        nanos < 1_000_000_000,
        -86400 < offset < 86400,
        MIN_SECS <= secs + offset <= MAX_SECS,
    ensures
        r@ == rfc3339_text(secs, nanos, offset),
        r@.len() > 0 && !text::is_white(r@[0]) && !text::is_white(r@.last()),
        YEAR_0_SECS <= secs + offset <= YEAR_9999_SECS && offset % 60 == 0 ==> rfc3339_instant(r@)
            == Some((secs, nanos)),
{
    let zone = chrono::FixedOffset::east_opt(offset).unwrap();
    let at = chrono::TimeZone::timestamp_opt(&zone, secs, nanos).unwrap();
    at.to_rfc3339_opts(chrono::SecondsFormat::AutoSi, true)
}

/// `chrono::DateTime::parse_from_rfc3339`: the instant that a text names, a function of the text
/// alone; `None` where it is refused. Which texts are accepted is left unsaid.
#[verifier::external_body]
pub(crate) fn parse_rfc3339(s: &str) -> (r: Option<(i64, u32)>)
    ensures
        r == rfc3339_instant(s@),
{
    match chrono::DateTime::parse_from_rfc3339(s) {
        Ok(at) => Some((at.timestamp(), at.timestamp_subsec_nanos())),
        Err(_) => None,
    }
}

/// `chrono_tz::Tz::from_str`, and the offset that the zone has from UTC at an instant, in seconds
/// east of it: a function of the two, less than a day either way. Which zones there are, and what
/// their offsets were, is left unsaid.
#[verifier::external_body]
pub(crate) fn offset_in_zone(zone: &str, secs: i64) -> (r: Option<i32>)
    requires
        MIN_SECS <= secs <= MAX_SECS,
    ensures
        r == zone_offset(zone@, secs),
        r matches Some(offset) ==> -86400 < offset < 86400,
{
    match zone.parse::<chrono_tz::Tz>() {
        Ok(tz) => {
            let at = chrono::DateTime::from_timestamp(secs, 0).unwrap().naive_utc();
            let offset = chrono::TimeZone::offset_from_utc_datetime(&tz, &at);
            Some(chrono::Offset::fix(&offset).local_minus_utc())
        },
        Err(_) => None,
    }
}

} // verus!

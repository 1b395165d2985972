//! The reference instant, seen in every encoding and timescale at once.
use crate::calendar;
use crate::clock;
use crate::clock::now_ns;
use crate::encoding;
use crate::encoding::{from_ns_in, Encoding};
use crate::error::{CtclError, CtclErrorModel};
use crate::timescale::{gps_approx_ns, tai_approx_ns};
use vstd::prelude::*;

verus! {

/// An instant in every encoding.
#[derive(Debug, Clone)]
pub struct Encodings {
    pub unix_s: String,
    pub unix_ms: String,
    pub unix_us: String,
    pub unix_ns: String,
    pub rfc3339: String,
}

/// An instant in every timescale.
#[derive(Debug, Clone)]
pub struct Timescales {
    pub utc: String,
    pub posix: String,
    pub tai_approx: String,
    pub gps_approx: String,
}

/// An instant in every encoding and timescale.
#[derive(Debug, Clone)]
pub struct InstantView {
    pub unix_ns: i128,
    pub encodings: Encodings,
    pub timescales: Timescales,
}

#[verifier::ext_equal]
pub struct InstantViewModel {
    pub ns: int,
    pub unix_s: Seq<char>,
    pub unix_ms: Seq<char>,
    pub unix_us: Seq<char>,
    pub unix_ns: Seq<char>,
    pub rfc3339: Seq<char>,
    pub utc: Seq<char>,
    pub posix: Seq<char>,
    pub tai_approx: Seq<char>,
    pub gps_approx: Seq<char>,
}

impl View for InstantView {
    type V = InstantViewModel;

    open spec fn view(&self) -> InstantViewModel {
        InstantViewModel {
            ns: self.unix_ns as int,
            unix_s: self.encodings.unix_s@,
            unix_ms: self.encodings.unix_ms@,
            unix_us: self.encodings.unix_us@,
            unix_ns: self.encodings.unix_ns@,
            rfc3339: self.encodings.rfc3339@,
            utc: self.timescales.utc@,
            posix: self.timescales.posix@,
            tai_approx: self.timescales.tai_approx@,
            gps_approx: self.timescales.gps_approx@,
        }
    }
}

/// An instant counted in seconds.
pub open spec fn seconds_text(ns: int) -> Seq<char> {
    encoding::unit_text(ns, 1_000_000_000, 9)
}

/// The view of an instant; an error where its calendar text cannot be written.
pub open spec fn view_of(ns: int) -> Result<InstantViewModel, CtclErrorModel> {
    match encoding::rfc3339_of(ns, None) {
        Err(e) => Err(e),
        Ok(iso) => Ok(
            InstantViewModel {
                ns,
                unix_s: seconds_text(ns),
                unix_ms: encoding::unit_text(ns, 1_000_000, 6),
                unix_us: encoding::unit_text(ns, 1_000, 3),
                unix_ns: encoding::unit_text(ns, 1, 0),
                rfc3339: iso,
                utc: iso,
                posix: seconds_text(ns),
                tai_approx: seconds_text(ns + 37_000_000_000),
                gps_approx: seconds_text(ns + 18_000_000_000),
            },
        ),
    }
}

/// An instant too late for a timescale's offset has no calendar text either.
proof fn lemma_late_instant_has_no_text(ns: i128)
    requires
        ns + 37_000_000_000 > i128::MAX,
    ensures
        encoding::rfc3339_of(ns as int, None) is Err,
{
}

/// The text of an instant counted in an encoding's unit.
fn unit_text_of(ns: i128, encoding: Encoding) -> (r: String)
    requires
        encoding != Encoding::Rfc3339,
    ensures
        r@ == encoding::unit_text(ns as int, encoding.unit()->0, encoding.digits()->0),
{
    match from_ns_in(ns, encoding, None) {
        Ok(s) => s,
        Err(_) => String::new(),
    }
}

/// The view of an instant.
pub fn instant_view(ns: i128) -> (r: Result<InstantView, CtclError>)
    ensures
        (match r {
            Ok(v) => view_of(ns as int) == Ok::<InstantViewModel, CtclErrorModel>(v@),
            Err(e) => view_of(ns as int) == Err::<InstantViewModel, CtclErrorModel>(e@),
        }),
{
    let iso: String = match from_ns_in(ns, Encoding::Rfc3339, None) {
        Ok(s) => s,
        Err(e) => {
            return Err(e);
        },
    };
    proof {
        if ns + 37_000_000_000 > i128::MAX {
            lemma_late_instant_has_no_text(ns);
        }
    }
    Ok(
        InstantView {
            unix_ns: ns,
            encodings: Encodings {
                unix_s: unit_text_of(ns, Encoding::UnixS),
                unix_ms: unit_text_of(ns, Encoding::UnixMs),
                unix_us: unit_text_of(ns, Encoding::UnixUs),
                unix_ns: unit_text_of(ns, Encoding::UnixNs),
                rfc3339: iso.clone(),
            },
            timescales: Timescales {
                utc: iso,
                posix: unit_text_of(ns, Encoding::UnixS),
                tai_approx: unit_text_of(tai_approx_ns(ns), Encoding::UnixS),
                gps_approx: unit_text_of(gps_approx_ns(ns), Encoding::UnixS),
            },
        },
    )
}

/// `ns` without what is finer than a millisecond.
pub open spec fn to_milliseconds(ns: int) -> int {
    if ns >= 0 {
        ns / 1_000_000 * 1_000_000
    } else {
        -((-ns) / 1_000_000 * 1_000_000)
    }
}

/// The view of the millisecond that a clock reading lies in: clocks are rarely finer, and the digits
/// behind it would claim a precision that is not there.
pub fn now_view_at(now: i128) -> (r: Result<InstantView, CtclError>)
    requires
        now > i128::MIN,
    ensures
        (match r {
            Ok(v) => view_of(to_milliseconds(now as int)) == Ok::<InstantViewModel, CtclErrorModel>(
                v@,
            ),
            Err(e) => view_of(to_milliseconds(now as int)) == Err::<
                InstantViewModel,
                CtclErrorModel,
            >(e@),
        }),
{
    let ns: i128 = if now >= 0 {
        now / 1_000_000 * 1_000_000
    } else {
        -((-now) / 1_000_000 * 1_000_000)
    };
    instant_view(ns)
}

/// The view of the millisecond that the device's clock shows.
pub fn now_view() -> (r: Result<InstantView, CtclError>)
    ensures
        exists|now: int|
            -(clock::MAX_DURATION_NS as int) <= now <= clock::MAX_DURATION_NS && (match r {
                Ok(v) => #[trigger] view_of(to_milliseconds(now)) == Ok::<
                    InstantViewModel,
                    CtclErrorModel,
                >(v@),
                Err(e) => view_of(to_milliseconds(now)) == Err::<InstantViewModel, CtclErrorModel>(e@),
            }),
{
    let now: i128 = now_ns();
    now_view_at(now)
}

/// The encodings and timescales of a view agree: seconds are POSIX time, and the RFC 3339 text is UTC.
pub proof fn law_view_agrees(ns: int)
    ensures
        view_of(ns) matches Ok(v) ==> v.ns == ns && v.posix == v.unix_s && v.utc == v.rfc3339,
{
}

/// Every count in the view of an instant reads back as that instant.
pub proof fn law_view_reads_back(ns: int)
    requires
        encoding::in_i128(ns),
    ensures
        view_of(ns) matches Ok(v) ==> {
            &&& encoding::instant_in(v.unix_s, Encoding::UnixS) == Ok::<int, CtclErrorModel>(ns)
            &&& encoding::instant_in(v.unix_ms, Encoding::UnixMs) == Ok::<int, CtclErrorModel>(ns)
            &&& encoding::instant_in(v.unix_us, Encoding::UnixUs) == Ok::<int, CtclErrorModel>(ns)
            &&& encoding::instant_in(v.unix_ns, Encoding::UnixNs) == Ok::<int, CtclErrorModel>(ns)
        },
{
    encoding::law_unix_round_trip(ns, Encoding::UnixS, None);
    encoding::law_unix_round_trip(ns, Encoding::UnixMs, None);
    encoding::law_unix_round_trip(ns, Encoding::UnixUs, None);
    encoding::law_unix_round_trip(ns, Encoding::UnixNs, None);
}

/// A view shows the instant in UTC, and TAI and GPS time ahead of it by 37 and 18 seconds. There is one
/// if and only if the instant has a calendar text.
pub proof fn law_view_shows_the_timescales(ns: int)
    requires
        encoding::in_i128(ns),
    ensures
        view_of(ns) is Ok <==> -8334601228800 <= ns / 1_000_000_000 <= 8210266876799,
        view_of(ns) matches Ok(v) ==> {
            &&& v.rfc3339 == calendar::rfc3339_text(
                (ns / 1_000_000_000) as i64,
                (ns % 1_000_000_000) as u32,
                0,
            )
            &&& encoding::instant_in(v.posix, Encoding::UnixS) == Ok::<int, CtclErrorModel>(ns)
            &&& encoding::instant_in(v.tai_approx, Encoding::UnixS) == Ok::<int, CtclErrorModel>(
                ns + 37_000_000_000,
            )
            &&& encoding::instant_in(v.gps_approx, Encoding::UnixS) == Ok::<int, CtclErrorModel>(
                ns + 18_000_000_000,
            )
        },
{
    encoding::law_text_is_at_the_offset_of_the_zone(ns, Seq::empty());
    if view_of(ns) is Ok {
        encoding::law_unix_round_trip(ns, Encoding::UnixS, None);
        encoding::law_unix_round_trip(ns + 37_000_000_000, Encoding::UnixS, None);
        encoding::law_unix_round_trip(ns + 18_000_000_000, Encoding::UnixS, None);
    }
}

/// The present is shown to the millisecond: the clock's reading without what is finer, toward the
/// epoch.
pub proof fn law_present_is_cut_to_milliseconds(now: int)
    ensures
        to_milliseconds(now) % 1_000_000 == 0,
        now >= 0 ==> 0 <= now - to_milliseconds(now) < 1_000_000,
        now < 0 ==> 0 <= to_milliseconds(now) - now < 1_000_000,
        now >= 0 ==> to_milliseconds(now) >= 0,
        now < 0 ==> to_milliseconds(now) <= 0,
{
}

} // verus!

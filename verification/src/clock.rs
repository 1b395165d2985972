//! What is different at every call: the time, and fresh identifiers.
use vstd::prelude::*;

verus! {

/// The most nanoseconds that a `std::time::Duration` holds.
pub const MAX_DURATION_NS: u128 = 18_446_744_073_709_551_615_999_999_999;

/// `std::time::SystemTime::now`, as nanoseconds since the Unix epoch, or before it where the clock
/// stands before it. Only the size of a `Duration` is promised of the result.
#[verifier::external_body]
fn since_epoch() -> (r: Result<u128, u128>)
    ensures
        r matches Ok(ns) ==> ns <= MAX_DURATION_NS,
        r matches Err(ns) ==> ns <= MAX_DURATION_NS,
{
    match std::time::SystemTime::now().duration_since(std::time::UNIX_EPOCH) {
        Ok(d) => Ok(d.as_nanos()),
        Err(e) => Err(e.duration().as_nanos()),
    }
}

/// The time that a reading of a clock stands for, in nanoseconds since the Unix epoch: `Ok` with how far
/// the clock stands after the epoch, `Err` with how far before it.
pub open spec fn time_of(reading: Result<u128, u128>) -> int {
    match reading {
        Ok(ns) => ns as int,
        Err(ns) => -(ns as int),
    }
}

/// The time that a reading of a clock stands for, in nanoseconds since the Unix epoch: `Ok` with how far
/// the clock stands after the epoch, `Err` with how far before it.
pub fn read_clock(reading: Result<u128, u128>) -> (r: i128)
    requires
        -i128::MAX <= time_of(reading) <= i128::MAX,
    ensures
        r == time_of(reading),
{
    match reading {
        Ok(ns) => ns as i128,
        Err(ns) => -(ns as i128),
    }
}

/// The time of the device's clock, in nanoseconds since the Unix epoch. The clock is taken at its
/// word: nothing says that it is right.
pub fn now_ns() -> (r: i128)
    ensures
        -(MAX_DURATION_NS as int) <= r <= MAX_DURATION_NS,
{
    read_clock(since_epoch())
}

/// Whether `s` ends in the offset of UTC.
pub open spec fn is_utc_stamp(s: Seq<char>) -> bool {
    s.len() >= 6 && s.skip(s.len() - 6) == "+00:00"@
}

/// `chrono::Utc::now().to_rfc3339()`: the time of the device's clock in UTC, which ends in the offset
/// `+00:00`. The clock is taken to stand within the years that `chrono` knows, and not before the Unix
/// epoch: `chrono` has no time for it elsewhere.
#[verifier::external_body]
pub(crate) fn now_text() -> (r: String)
    ensures
        is_utc_stamp(r@),
{
    chrono::Utc::now().to_rfc3339()
}

/// A hexadecimal digit in lower case.
pub open spec fn is_hex(c: char) -> bool {
    '0' <= c <= '9' || 'a' <= c <= 'f'
}

/// A random UUID as 36 characters: hexadecimal digits, hyphens after the 8th, 12th, 16th and 20th of
/// them, and the marks of version 4.
pub open spec fn is_uuid(s: Seq<char>) -> bool {
    &&& s.len() == 36
    &&& forall|i: int|
        0 <= i < 36 ==> if i == 8 || i == 13 || i == 18 || i == 23 {
            #[trigger] s[i] == '-'
        } else {
            is_hex(s[i])
        }
    &&& s[14] == '4'
    &&& s[19] == '8' || s[19] == '9' || s[19] == 'a' || s[19] == 'b'
}

/// 32 hexadecimal digits.
pub open spec fn is_token(s: Seq<char>) -> bool {
    s.len() == 32 && forall|i: int| 0 <= i < 32 ==> is_hex(#[trigger] s[i])
}

/// `uuid::Uuid::new_v4` in its hyphenated form: a random identifier. That no two are alike is likely
/// and not promised.
#[verifier::external_body]
pub(crate) fn fresh_uuid() -> (r: String)
    ensures
        is_uuid(r@),
{
    uuid::Uuid::new_v4().to_string()
}

/// `uuid::Uuid::new_v4` in its simple form: 32 hexadecimal digits.
#[verifier::external_body]
pub(crate) fn fresh_token() -> (r: String)
    ensures
        is_token(r@),
{
    uuid::Uuid::new_v4().simple().to_string()
}

} // verus!

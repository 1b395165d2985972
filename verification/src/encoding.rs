//! Instants as text: a canonical count of nanoseconds since the Unix epoch, read from and written in
//! several encodings.
use crate::calendar;
use crate::error::{CtclError, CtclErrorModel};
use crate::fraction;
use crate::numeral;
use crate::text;
use vstd::arithmetic::power;
use vstd::prelude::*;

verus! {

pub const NS_PER_S: i128 = 1_000_000_000;

pub const NS_PER_MS: i128 = 1_000_000;

pub const NS_PER_US: i128 = 1_000;

/// How an instant is written.
#[derive(Debug, Clone, Copy, PartialEq, Eq, Structural)]
pub enum Encoding {
    UnixS,
    UnixMs,
    UnixUs,
    UnixNs,
    Rfc3339,
}

/// `s` in lower case.
pub uninterp spec fn lowercased(s: Seq<char>) -> Seq<char>;

/// The lower case of an ASCII character.
pub open spec fn ascii_lower(c: char) -> char {
    if 'A' <= c <= 'Z' {
        (c as int + 32) as char
    } else {
        c
    }
}

/// ASCII text in lower case.
pub open spec fn ascii_lowered(s: Seq<char>) -> Seq<char> {
    s.map_values(|c: char| ascii_lower(c))
}

/// `str::to_lowercase`: a function of the text; on ASCII text it maps each letter to its lower case
/// and keeps every other character. What it does to other characters is left unsaid.
#[verifier::external_body]
pub(crate) fn lowercase(s: &str) -> (r: String)
    ensures
        r@ == lowercased(s@),
        vstd::utf8::is_ascii_chars(s@) ==> r@ == ascii_lowered(s@),
{
    s.to_lowercase()
}

/// The encoding that a lower-case name stands for.
pub open spec fn encoding_named(name: Seq<char>) -> Option<Encoding> {
    if name == "unix_s"@ {
        Some(Encoding::UnixS)
    } else if name == "unix_ms"@ {
        Some(Encoding::UnixMs)
    } else if name == "unix_us"@ {
        Some(Encoding::UnixUs)
    } else if name == "unix_ns"@ {
        Some(Encoding::UnixNs)
    } else if name == "rfc3339"@ || name == "iso8601"@ {
        Some(Encoding::Rfc3339)
    } else {
        None
    }
}

impl Encoding {
    /// How many decimal digits of the unit's fraction make up a nanosecond; `None` where the encoding
    /// does not count units.
    pub open spec fn digits(self) -> Option<nat> {
        match self {
            Encoding::UnixS => Some(9),
            Encoding::UnixMs => Some(6),
            Encoding::UnixUs => Some(3),
            Encoding::UnixNs => Some(0),
            Encoding::Rfc3339 => None,
        }
    }

    /// The nanoseconds in the encoding's unit.
    pub open spec fn unit(self) -> Option<int> {
        match self {
            Encoding::UnixS => Some(1_000_000_000),
            Encoding::UnixMs => Some(1_000_000),
            Encoding::UnixUs => Some(1_000),
            Encoding::UnixNs => Some(1),
            Encoding::Rfc3339 => None,
        }
    }

    /// The encoding of that name, in any case.
    pub fn parse(s: &str) -> (r: Result<Encoding, CtclError>)
        ensures
            (match r {
                Ok(encoding) => encoding_named(lowercased(s@)) == Some(encoding),
                Err(e) => encoding_named(lowercased(s@)) is None && e@
                    == CtclErrorModel::UnknownEncoding(lowercased(s@)),
            }),
            vstd::utf8::is_ascii_chars(s@) ==> lowercased(s@) == ascii_lowered(s@),
    {
        let lower = lowercase(s);
        Encoding::from_lowercase(lower.as_str())
    }

    /// The encoding of that lower-case name.
    pub fn from_lowercase(name: &str) -> (r: Result<Encoding, CtclError>)
        ensures
            (match r {
                Ok(encoding) => encoding_named(name@) == Some(encoding),
                Err(e) => encoding_named(name@) is None && e@ == CtclErrorModel::UnknownEncoding(
                    name@,
                ),
            }),
    {
        if text::same(name, "unix_s") {
            Ok(Encoding::UnixS)
        } else if text::same(name, "unix_ms") {
            Ok(Encoding::UnixMs)
        } else if text::same(name, "unix_us") {
            Ok(Encoding::UnixUs)
        } else if text::same(name, "unix_ns") {
            Ok(Encoding::UnixNs)
        } else if text::same(name, "rfc3339") || text::same(name, "iso8601") {
            Ok(Encoding::Rfc3339)
        } else {
            Err(CtclError::UnknownEncoding(name.to_owned()))
        }
    }

    /// The nanoseconds in the encoding's unit.
    pub fn unit_ns(&self) -> (r: Option<i128>)
        ensures
            (match r {
                Some(u) => self.unit() == Some(u as int),
                None => self.unit() is None,
            }),
    {
        match self {
            Encoding::UnixS => Some(NS_PER_S),
            Encoding::UnixMs => Some(NS_PER_MS),
            Encoding::UnixUs => Some(NS_PER_US),
            Encoding::UnixNs => Some(1),
            Encoding::Rfc3339 => None,
        }
    }
}

/// Whether `n` fits 128 bits.
pub open spec fn in_i128(n: int) -> bool {
    i128::MIN <= n <= i128::MAX
}

/// The nanoseconds in a value counted in `unit` nanoseconds: an integer and, behind a decimal point, a
/// fraction that counts away from zero where the value starts with `-`. `None` where the text is no
/// such value, or the count does not fit 128 bits.
pub open spec fn numeric_ns(value: Seq<char>, unit: nat) -> Option<int> {
    let s = text::trimmed(value);
    let negative = s.len() > 0 && s[0] == '-';
    let (whole, frac) = match text::split_at_char(s, '.') {
        Some((a, b)) => (a, b),
        None => (s, Seq::empty()),
    };
    match numeral::i128_value(whole) {
        None => None,
        Some(w) => {
            let fine = if frac.len() == 0 {
                Some(0)
            } else {
                fraction::fraction_value(frac, unit)
            };
            match fine {
                None => None,
                Some(f) => {
                    let ns = if negative {
                        w * unit - f
                    } else {
                        w * unit + f
                    };
                    if in_i128(ns) {
                        Some(ns)
                    } else {
                        None
                    }
                },
            }
        },
    }
}

/// The instant that `value` stands for in an encoding.
pub open spec fn instant_in(value: Seq<char>, encoding: Encoding) -> Result<int, CtclErrorModel> {
    match encoding.unit() {
        None => match calendar::rfc3339_instant(text::trimmed(value)) {
            Some((secs, nanos)) => Ok(secs * 1_000_000_000 + nanos),
            None => Err(CtclErrorModel::InvalidTimeValue("unparseable rfc3339: "@ + value)),
        },
        Some(unit) => match numeric_ns(value, unit as nat) {
            Some(ns) => Ok(ns),
            None => Err(CtclErrorModel::InvalidTimeValue(value)),
        },
    }
}

/// The instant that `value` stands for in the encoding of that name.
pub open spec fn instant_of(value: Seq<char>, encoding: Seq<char>) -> Result<int, CtclErrorModel> {
    match encoding_named(lowercased(encoding)) {
        Some(e) => instant_in(value, e),
        None => Err(CtclErrorModel::UnknownEncoding(lowercased(encoding))),
    }
}

/// Reads a value counted in `unit` nanoseconds.
pub fn parse_numeric_ns(value: &str, unit: u32) -> (r: Result<i128, CtclError>)
    requires
        unit > 0,
    ensures
        (match r {
            Ok(ns) => numeric_ns(value@, unit as nat) == Some(ns as int),
            Err(e) => numeric_ns(value@, unit as nat) is None && e@
                == CtclErrorModel::InvalidTimeValue(value@),
        }),
{
    let s = text::trim(value);
    let negative: bool = text::starts_with_char(s.as_str(), '-');
    let (whole, frac): (String, String) = match text::split_once(s.as_str(), '.') {
        Some(parts) => parts,
        None => (s, String::new()),
    };
    let w: i128 = match numeral::parse_i128(whole.as_str()) {
        Some(w) => w,
        None => {
            return Err(CtclError::InvalidTimeValue(value.to_owned()));
        },
    };
    let f: i128 = if frac.as_str().is_empty() {
        0
    } else {
        match fraction::fraction_ns(frac.as_str(), unit) {
            Some(f) => f,
            None => {
                return Err(CtclError::InvalidTimeValue(value.to_owned()));
            },
        }
    };
    proof {
        if negative {
            lemma_sign_of_whole(text::trimmed(value@));
        } else {
            lemma_sign_of_positive(text::trimmed(value@));
        }
        assert(w >= 0 ==> w * unit >= 0) by (nonlinear_arith);
        assert(w <= 0 ==> w * unit <= 0) by (nonlinear_arith);
    }
    let coarse: i128 = match w.checked_mul(unit as i128) {
        Some(n) => n,
        None => {
            return Err(CtclError::InvalidTimeValue(value.to_owned()));
        },
    };
    let total: Option<i128> = if negative {
        coarse.checked_sub(f)
    } else {
        coarse.checked_add(f)
    };
    match total {
        Some(ns) => Ok(ns),
        None => Err(CtclError::InvalidTimeValue(value.to_owned())),
    }
}

/// A value that starts with `-` has no positive integer part.
proof fn lemma_sign_of_whole(s: Seq<char>)
    requires
        s.len() > 0 && s[0] == '-',
    ensures
        ({
            let whole = match text::split_at_char(s, '.') {
                Some((a, b)) => a,
                None => s,
            };
            numeral::i128_value(whole) matches Some(w) ==> w <= 0
        }),
{
    lemma_split_head(s);
}

/// A value that does not start with `-` has no negative integer part.
proof fn lemma_sign_of_positive(s: Seq<char>)
    requires
        !(s.len() > 0 && s[0] == '-'),
    ensures
        ({
            let whole = match text::split_at_char(s, '.') {
                Some((a, b)) => a,
                None => s,
            };
            numeral::i128_value(whole) matches Some(w) ==> w >= 0
        }),
{
    lemma_split_head(s);
}

/// What stands before the first `.` starts as the text does.
proof fn lemma_split_head(s: Seq<char>)
    ensures
        text::split_at_char(s, '.') matches Some((a, b)) ==> a.len() > 0 ==> s.len() > 0 && a[0] == s[0],
{
}

/// The canonical nanoseconds of `value` in an encoding.
pub fn to_ns_in(value: &str, encoding: Encoding) -> (r: Result<i128, CtclError>)
    ensures
        (match r {
            Ok(ns) => instant_in(value@, encoding) == Ok::<int, CtclErrorModel>(ns as int),
            Err(e) => instant_in(value@, encoding) == Err::<int, CtclErrorModel>(e@),
        }),
{
    match encoding {
        Encoding::Rfc3339 => parse_rfc3339_ns(value),
        Encoding::UnixS => parse_numeric_ns(value, 1_000_000_000),
        Encoding::UnixMs => parse_numeric_ns(value, 1_000_000),
        Encoding::UnixUs => parse_numeric_ns(value, 1_000),
        Encoding::UnixNs => parse_numeric_ns(value, 1),
    }
}

/// The canonical nanoseconds of an RFC 3339 text.
fn parse_rfc3339_ns(value: &str) -> (r: Result<i128, CtclError>)
    ensures
        (match r {
            Ok(ns) => instant_in(value@, Encoding::Rfc3339) == Ok::<int, CtclErrorModel>(ns as int),
            Err(e) => instant_in(value@, Encoding::Rfc3339) == Err::<int, CtclErrorModel>(e@),
        }),
{
    let trimmed = text::trim(value);
    match calendar::parse_rfc3339(trimmed.as_str()) {
        Some((secs, nanos)) => Ok(secs as i128 * NS_PER_S + nanos as i128),
        None => Err(
            CtclError::InvalidTimeValue(text::join("unparseable rfc3339: ", value)),
        ),
    }
}

/// The canonical nanoseconds since the Unix epoch of `value` in the encoding of that name. A value
/// whose count does not fit 128 bits is no valid one.
pub fn to_ns(value: &str, encoding: &str) -> (r: Result<i128, CtclError>)
    ensures
        (match r {
            Ok(ns) => instant_of(value@, encoding@) == Ok::<int, CtclErrorModel>(ns as int),
            Err(e) => instant_of(value@, encoding@) == Err::<int, CtclErrorModel>(e@),
        }),
        vstd::utf8::is_ascii_chars(encoding@) ==> lowercased(encoding@) == ascii_lowered(encoding@),
{
    match Encoding::parse(encoding) {
        Ok(e) => to_ns_in(value, e),
        Err(e) => Err(e),
    }
}

/// How far `ns` is from zero.
pub open spec fn magnitude(ns: int) -> nat {
    if ns < 0 {
        (-ns) as nat
    } else {
        ns as nat
    }
}

/// The digits of `n`, behind a sign where it counts below zero.
pub open spec fn signed_digits(negative: bool, n: nat) -> Seq<char> {
    if negative {
        seq!['-'] + numeral::digits_of(n)
    } else {
        numeral::digits_of(n)
    }
}

/// `ns` counted in units of `10^digits` nanoseconds: a sign where it is below zero, the whole units, and
/// behind a decimal point the nanoseconds beyond them, without zeros at the end.
pub open spec fn unit_text(ns: int, unit: int, digits: nat) -> Seq<char> {
    let whole = magnitude(ns) / (unit as nat);
    let beyond = magnitude(ns) % (unit as nat);
    let head = signed_digits(ns < 0, whole);
    if beyond == 0 {
        head
    } else {
        head + "."@ + numeral::without_final_zeros(numeral::padded(beyond, digits))
    }
}

/// The whole seconds of an instant, those before the epoch counted down.
pub open spec fn whole_seconds(ns: int) -> int {
    ns / 1_000_000_000
}

/// Whether a zone name stands for UTC itself.
pub open spec fn is_utc(tz: Option<Seq<char>>) -> bool {
    match tz {
        None => true,
        Some(name) => name == "UTC"@ || name == "Z"@ || name == "utc"@,
    }
}

/// The offset from UTC that a zone asks for.
pub open spec fn offset_for(secs: i64, tz: Option<Seq<char>>) -> Result<i32, CtclErrorModel> {
    if is_utc(tz) {
        Ok(0i32)
    } else {
        match calendar::zone_offset(tz->0, secs) {
            Some(offset) => Ok(offset),
            None => Err(CtclErrorModel::InvalidTimezone(tz->0)),
        }
    }
}

/// The RFC 3339 text of an instant in a zone.
pub open spec fn rfc3339_of(ns: int, tz: Option<Seq<char>>) -> Result<Seq<char>, CtclErrorModel> {
    let secs = whole_seconds(ns);
    let beyond = CtclErrorModel::InvalidTimeValue("instant out of representable range"@);
    if !(calendar::MIN_SECS <= secs <= calendar::MAX_SECS) {
        Err(beyond)
    } else {
        match offset_for(secs as i64, tz) {
            Ok(offset) => if calendar::MIN_SECS <= secs + offset <= calendar::MAX_SECS {
                Ok(calendar::rfc3339_text(secs as i64, (ns % 1_000_000_000) as u32, offset))
            } else {
                Err(beyond)
            },
            Err(e) => Err(e),
        }
    }
}

/// Whether the RFC 3339 text of an instant is one that can be read again: the local year has four
/// digits, and the zone's offset is a whole number of minutes.
pub open spec fn reads_back(ns: int, tz: Option<Seq<char>>) -> bool {
    let secs = ns / 1_000_000_000;
    &&& calendar::MIN_SECS <= secs <= calendar::MAX_SECS
    &&& offset_for(secs as i64, tz) matches Ok(offset) && offset % 60 == 0
        && calendar::YEAR_0_SECS <= secs + offset <= calendar::YEAR_9999_SECS
}

/// The text of an instant in an encoding; the zone matters to `Rfc3339` only.
pub open spec fn text_in(ns: int, encoding: Encoding, tz: Option<Seq<char>>) -> Result<
    Seq<char>,
    CtclErrorModel,
> {
    match encoding.unit() {
        None => rfc3339_of(ns, tz),
        Some(unit) => Ok(unit_text(ns, unit, encoding.digits()->0)),
    }
}

/// The text of an instant in the encoding of that name.
pub open spec fn text_as(ns: int, encoding: Seq<char>, tz: Option<Seq<char>>) -> Result<
    Seq<char>,
    CtclErrorModel,
> {
    match encoding_named(lowercased(encoding)) {
        Some(e) => text_in(ns, e, tz),
        None => Err(CtclErrorModel::UnknownEncoding(lowercased(encoding))),
    }
}

/// `ns` counted in a unit, as text.
fn count_units(ns: i128, unit: u128, digits: usize) -> (r: String)
    requires
        0 < unit <= 1_000_000_000,
    ensures
        r@ == unit_text(ns as int, unit as int, digits as nat),
{
    let size: u128 = if ns < 0 {
        (-(ns + 1)) as u128 + 1
    } else {
        ns as u128
    };
    let whole = numeral::u128_text(size / unit);
    let head: String = if ns < 0 {
        proof {
            reveal_strlit("-");
            assert("-"@ =~= seq!['-']);
        }
        text::join("-", whole.as_str())
    } else {
        whole
    };
    let beyond: u128 = size % unit;
    if beyond == 0 {
        head
    } else {
        let tail = numeral::fraction_text(beyond, digits);
        text::join3(head.as_str(), ".", tail.as_str())
    }
}

/// The whole seconds of an instant, cut off toward the epoch.
pub open spec fn cut_seconds(ns: int) -> int {
    if ns >= 0 {
        ns / 1_000_000_000
    } else {
        -((-ns) / 1_000_000_000)
    }
}

/// The whole seconds of an instant, cut off toward the epoch.
pub fn seconds_cut(ns: i128) -> (r: i128)
    ensures
        r == cut_seconds(ns as int),
{
    if ns >= 0 {
        ns / NS_PER_S
    } else {
        let magnitude: u128 = (-(ns + 1)) as u128 + 1;
        -((magnitude / 1_000_000_000) as i128)
    }
}

/// The text of an instant in an encoding; the zone (an IANA name) matters to `Rfc3339` only.
pub fn from_ns_in(ns: i128, encoding: Encoding, tz: Option<&str>) -> (r: Result<String, CtclError>)
    ensures
        (match r {
            Ok(s) => text_in(ns as int, encoding, text::opt_str(tz)) == Ok::<Seq<char>, CtclErrorModel>(s@),
            Err(e) => text_in(ns as int, encoding, text::opt_str(tz)) == Err::<Seq<char>, CtclErrorModel>(
                e@,
            ),
        }),
        encoding == Encoding::Rfc3339 && reads_back(ns as int, text::opt_str(tz)) ==> r is Ok
            && instant_in(r->Ok_0@, encoding) == Ok::<int, CtclErrorModel>(ns as int),
{
    match encoding {
        Encoding::Rfc3339 => rfc3339(ns, tz),
        Encoding::UnixS => Ok(count_units(ns, 1_000_000_000, 9)),
        Encoding::UnixMs => Ok(count_units(ns, 1_000_000, 6)),
        Encoding::UnixUs => Ok(count_units(ns, 1_000, 3)),
        Encoding::UnixNs => Ok(count_units(ns, 1, 0)),
    }
}

/// The text of an instant in the encoding of that name; the zone (an IANA name) matters to RFC 3339
/// only.
pub fn from_ns(ns: i128, encoding: &str, tz: Option<&str>) -> (r: Result<String, CtclError>)
    ensures
        (match r {
            Ok(s) => text_as(ns as int, encoding@, text::opt_str(tz)) == Ok::<Seq<char>, CtclErrorModel>(
                s@,
            ),
            Err(e) => text_as(ns as int, encoding@, text::opt_str(tz)) == Err::<Seq<char>, CtclErrorModel>(
                e@,
            ),
        }),
        encoding_named(lowercased(encoding@)) == Some(Encoding::Rfc3339) && reads_back(
            ns as int,
            text::opt_str(tz),
        ) ==> r is Ok && instant_of(r->Ok_0@, encoding@) == Ok::<int, CtclErrorModel>(ns as int),
        vstd::utf8::is_ascii_chars(encoding@) ==> lowercased(encoding@) == ascii_lowered(encoding@),
{
    match Encoding::parse(encoding) {
        Ok(e) => from_ns_in(ns, e, tz),
        Err(e) => Err(e),
    }
}

/// The RFC 3339 text of an instant, in a zone where one is named. An instant whose local time in the
/// zone cannot be represented is out of range, as one that cannot be represented itself.
pub fn rfc3339(ns: i128, tz: Option<&str>) -> (r: Result<String, CtclError>)
    ensures
        (match r {
            Ok(s) => rfc3339_of(ns as int, text::opt_str(tz)) == Ok::<Seq<char>, CtclErrorModel>(s@),
            Err(e) => rfc3339_of(ns as int, text::opt_str(tz)) == Err::<Seq<char>, CtclErrorModel>(e@),
        }),
        reads_back(ns as int, text::opt_str(tz)) ==> r is Ok && instant_in(r->Ok_0@, Encoding::Rfc3339)
            == Ok::<int, CtclErrorModel>(ns as int),
{
    let quotient: i128 = ns.checked_div_euclid(NS_PER_S).unwrap();
    if quotient < calendar::MIN_SECS as i128 || quotient > calendar::MAX_SECS as i128 {
        return Err(
            CtclError::InvalidTimeValue("instant out of representable range".to_owned()),
        );
    }
    let secs: i64 = quotient as i64;
    let nanos: u32 = ns.checked_rem_euclid(NS_PER_S).unwrap() as u32;
    let offset: i32 = match tz {
        None => 0,
        Some(name) => if text::same(name, "UTC") || text::same(name, "Z") || text::same(name, "utc") {
            0
        } else {
            match calendar::offset_in_zone(name, secs) {
                Some(offset) => offset,
                None => {
                    return Err(CtclError::InvalidTimezone(name.to_owned()));
                },
            }
        },
    };
    let local: i64 = secs + offset as i64;
    if local < calendar::MIN_SECS || local > calendar::MAX_SECS {
        return Err(
            CtclError::InvalidTimeValue("instant out of representable range".to_owned()),
        );
    }
    let s = calendar::format_rfc3339(secs, nanos, offset);
    proof {
        lemma_trim_keeps(s@);
    }
    Ok(s)
}

/// A value in another encoding, with the instant that both stand for.
#[derive(Debug, Clone)]
pub struct Conversion {
    pub canonical_unix_ns: String,
    pub output: String,
}

#[verifier::ext_equal]
pub struct ConversionModel {
    pub canonical_unix_ns: Seq<char>,
    pub output: Seq<char>,
}

impl View for Conversion {
    type V = ConversionModel;

    open spec fn view(&self) -> ConversionModel {
        ConversionModel { canonical_unix_ns: self.canonical_unix_ns@, output: self.output@ }
    }
}

/// A value of one encoding in another one.
pub open spec fn conversion(
    value: Seq<char>,
    from: Seq<char>,
    to: Seq<char>,
    tz: Option<Seq<char>>,
) -> Result<ConversionModel, CtclErrorModel> {
    match instant_of(value, from) {
        Err(e) => Err(e),
        Ok(ns) => match text_as(ns, to, tz) {
            Err(e) => Err(e),
            Ok(output) => Ok(ConversionModel { canonical_unix_ns: numeral::numeral(ns), output }),
        },
    }
}

/// Converts a value of one encoding into another one.
pub fn convert(value: &str, from: &str, to: &str, tz: Option<&str>) -> (r: Result<
    Conversion,
    CtclError,
>)
    ensures
        (match r {
            Ok(c) => conversion(value@, from@, to@, text::opt_str(tz)) == Ok::<
                ConversionModel,
                CtclErrorModel,
            >(c@),
            Err(e) => conversion(value@, from@, to@, text::opt_str(tz)) == Err::<
                ConversionModel,
                CtclErrorModel,
            >(e@),
        }),
{
    match to_ns(value, from) {
        Err(e) => Err(e),
        Ok(ns) => match from_ns(ns, to, tz) {
            Err(e) => Err(e),
            Ok(output) => Ok(
                Conversion { canonical_unix_ns: numeral::i128_text(ns), output },
            ),
        },
    }
}

/// Text without white space at its ends is kept by trimming.
proof fn lemma_trim_keeps(s: Seq<char>)
    requires
        s.len() > 0,
        !text::is_white(s[0]),
        !text::is_white(s.last()),
    ensures
        text::trimmed(s) == s,
{
}

/// A row of digits is read to its end.
proof fn lemma_digit_run(s: Seq<char>)
    requires
        numeral::all_digits(s),
    ensures
        fraction::digit_run(s) == s.len(),
    decreases s.len(),
{
    if s.len() > 0 {
        assert forall|i: int| 0 <= i < s.drop_first().len() implies numeral::is_digit(
            #[trigger] s.drop_first()[i],
        ) by {
            assert(s.drop_first()[i] == s[i + 1]);
        }
        assert(numeral::is_digit(s[0]));
        lemma_digit_run(s.drop_first());
    }
}

/// Powers of ten as numbers.
proof fn lemma_units(encoding: Encoding)
    requires
        encoding.unit() is Some,
    ensures
        encoding.unit()->0 == power::pow(10, encoding.digits()->0),
        0 < encoding.unit()->0 <= 1_000_000_000,
{
    reveal(power::pow);
    reveal_with_fuel(power::pow, 10);
    assert(power::pow(10, 0) == 1);
    assert(power::pow(10, 3) == 1_000);
    assert(power::pow(10, 6) == 1_000_000);
    assert(power::pow(10, 9) == 1_000_000_000);
}

/// The fraction that is written for `rem` nanoseconds reads back as `rem`.
proof fn lemma_fraction_reads_back(rem: nat, unit: nat, digits: nat)
    requires
        0 < rem < unit <= 1_000_000_000,
        unit == power::pow(10, digits),
    ensures
        ({
            let frac = numeral::without_final_zeros(numeral::padded(rem, digits));
            &&& frac.len() > 0
            &&& numeral::all_digits(frac)
            &&& fraction::fraction_value(frac, unit) == Some(rem)
        }),
{
    let all = numeral::padded(rem, digits);
    let frac = numeral::without_final_zeros(all);
    numeral::lemma_padded(rem, digits);
    numeral::lemma_final_zeros(all);
    let k = frac.len();
    let c = power::pow(10, (digits - k) as nat);
    power::lemma_pow_positive(10, (digits - k) as nat);
    let n = numeral::digits_value(frac);
    if k == 0 {
        assert(n == 0);
        assert(0 * c == 0) by (nonlinear_arith);
        assert(false);
    }
    let d = power::pow(10, k);
    power::lemma_pow_positive(10, k);
    power::lemma_pow_adds(10, k, (digits - k) as nat);
    fraction::lemma_scaled_exact(n, d as nat, c as nat, unit, rem);
    lemma_digit_run(frac);
    assert(frac.skip(k as int) =~= Seq::<char>::empty());
    assert(frac.take(k as int) =~= frac);
}

/// The text of an instant counted in seconds, milliseconds, microseconds or nanoseconds reads back as
/// the same instant, before the epoch as after it.
pub proof fn law_unix_round_trip(ns: int, encoding: Encoding, tz: Option<Seq<char>>)
    requires
        encoding != Encoding::Rfc3339,
        in_i128(ns),
    ensures
        text_in(ns, encoding, tz) is Ok,
        instant_in(text_in(ns, encoding, tz)->Ok_0, encoding) == Ok::<int, CtclErrorModel>(ns),
{
    let unit = encoding.unit()->0;
    let digits = encoding.digits()->0;
    lemma_units(encoding);
    let size = magnitude(ns);
    let whole = size / (unit as nat);
    let beyond = size % (unit as nat);
    let head = signed_digits(ns < 0, whole);
    let s = unit_text(ns, unit, digits);
    let w: int = if ns < 0 {
        -(whole as int)
    } else {
        whole as int
    };
    vstd::arithmetic::div_mod::lemma_fundamental_div_mod(size as int, unit);
    assert(unit * whole == whole * unit) by (nonlinear_arith);
    assert(w * unit == if ns < 0 {
        -(whole * unit)
    } else {
        whole * unit
    }) by (nonlinear_arith)
        requires
            w == if ns < 0 {
                -(whole as int)
            } else {
                whole as int
            },
    ;
    assert(whole <= size) by (nonlinear_arith)
        requires
            whole * unit <= size,
            unit >= 1,
            whole >= 0,
    ;
    lemma_head_reads_back(ns < 0, whole);
    assert(numeral::i128_value(head) == Some(w));
    if beyond == 0 {
        lemma_trim_keeps(s);
        text::lemma_split_none(s, '.');
    } else {
        let frac = numeral::without_final_zeros(numeral::padded(beyond, digits));
        lemma_fraction_reads_back(beyond, unit as nat, digits);
        reveal_strlit(".");
        assert(s[head.len() as int] == '.');
        assert(s.last() == frac.last());
        assert(numeral::is_digit(frac[frac.len() - 1]));
        assert(s[0] == head[0]);
        lemma_trim_keeps(s);
        assert forall|k: int| 0 <= k < head.len() implies s[k] != '.' by {
            assert(s[k] == head[k]);
        }
        text::lemma_split_at(s, '.', head.len() as int);
        assert(s.take(head.len() as int) =~= head);
        assert(s.skip(head.len() as int + 1) =~= frac);
    }
}

/// The digits of a number, behind a sign or not, read back as the number, and hold nothing but a sign
/// and digits.
proof fn lemma_head_reads_back(negative: bool, n: nat)
    ensures
        signed_digits(negative, n).len() > 0,
        !text::is_white(signed_digits(negative, n)[0]),
        !text::is_white(signed_digits(negative, n).last()),
        (signed_digits(negative, n)[0] == '-') == negative,
        forall|k: int|
            0 <= k < signed_digits(negative, n).len() ==> signed_digits(negative, n)[k] != '.',
        numeral::signed_value(signed_digits(negative, n)) == Some(
            if negative {
                -(n as int)
            } else {
                n as int
            },
        ),
{
    let digits = numeral::digits_of(n);
    let s = signed_digits(negative, n);
    numeral::lemma_digits_round_trip(n);
    assert(numeral::is_digit(digits[0]));
    assert(numeral::is_digit(digits[digits.len() - 1]));
    assert(s.last() == digits.last());
    if negative {
        assert(s.drop_first() =~= digits);
    }
    assert forall|k: int| 0 <= k < s.len() implies s[k] != '.' by {
        if negative {
            if k > 0 {
                assert(s[k] == digits[k - 1]);
                assert(numeral::is_digit(digits[k - 1]));
            }
        } else {
            assert(numeral::is_digit(digits[k]));
        }
    }
}

/// The RFC 3339 text of an instant shows it at exactly the offset that the named zone has at that
/// instant, and at no offset where none or UTC is named. There is a text if and only if the zone is
/// known and both the instant and its local time can be represented.
pub proof fn law_text_is_at_the_offset_of_the_zone(ns: int, zone: Seq<char>)
    ensures
        ({
            let secs = ns / 1_000_000_000;
            let nanos = (ns % 1_000_000_000) as u32;
            let known = -8334601228800 <= secs <= 8210266876799;
            &&& rfc3339_of(ns, None) is Ok <==> known
            &&& rfc3339_of(ns, None) matches Ok(s) ==> s == calendar::rfc3339_text(
                secs as i64,
                nanos,
                0,
            )
            &&& zone == "UTC"@ || zone == "Z"@ || zone == "utc"@ ==> rfc3339_of(ns, Some(zone))
                == rfc3339_of(ns, None)
            &&& zone != "UTC"@ && zone != "Z"@ && zone != "utc"@ ==> {
                let offset = calendar::zone_offset(zone, secs as i64);
                &&& rfc3339_of(ns, Some(zone)) is Ok <==> known && offset is Some && -8334601228800
                    <= secs + offset->0 <= 8210266876799
                &&& rfc3339_of(ns, Some(zone)) matches Ok(s) ==> s == calendar::rfc3339_text(
                    secs as i64,
                    nanos,
                    offset->0,
                )
                &&& known && offset is None ==> rfc3339_of(ns, Some(zone)) == Err::<
                    Seq<char>,
                    CtclErrorModel,
                >(CtclErrorModel::InvalidTimezone(zone))
            }
        }),
{
}

/// A value that is converted to RFC 3339 keeps its instant: what comes out is the text of the instant
/// that went in, at the offset of the zone at that instant, and the zone matters to nothing else.
pub proof fn law_conversion_keeps_the_instant(
    value: Seq<char>,
    from: Seq<char>,
    to: Seq<char>,
    tz: Option<Seq<char>>,
    other: Option<Seq<char>>,
)
    ensures
        conversion(value, from, to, tz) matches Ok(c) ==> {
            &&& instant_of(value, from) is Ok
            &&& c.canonical_unix_ns == numeral::numeral(instant_of(value, from)->Ok_0)
            &&& lowercased(to) == "rfc3339"@ || lowercased(to) == "iso8601"@ ==> {
                let ns = instant_of(value, from)->Ok_0;
                let secs = (ns / 1_000_000_000) as i64;
                let utc = match tz {
                    None => true,
                    Some(z) => z == "UTC"@ || z == "Z"@ || z == "utc"@,
                };
                &&& !utc ==> calendar::zone_offset(tz->0, secs) is Some
                &&& c.output == calendar::rfc3339_text(
                    secs,
                    (ns % 1_000_000_000) as u32,
                    if utc {
                        0i32
                    } else {
                        calendar::zone_offset(tz->0, secs)->0
                    },
                )
            }
            &&& lowercased(to) != "rfc3339"@ && lowercased(to) != "iso8601"@ ==> {
                &&& conversion(value, from, to, other) == conversion(value, from, to, tz)
                &&& in_i128(instant_of(value, from)->Ok_0) ==> instant_of(c.output, to)
                    == instant_of(value, from)
            }
        },
{
    if conversion(value, from, to, tz) is Ok {
        reveal_strlit("unix_s");
        reveal_strlit("unix_ms");
        reveal_strlit("unix_us");
        reveal_strlit("unix_ns");
        reveal_strlit("rfc3339");
        reveal_strlit("iso8601");
        assert("unix_s"@[0] == 'u' && "unix_ms"@[0] == 'u' && "unix_us"@[0] == 'u' && "unix_ns"@[0]
            == 'u');
        let ns = instant_of(value, from)->Ok_0;
        let encoding = encoding_named(lowercased(to))->0;
        if encoding != Encoding::Rfc3339 && in_i128(ns) {
            law_unix_round_trip(ns, encoding, tz);
        }
    }
}

/// The name of an encoding, in lower case, says how an instant is counted; no other name does.
pub proof fn law_encodings_have_their_names(name: Seq<char>)
    ensures
        encoding_named(name) == Some(Encoding::UnixS) <==> name == "unix_s"@,
        encoding_named(name) == Some(Encoding::UnixMs) <==> name == "unix_ms"@,
        encoding_named(name) == Some(Encoding::UnixUs) <==> name == "unix_us"@,
        encoding_named(name) == Some(Encoding::UnixNs) <==> name == "unix_ns"@,
        encoding_named(name) == Some(Encoding::Rfc3339) <==> name == "rfc3339"@ || name == "iso8601"@,
{
    reveal_strlit("unix_s");
    reveal_strlit("unix_ms");
    reveal_strlit("unix_us");
    reveal_strlit("unix_ns");
    reveal_strlit("rfc3339");
    reveal_strlit("iso8601");
    assert("unix_s"@.len() == 6 && "unix_ms"@.len() == 7 && "unix_us"@.len() == 7 && "unix_ns"@.len()
        == 7);
    assert("unix_ms"@[5] == 'm' && "unix_us"@[5] == 'u' && "unix_ns"@[5] == 'n');
    assert("unix_ms"@[0] == 'u' && "unix_us"@[0] == 'u' && "unix_ns"@[0] == 'u' && "rfc3339"@[0] == 'r'
        && "iso8601"@[0] == 'i');
    assert("rfc3339"@.len() == 7 && "iso8601"@.len() == 7);
}

/// A sign or none in front of digits, and what stands there for the whole value.
proof fn lemma_signed_head(negative: bool, digits: Seq<char>)
    requires
        digits.len() > 0,
        numeral::all_digits(digits),
    ensures
        ({
            let head = if negative {
                seq!['-'] + digits
            } else {
                digits
            };
            let n = numeral::digits_value(digits) as int;
            &&& head.len() > 0
            &&& (head[0] == '-') == negative
            &&& !text::is_white(head[0])
            &&& !text::is_white(head.last())
            &&& forall|k: int| 0 <= k < head.len() ==> head[k] != '.'
            &&& numeral::signed_value(head) == Some(
                if negative {
                    -n
                } else {
                    n
                },
            )
        }),
{
    let head = if negative {
        seq!['-'] + digits
    } else {
        digits
    };
    assert(numeral::is_digit(digits[0]));
    assert(numeral::is_digit(digits[digits.len() - 1]));
    assert(head.last() == digits.last());
    if negative {
        assert(head.drop_first() =~= digits);
    }
    assert forall|k: int| 0 <= k < head.len() implies head[k] != '.' by {
        if negative {
            if k > 0 {
                assert(head[k] == digits[k - 1]);
                assert(numeral::is_digit(digits[k - 1]));
            }
        } else {
            assert(numeral::is_digit(digits[k]));
        }
    }
}

/// The nanoseconds in one second, millisecond, microsecond or nanosecond, as the encoding says.
pub open spec fn counted_in(encoding: Encoding) -> int {
    match encoding {
        Encoding::UnixS => 1_000_000_000,
        Encoding::UnixMs => 1_000_000,
        Encoding::UnixUs => 1_000,
        _ => 1,
    }
}

/// A whole number stands for as many seconds, milliseconds, microseconds or nanoseconds since the
/// epoch, before it with a sign, as far as that fits 128 bits.
pub proof fn law_whole_numbers_count_units(encoding: Encoding, negative: bool, digits: Seq<char>)
    requires
        encoding != Encoding::Rfc3339,
        digits.len() > 0,
        numeral::all_digits(digits),
    ensures
        ({
            let value = if negative {
                seq!['-'] + digits
            } else {
                digits
            };
            let n = numeral::digits_value(digits) as int;
            let ns = if negative {
                -(n * counted_in(encoding))
            } else {
                n * counted_in(encoding)
            };
            instant_in(value, encoding) == if i128::MIN <= ns <= i128::MAX {
                Ok::<int, CtclErrorModel>(ns)
            } else {
                Err(CtclErrorModel::InvalidTimeValue(value))
            }
        }),
{
    let value = if negative {
        seq!['-'] + digits
    } else {
        digits
    };
    lemma_signed_head(negative, digits);
    lemma_trim_keeps(value);
    text::lemma_split_none(value, '.');
    let n = numeral::digits_value(digits) as int;
    let u = counted_in(encoding);
    assert((-n) * u == -(n * u) && n * u >= n && n * u + 0 == n * u) by (nonlinear_arith)
        requires
            n >= 0,
            u >= 1,
    ;
    assert(encoding.unit() == Some(u));
    assert(-n * (u as nat) == -(n * u)) by (nonlinear_arith)
        requires
            u >= 1,
    ;
}

/// Digits behind the decimal point count parts of the unit, away from zero: as many nanoseconds as they
/// say, where they go no further than nanoseconds, and else the nearest nanosecond, but for roundings
/// of less than one part in a million of it.
pub proof fn law_fractions_count_parts_of_units(
    encoding: Encoding,
    negative: bool,
    digits: Seq<char>,
    frac: Seq<char>,
)
    requires
        encoding != Encoding::Rfc3339,
        digits.len() > 0,
        numeral::all_digits(digits),
        frac.len() > 0,
        numeral::all_digits(frac),
        numeral::digits_value(digits) * counted_in(encoding) <= 0x7fff_ffff_ffff_ffff_ffff_ffff_0000_0000,
    ensures
        ({
            let value = (if negative {
                seq!['-'] + digits
            } else {
                digits
            }) + seq!['.'] + frac;
            let whole = numeral::digits_value(digits) * counted_in(encoding);
            let part = numeral::digits_value(frac) * counted_in(encoding);
            let scale = power::pow(10, frac.len());
            let beyond = if negative {
                -instant_in(value, encoding)->Ok_0 - whole
            } else {
                instant_in(value, encoding)->Ok_0 - whole
            };
            &&& instant_in(value, encoding) is Ok
            &&& scale <= counted_in(encoding) ==> beyond * scale == part
            &&& -(1_000_001 * scale) <= 2_000_000 * (beyond * scale - part) <= 1_000_001 * scale
        }),
{
    let head = if negative {
        seq!['-'] + digits
    } else {
        digits
    };
    let value = head + seq!['.'] + frac;
    let u = counted_in(encoding);
    let n = numeral::digits_value(digits) as int;
    let f = numeral::digits_value(frac) as int;
    let k = frac.len();
    let scale = power::pow(10, k);
    let part = f * u;
    lemma_units(encoding);
    lemma_signed_head(negative, digits);
    assert(numeral::is_digit(frac[frac.len() - 1]));
    assert(value.last() == frac.last());
    assert(value[0] == head[0]);
    lemma_trim_keeps(value);
    assert(value[head.len() as int] == '.');
    assert forall|j: int| 0 <= j < head.len() implies value[j] != '.' by {
        assert(value[j] == head[j]);
    }
    text::lemma_split_at(value, '.', head.len() as int);
    assert(value.take(head.len() as int) =~= head);
    assert(value.skip(head.len() as int + 1) =~= frac);
    assert(n * u >= n && (-n) * u == -(n * u)) by (nonlinear_arith)
        requires
            n >= 0,
            u >= 1,
    ;
    lemma_digit_run(frac);
    assert(frac.skip(k as int) =~= Seq::<char>::empty());
    assert(frac.take(k as int) =~= frac);
    power::lemma_pow_positive(10, k);
    numeral::lemma_digits_value_bound(frac);
    let v = fraction::scaled(f as nat, scale as nat, u as nat) as int;
    fraction::lemma_scaled_is_nearest(f as nat, scale as nat, u as nat);
    assert(0 <= v <= 2_000_000_000) by (nonlinear_arith)
        requires
            v >= 0,
            2_000_000 * (v * scale - f * u) <= 1_000_001 * scale,
            0 <= f < scale,
            0 < u <= 1_000_000_000,
    ;
    assert(fraction::fraction_value(frac, u as nat) == Some(v as nat));
    assert(encoding.unit() == Some(u));
    if scale <= u {
        let all = encoding.digits()->0;
        if k > all {
            power::lemma_pow_strictly_increases(10, all, k);
        }
        let c = power::pow(10, (all - k) as nat);
        power::lemma_pow_positive(10, (all - k) as nat);
        power::lemma_pow_adds(10, k, (all - k) as nat);
        if f == 0 {
            fraction::lemma_scaled_zero(scale as nat, u as nat);
            assert(0 * scale == 0 && 0 * u == 0) by (nonlinear_arith);
        } else {
            assert(0 < f * c < u) by (nonlinear_arith)
                requires
                    0 < f < scale,
                    u == scale * c,
                    c > 0,
            ;
            fraction::lemma_scaled_exact(f as nat, scale as nat, c as nat, u as nat, (f * c) as nat);
            assert((f * c) * scale == f * u) by (nonlinear_arith)
                requires
                    u == scale * c,
            ;
        }
    }
}

/// An RFC 3339 text stands for the instant that it names, whatever white space stands around it; what
/// names none is refused.
pub proof fn law_calendar_text_names_its_instant(value: Seq<char>)
    ensures
        (match calendar::rfc3339_instant(text::trimmed(value)) {
            Some((secs, nanos)) => instant_in(value, Encoding::Rfc3339) == Ok::<int, CtclErrorModel>(
                secs * 1_000_000_000 + nanos,
            ),
            None => instant_in(value, Encoding::Rfc3339) == Err::<int, CtclErrorModel>(
                CtclErrorModel::InvalidTimeValue("unparseable rfc3339: "@ + value),
            ),
        }),
{
}

/// What is written of an instant in a unit is the shortest text: its whole units alone where nothing is
/// beyond them, and else no zero at the end.
pub proof fn law_counts_are_written_short(ns: int, encoding: Encoding, tz: Option<Seq<char>>)
    requires
        encoding != Encoding::Rfc3339,
    ensures
        text_in(ns, encoding, tz) is Ok,
        ns % counted_in(encoding) == 0 ==> text_in(ns, encoding, tz)->Ok_0 == numeral::numeral(
            ns / counted_in(encoding),
        ),
        ns % counted_in(encoding) != 0 ==> text_in(ns, encoding, tz)->Ok_0.last() != '0'
            && text_in(ns, encoding, tz)->Ok_0.contains('.'),
{
    let u = counted_in(encoding);
    let size = magnitude(ns);
    let digits = encoding.digits()->0;
    lemma_units(encoding);
    let beyond = size % (u as nat);
    let whole = size / (u as nat);
    assert(encoding.unit() == Some(u));
    vstd::arithmetic::div_mod::lemma_fundamental_div_mod(size as int, u);
    vstd::arithmetic::div_mod::lemma_fundamental_div_mod(ns, u);
    if beyond == 0 {
        let q: int = if ns < 0 {
            -(whole as int)
        } else {
            whole as int
        };
        assert(ns == q * u) by (nonlinear_arith)
            requires
                size == u * whole,
                ns == if ns < 0 {
                    -size
                } else {
                    size as int
                },
                q == if ns < 0 {
                    -(whole as int)
                } else {
                    whole as int
                },
        ;
        vstd::arithmetic::div_mod::lemma_fundamental_div_mod_converse(ns, u, q, 0);
        if ns < 0 {
            assert(q < 0) by (nonlinear_arith)
                requires
                    ns == q * u,
                    ns < 0,
                    u > 0,
            ;
        }
    } else {
        if ns % u == 0 {
            let q = ns / u;
            assert(size == u * (if ns < 0 {
                -q
            } else {
                q
            })) by (nonlinear_arith)
                requires
                    ns == u * q,
                    size == if ns < 0 {
                        -ns
                    } else {
                        ns
                    },
            ;
            vstd::arithmetic::div_mod::lemma_fundamental_div_mod_converse(
                size as int,
                u,
                if ns < 0 {
                    -q
                } else {
                    q
                },
                0,
            );
            assert(false);
        }
        let tail = numeral::without_final_zeros(numeral::padded(beyond, digits));
        lemma_fraction_reads_back(beyond, u as nat, digits);
        lemma_no_final_zero(numeral::padded(beyond, digits));
        let s = text_in(ns, encoding, tz)->Ok_0;
        let head = signed_digits(ns < 0, whole);
        reveal_strlit(".");
        assert(s[head.len() as int] == '.');
        assert(s.last() == tail.last());
    }
}

/// What is left without final zeros does not end in one.
proof fn lemma_no_final_zero(s: Seq<char>)
    ensures
        numeral::without_final_zeros(s).len() > 0 ==> numeral::without_final_zeros(s).last() != '0',
    decreases s.len(),
{
    if s.len() > 0 && s.last() == '0' {
        lemma_no_final_zero(s.drop_last());
    }
}

/// What counts units starts with a numeral, up to its decimal point if it has one: nothing else is read
/// as an instant, and without a decimal point the numeral says it all.
pub proof fn law_only_numerals_are_counted(value: Seq<char>, encoding: Encoding)
    requires
        encoding != Encoding::Rfc3339,
        instant_in(value, encoding) is Ok,
    ensures
        ({
            let s = text::trimmed(value);
            match text::split_at_char(s, '.') {
                Some((whole, _)) => numeral::signed_value(whole) is Some,
                None => numeral::signed_value(s) matches Some(n) && instant_in(value, encoding) == Ok::<
                    int,
                    CtclErrorModel,
                >(n * counted_in(encoding)),
            }
        }),
{
    let s = text::trimmed(value);
    if text::split_at_char(s, '.') is None {
        let n = numeral::signed_value(s)->0;
        let u = counted_in(encoding);
        assert(encoding.unit() == Some(u));
    }
}

} // verus!

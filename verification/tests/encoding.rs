use ctcl::clock::{now_ns, read_clock};
use ctcl::encoding::{
    convert, from_ns, from_ns_in, parse_numeric_ns, rfc3339, seconds_cut, to_ns, to_ns_in, Encoding,
    NS_PER_MS, NS_PER_S, NS_PER_US,
};
use ctcl::error::CtclError;
use ctcl::instant::{instant_view, now_view, now_view_at};
use ctcl::timescale::{gps_approx_ns, tai_approx_ns};

#[test]
fn round_trip_unix_s_fraction() {
    let ns = to_ns("1234567890.123456789", "unix_s").unwrap();
    assert_eq!(ns, 1_234_567_890_123_456_789);
    let back = from_ns(ns, "unix_s", None).unwrap();
    assert_eq!(back, "1234567890.123456789");
}

#[test]
fn round_trip_unix_ns_integer() {
    let ns = to_ns("1700000000000000000", "unix_ns").unwrap();
    assert_eq!(ns, 1_700_000_000_000_000_000);
    assert_eq!(from_ns(ns, "unix_ns", None).unwrap(), "1700000000000000000");
}

#[test]
fn ns_through_rfc3339_round_trip() {
    // 2024-01-01T00:00:00.123456789Z
    let original_ns: i128 = 1_704_067_200_123_456_789;
    let s = rfc3339(original_ns, None).unwrap();
    let back = to_ns(&s, "rfc3339").unwrap();
    assert_eq!(back, original_ns);
}

#[test]
fn taipei_offset_is_plus_eight() {
    // 2026-07-11T15:00:00Z -> Asia/Taipei is UTC+8, no DST
    let ns = to_ns("2026-07-11T15:00:00Z", "rfc3339").unwrap();
    let taipei = rfc3339(ns, Some("Asia/Taipei")).unwrap();
    assert!(taipei.starts_with("2026-07-11T23:00:00"));
    assert!(taipei.ends_with("+08:00"));
}

#[test]
fn unknown_encoding_errors() {
    let err = to_ns("1", "unix_fortnights").unwrap_err();
    assert_eq!(err.code(), "UNKNOWN_ENCODING");
}

#[test]
fn invalid_timezone_errors() {
    let err = rfc3339(0, Some("Not/AZone")).unwrap_err();
    assert_eq!(err.code(), "INVALID_TIMEZONE");
}

#[test]
fn instant_view_agrees_across_fields() {
    let ns = 1_700_000_000_500_000_000i128;
    let v = instant_view(ns).unwrap();
    assert_eq!(v.unix_ns, ns);
    assert_eq!(v.encodings.unix_s, "1700000000.5");
    assert_eq!(v.timescales.posix, v.encodings.unix_s);
}

#[test]
fn now_view_is_recent() {
    let v = now_view().unwrap();
    // sanity: should be after 2026-01-01 (1767225600) and before 2100-01-01
    assert!(v.unix_ns > 1_767_225_600 * NS_PER_S);
    assert!(v.unix_ns < 4_102_444_800 * NS_PER_S);
}

#[test]
fn tai_and_gps_offsets() {
    let utc_ns = 1_700_000_000 * NS_PER_S;
    assert_eq!(tai_approx_ns(utc_ns), utc_ns + 37 * NS_PER_S);
    assert_eq!(gps_approx_ns(utc_ns), utc_ns + 18 * NS_PER_S);
}

#[test]
fn encoding_names_ignore_case() {
    assert_eq!(Encoding::parse("UNIX_MS").unwrap(), Encoding::UnixMs);
    assert_eq!(Encoding::parse("Rfc3339").unwrap(), Encoding::Rfc3339);
    assert_eq!(to_ns("1500", "Unix_Ms").unwrap(), 1_500_000_000);
}

#[test]
fn units_have_their_lengths() {
    assert_eq!(Encoding::UnixS.unit_ns(), Some(NS_PER_S));
    assert_eq!(Encoding::UnixMs.unit_ns(), Some(NS_PER_MS));
    assert_eq!(Encoding::UnixUs.unit_ns(), Some(NS_PER_US));
    assert_eq!(Encoding::UnixNs.unit_ns(), Some(1));
    assert_eq!(Encoding::Rfc3339.unit_ns(), None);
}

#[test]
fn fractions_round_as_binary_fractions_do() {
    let cases = [
        ("0.1", 100_000_000),
        ("-0.5", -500_000_000),
        ("12.000000001", 12_000_000_001),
        ("1.9999999999", 2_000_000_000),
        ("0.0000000004", 0),
        ("0.0000000006", 1),
    ];
    for (value, expected) in cases {
        assert_eq!(parse_numeric_ns(value, 1_000_000_000).unwrap(), expected, "{}", value);
        let (whole, frac) = value.trim_start_matches('-').split_once('.').unwrap();
        let part = (format!("0.{frac}").parse::<f64>().unwrap() * 1e9).round() as i128;
        let magnitude = whole.parse::<i128>().unwrap() * 1_000_000_000 + part;
        assert_eq!(expected.abs(), magnitude, "{}", value);
    }
}

#[test]
fn counts_that_cannot_be_read_are_refused() {
    for value in ["", "abc", "1.2.3", "1e5", "--1"] {
        let err = to_ns(value, "unix_s").unwrap_err();
        assert_eq!(err.code(), "INVALID_TIME_VALUE", "{}", value);
    }
    let err = to_ns("99999999999999999999999999999999999999999", "unix_ns").unwrap_err();
    assert_eq!(err.code(), "INVALID_TIME_VALUE");
    let err = to_ns("170141183460469231731687303715884105727", "unix_s").unwrap_err();
    assert_eq!(err.code(), "INVALID_TIME_VALUE");
    assert_eq!(to_ns("not a date", "rfc3339").unwrap_err().code(), "INVALID_TIME_VALUE");
}

#[test]
fn surrounding_white_space_is_no_part_of_a_count() {
    assert_eq!(to_ns(" 1.5 ", "unix_s").unwrap(), 1_500_000_000);
}

#[test]
fn each_unit_is_written_without_final_zeros() {
    let ns = 1_234_567_890_123_450_000;
    assert_eq!(from_ns_in(ns, Encoding::UnixS, None).unwrap(), "1234567890.12345");
    assert_eq!(from_ns_in(ns, Encoding::UnixMs, None).unwrap(), "1234567890123.45");
    assert_eq!(from_ns_in(ns, Encoding::UnixUs, None).unwrap(), "1234567890123450");
    assert_eq!(from_ns_in(ns, Encoding::UnixNs, None).unwrap(), "1234567890123450000");
}

#[test]
fn positive_instants_read_back_in_every_unit() {
    for ns in [0i128, 1, 999_999_999, 1_700_000_000_000_000_001, -2_000_000_000] {
        for encoding in [Encoding::UnixS, Encoding::UnixMs, Encoding::UnixUs, Encoding::UnixNs] {
            let text = from_ns_in(ns, encoding, None).unwrap();
            assert_eq!(to_ns_in(&text, encoding).unwrap(), ns, "{}", text);
        }
    }
}

#[test]
fn an_instant_before_the_epoch_reads_back() {
    assert_eq!(from_ns(-500_000_000, "unix_s", None).unwrap(), "-0.5");
    assert_eq!(from_ns(-1_500_000_000, "unix_s", None).unwrap(), "-1.5");
    assert_eq!(from_ns(-2_000_000_000, "unix_s", None).unwrap(), "-2");
    assert_eq!(from_ns(-1, "unix_us", None).unwrap(), "-0.001");
    for ns in [-1, -500_000_000, -1_000_000_001, -1_234_567_890_123_456_789, i128::MIN, i128::MAX] {
        for encoding in ["unix_s", "unix_ms", "unix_us", "unix_ns"] {
            let text = from_ns(ns, encoding, None).unwrap();
            assert_eq!(to_ns(&text, encoding).unwrap(), ns, "{text}");
        }
    }
}

#[test]
fn an_instant_beyond_the_calendar_has_no_rfc3339_text() {
    for seconds in [1i128 << 64, -(1i128 << 64), (1i128 << 64) + 1_700_000_000, i64::MAX as i128] {
        assert_eq!(
            rfc3339(seconds * NS_PER_S, None).unwrap_err(),
            CtclError::InvalidTimeValue("instant out of representable range".to_string())
        );
    }
}

#[test]
fn rfc3339_is_written_in_utc_and_in_zones() {
    let ns = 1_783_420_000_123_456_789;
    assert_eq!(rfc3339(ns, None).unwrap(), "2026-07-07T10:26:40.123456789Z");
    assert_eq!(rfc3339(ns, Some("UTC")).unwrap(), "2026-07-07T10:26:40.123456789Z");
    assert_eq!(
        rfc3339(ns, Some("Asia/Taipei")).unwrap(),
        "2026-07-07T18:26:40.123456789+08:00"
    );
    assert_eq!(
        rfc3339(ns, Some("America/New_York")).unwrap(),
        "2026-07-07T06:26:40.123456789-04:00"
    );
}

#[test]
fn rfc3339_reads_offsets() {
    assert_eq!(
        to_ns("2026-07-07T18:26:40.123456789+08:00", "rfc3339").unwrap(),
        1_783_420_000_123_456_789
    );
    assert_eq!(to_ns("1970-01-01T00:00:00Z", "rfc3339").unwrap(), 0);
    assert_eq!(to_ns("1969-12-31T23:59:59.5Z", "rfc3339").unwrap(), -500_000_000);
}

#[test]
fn instants_beyond_the_calendar_are_out_of_range() {
    let err = rfc3339(i128::MAX, None).unwrap_err();
    assert!(matches!(err, CtclError::InvalidTimeValue(_)));
    let err = rfc3339(8_210_266_876_800 * NS_PER_S, None).unwrap_err();
    assert_eq!(err.code(), "INVALID_TIME_VALUE");
    assert!(rfc3339(8_210_266_876_799 * NS_PER_S, None).is_ok());
}

#[test]
fn seconds_are_cut_towards_zero() {
    assert_eq!(seconds_cut(1_999_999_999), 1);
    assert_eq!(seconds_cut(-1_999_999_999), -1);
    assert_eq!(seconds_cut(-1), 0);
}

#[test]
fn a_conversion_shows_the_instant_and_the_output() {
    let c = convert("1783420000.123456789", "unix_s", "rfc3339", Some("Asia/Taipei")).unwrap();
    assert_eq!(c.canonical_unix_ns, "1783420000123456789");
    assert_eq!(c.output, "2026-07-07T18:26:40.123456789+08:00");
    assert_eq!(convert("1", "unix_s", "furlongs", None).unwrap_err().code(), "UNKNOWN_ENCODING");
    assert_eq!(convert("x", "unix_s", "unix_s", None).unwrap_err().code(), "INVALID_TIME_VALUE");
}

#[test]
fn errors_say_what_was_wrong() {
    let err = to_ns("1", "unix_fortnights").unwrap_err();
    assert!(err.message().contains("unix_fortnights"));
    let err = rfc3339(0, Some("Not/AZone")).unwrap_err();
    assert!(err.message().contains("Not/AZone"));
}

#[test]
fn the_present_view_is_cut_to_milliseconds() {
    let v = now_view_at(1_700_000_000_123_456_789).unwrap();
    assert_eq!(v.unix_ns, 1_700_000_000_123_000_000);
    assert_eq!(v.encodings.unix_ms, "1700000000123");
    assert_eq!(v.encodings.rfc3339, "2023-11-14T22:13:20.123Z");
}

#[test]
fn a_view_reads_back_from_each_of_its_encodings() {
    let ns = 1_704_067_200_123_456_789;
    let v = instant_view(ns).unwrap();
    assert_eq!(to_ns(&v.encodings.unix_s, "unix_s").unwrap(), ns);
    assert_eq!(to_ns(&v.encodings.unix_ms, "unix_ms").unwrap(), ns);
    assert_eq!(to_ns(&v.encodings.unix_ns, "unix_ns").unwrap(), ns);
    assert_eq!(to_ns(&v.encodings.rfc3339, "rfc3339").unwrap(), ns);
}

#[test]
fn a_clock_reads_forward_and_back_from_the_epoch() {
    assert_eq!(read_clock(Ok(1_700_000_000_000_000_001)), 1_700_000_000_000_000_001);
    assert_eq!(read_clock(Err(5)), -5);
    assert_eq!(read_clock(Ok(0)), 0);
    assert!(now_ns() > 1_600_000_000_000_000_000);
}

use ctcl::encoding::NS_PER_S;
use ctcl::number::Number;
use ctcl::observer::{pace, wall_gap};
use ctcl::store::device::{classify_gap, sleep_wake_threshold_ms, EventKind};
use ctcl::store::error::StoreError;
use ctcl::store::groups::MemberView;
use ctcl::store::instants::uuid_of;
use ctcl::store::settings::{all_scopes, default_scopes, Scopes, Settings};
use ctcl::store::Store;
use ctcl::system::{Pause, Rate, Segment, TablePoint};
use std::collections::BTreeMap;

fn n(x: f64) -> Number {
    Number::from_bits(x.to_bits())
}

fn f(x: Number) -> f64 {
    f64::from_bits(x.to_bits())
}

fn constant(rate: f64) -> Rate {
    Rate::Constant { value: n(rate) }
}

fn names(list: &[&str]) -> Vec<String> {
    list.iter().map(|s| s.to_string()).collect()
}

#[test]
fn opens_in_memory_and_creates_schema() {
    let store = Store::open();
    assert_eq!(store.instants.len(), 0);
}

#[test]
fn register_then_retrieve_same_instant() {
    let mut store = Store::open();
    let rec = store.register_instant(1_700_000_000_500_000_000, Some("handoff"), true).unwrap();
    assert!(rec.id.starts_with("ctcl:instant:"));

    let fetched = store.get_instant(&rec.id).unwrap();
    assert_eq!(fetched.unix_ns, "1700000000500000000");
    assert_eq!(fetched.label.as_deref(), Some("handoff"));

    // also retrievable by the bare uuid, no prefix
    let bare = rec.id.trim_start_matches("ctcl:instant:");
    let fetched2 = store.get_instant(bare).unwrap();
    assert_eq!(fetched2.unix_ns, rec.unix_ns);
}

#[test]
fn unknown_instant_errors_with_correct_code() {
    let store = Store::open();
    let err = store.get_instant("ctcl:instant:does-not-exist").unwrap_err();
    assert_eq!(err.code(), "UNKNOWN_INSTANT");
}

#[test]
fn two_instants_get_ids_of_their_own() {
    let mut store = Store::open();
    let a = store.register_instant(1, None, false).unwrap();
    let b = store.register_instant(1, None, false).unwrap();
    assert_ne!(a.id, b.id);
    assert_eq!(store.instants.len(), 2);
    assert!(!a.from_wall_clock);
    assert!(a.registered_at.ends_with("+00:00"));
}

#[test]
fn an_id_that_is_taken_is_refused() {
    let mut store = Store::open();
    let uuid = "0b7e6d2c-8f5a-4c3e-9d1b-2a3b4c5d6e7f";
    store.register_instant_at(1, None, false, uuid, "t").unwrap();
    let err = store.register_instant_at(2, None, false, uuid, "t").unwrap_err();
    assert_eq!(err.code(), "STORE_UNAVAILABLE");
    assert_eq!(store.get_instant(uuid).unwrap().unix_ns, "1");
}

#[test]
fn ids_are_stripped_of_their_prefixes() {
    assert_eq!(uuid_of("ctcl:instant:abc"), "abc");
    assert_eq!(uuid_of("instant:abc"), "abc");
    assert_eq!(uuid_of("abc"), "abc");
}

#[test]
fn create_get_and_evaluate_a_system() {
    let mut store = Store::open();
    store
        .create_system("user:game_world", None, n(1_700_000_000.0), constant(20.0), n(0.0))
        .unwrap();

    let rec = store.get_system("user:game_world").unwrap();
    assert_eq!(rec.parent, "ctcl:system:unix");

    let (local, _) = store.system_now("user:game_world", n(1_700_000_100.0)).unwrap();
    assert_eq!(f(local), 2000.0);
}

#[test]
fn recreate_overwrites_definition() {
    let mut store = Store::open();
    store.create_system("s", None, n(0.0), constant(1.0), n(0.0)).unwrap();
    store.create_system("s", None, n(0.0), constant(99.0), n(0.0)).unwrap();
    let rec = store.get_system("s").unwrap();
    match rec.rate {
        Rate::Constant { value } => assert_eq!(f(value), 99.0),
        _ => panic!("expected constant rate"),
    }
}

#[test]
fn list_systems_persists_across_creates() {
    let mut store = Store::open();
    store.create_system("a", None, n(0.0), constant(1.0), n(0.0)).unwrap();
    store.create_system("b", None, n(0.0), constant(1.0), n(0.0)).unwrap();
    let ids = store.list_systems();
    assert_eq!(ids, vec!["a".to_string(), "b".to_string()]);
}

#[test]
fn unknown_system_errors_with_correct_code() {
    let store = Store::open();
    let err = store.get_system("nope").unwrap_err();
    assert_eq!(err.code(), "UNKNOWN_SYSTEM");
}

#[test]
fn systems_are_listed_in_order_whatever_order_they_came_in() {
    let mut store = Store::open();
    for id in ["zulu", "alpha", "mike"] {
        store.create_system(id, None, n(0.0), constant(1.0), n(0.0)).unwrap();
    }
    assert_eq!(store.list_systems(), names(&["alpha", "mike", "zulu"]));
}

#[test]
fn a_system_without_an_id_or_an_epoch_is_refused() {
    let mut store = Store::open();
    let err = store.create_system("  ", None, n(0.0), constant(1.0), n(0.0)).unwrap_err();
    assert!(matches!(err, StoreError::InvalidInput(_)));
    let err = store.create_system("s", None, n(f64::NAN), constant(1.0), n(0.0)).unwrap_err();
    assert_eq!(err.code(), "STORE_UNAVAILABLE");
    assert!(store.systems.is_empty());
}

#[test]
fn a_system_keeps_its_time_of_creation() {
    let mut store = Store::open();
    store.create_system_at("s", None, n(0.0), constant(1.0), n(0.0), "first").unwrap();
    let again = store.create_system_at("s", Some("p"), n(0.0), constant(2.0), n(0.0), "second").unwrap();
    assert_eq!(again.created_at, "second");
    let rec = store.get_system("s").unwrap();
    assert_eq!(rec.created_at, "first");
    assert_eq!(rec.parent, "p");
}

#[test]
fn create_bumps_version_on_repost() {
    let mut store = Store::open();
    let g1 = store.create_group("group:demo", &names(&["utc"]), None).unwrap();
    assert_eq!(g1.version, 1);
    let g2 = store.create_group("group:demo", &names(&["utc", "tai"]), None).unwrap();
    assert_eq!(g2.version, 2);
    assert_eq!(g2.members.len(), 2);
}

#[test]
fn expand_resolves_builtin_tz_and_system_members_independently() {
    let mut store = Store::open();
    store
        .create_system("user:game_world", None, n(1_700_000_000.0), constant(20.0), n(0.0))
        .unwrap();
    store
        .create_group(
            "group:demo",
            &names(&["utc", "tz:Asia/Taipei", "user:game_world", "user:nonexistent"]),
            None,
        )
        .unwrap();

    let ns: i128 = 1_700_000_100 * NS_PER_S;
    let result = store.expand_group("group:demo", ns).unwrap();
    let members = result.members;
    assert_eq!(members.len(), 4);
    assert_eq!(members[0].kind(), "builtin");
    assert_eq!(members[1].kind(), "timezone");
    assert_eq!(members[2].kind(), "system");
    match &members[2] {
        MemberView::System { value, .. } => assert_eq!(f(*value).to_string(), "2000"), // 100s elapsed * 20x
        other => panic!("expected a system, got {other:?}"),
    }
    assert_eq!(members[3].error(), Some("UNKNOWN_SYSTEM")); // graceful, not a hard failure
}

#[test]
fn empty_members_rejected() {
    let mut store = Store::open();
    let err = store.create_group("group:empty", &Vec::new(), None).unwrap_err();
    assert_eq!(err.code(), "INVALID_TIME_VALUE");
}

#[test]
fn builtin_members_show_whole_seconds() {
    let store = Store::open();
    let ns = 1_700_000_000 * NS_PER_S + 999_999_999;
    for (member, expected) in [
        ("posix", "1700000000"),
        ("tai", "1700000037"),
        ("gps", "1700000018"),
        ("utc", "2023-11-14T22:13:20.999999999Z"),
    ] {
        match store.resolve_member(member, ns) {
            MemberView::Builtin { value, .. } => assert_eq!(value, expected),
            other => panic!("expected a timescale, got {other:?}"),
        }
    }
    match store.resolve_member("tz:Asia/Taipei", ns) {
        MemberView::Timezone { timezone, value, .. } => {
            assert_eq!(timezone, "Asia/Taipei");
            assert_eq!(value, "2023-11-15T06:13:20.999999999+08:00");
        }
        other => panic!("expected a time zone, got {other:?}"),
    }
    let unknown = store.resolve_member("tz:Not/AZone", ns);
    assert_eq!(unknown.error(), Some("INVALID_TIMEZONE"));
}

#[test]
fn a_group_keeps_its_owner_where_none_is_named() {
    let mut store = Store::open();
    store.create_group("g", &names(&["utc"]), Some("alice")).unwrap();
    let again = store.create_group("g", &names(&["tai"]), None).unwrap();
    assert_eq!(again.owner.as_deref(), Some("alice"));
    let other = store.create_group("g", &names(&["gps"]), Some("bob")).unwrap();
    assert_eq!(other.owner.as_deref(), Some("bob"));
    assert_eq!(store.get_group("g").unwrap().version, 3);
    assert_eq!(store.get_group("nope").unwrap_err().code(), "UNKNOWN_GROUP");
    assert_eq!(store.list_groups(), names(&["g"]));
}

#[test]
fn defaults_are_off_by_default_per_whitepaper_7_2() {
    let mut store = Store::open();
    let settings = store.get_settings().unwrap();
    assert!(!settings.local_api_enabled, "local API must default to disabled");
    assert!(settings.is_granted("instant.read"));
    assert!(!settings.is_granted("systems.write"), "write scopes must default to off");
    assert!(!settings.is_granted("triggers.write"));
}

#[test]
fn settings_persist_across_reopen() {
    let mut store = Store::open();
    let mut settings = store.get_settings().unwrap();
    settings.local_api_enabled = true;
    settings.local_api_port = 5555;
    store.save_settings(&settings);

    let reloaded = store.get_settings().unwrap();
    assert!(reloaded.local_api_enabled);
    assert_eq!(reloaded.local_api_port, 5555);
}

#[test]
fn regenerate_token_changes_it() {
    let mut store = Store::open();
    let before = store.get_settings().unwrap().local_api_token;
    let after = store.regenerate_api_token().unwrap().local_api_token;
    assert_ne!(before, after);
}

#[test]
fn all_scopes_have_a_default_value() {
    let mut store = Store::open();
    let settings = store.get_settings().unwrap();
    for scope in all_scopes() {
        assert!(settings.scopes.contains_key(&scope), "missing default for {scope}");
    }
}

#[test]
fn a_token_is_thirty_two_hexadecimal_digits() {
    let mut store = Store::open();
    let token = store.get_settings().unwrap().local_api_token;
    assert_eq!(token.len(), 32);
    assert!(token.chars().all(|c| c.is_ascii_hexdigit() && !c.is_ascii_uppercase()));
    assert_eq!(store.get_settings().unwrap().local_api_token, token);
}

#[test]
fn a_new_token_leaves_the_other_settings() {
    let mut store = Store::open();
    let mut settings = store.get_settings().unwrap();
    settings.local_api_port = 5000;
    settings.scopes.insert("triggers.read".to_string(), true);
    store.save_settings(&settings);
    let after = store.regenerate_api_token_with("unused", "fresh").unwrap();
    assert_eq!(after.local_api_token, "fresh");
    assert_eq!(after.local_api_port, 5000);
    assert!(after.is_granted("triggers.read"));
}

#[test]
fn settings_at_the_start_have_their_values() {
    let settings = Settings::with_token("t".to_string());
    assert_eq!(settings.local_api_port, 4180);
    assert_eq!(f(settings.device_clock_drift_threshold_s), 5.0);
    assert!(settings.audit_log_enabled);
    assert!(!settings.triggers_enabled);
    assert!(!settings.device_clock_observer_enabled);
    assert!(!settings.is_granted("no.such.scope"));
    assert_eq!(default_scopes().get("instant.read"), Some(true));
    let working: Vec<&str> = Settings::status().iter().filter(|s| s.implemented).map(|s| s.key).collect();
    assert_eq!(working, ["local_api", "scopes", "audit_log", "device_clock_observer", "triggers"]);
}

#[test]
fn logs_and_lists_in_reverse_chronological_order() {
    let mut store = Store::open();
    store.log_audit("GET", "/v1/now", Some("instant.read"), true, None).unwrap();
    store
        .log_audit("POST", "/v1/systems", Some("systems.write"), false, Some("scope not granted"))
        .unwrap();

    let entries = store.list_audit_log(10);
    assert_eq!(entries.len(), 2);
    // most recent first
    assert_eq!(entries[0].path, "/v1/systems");
    assert!(!entries[0].allowed);
    assert_eq!(entries[0].reason.as_deref(), Some("scope not granted"));
    assert_eq!(entries[1].path, "/v1/now");
    assert!(entries[1].allowed);
}

#[test]
fn list_respects_limit() {
    let mut store = Store::open();
    for i in 0..5 {
        store.log_audit("GET", &format!("/v1/now/{i}"), None, true, None).unwrap();
    }
    let entries = store.list_audit_log(2);
    assert_eq!(entries.len(), 2);
}

#[test]
fn entries_are_numbered_from_one() {
    let mut store = Store::open();
    store.log_audit("GET", "/a", None, true, None).unwrap();
    store.log_audit("GET", "/b", None, true, None).unwrap();
    let entries = store.list_audit_log(10);
    assert_eq!((entries[0].id, entries[1].id), (2, 1));
}

#[test]
fn normal_gap_matching_the_requested_interval() {
    let (kind, delta) = classify_gap(20_000, 20_000, 20, n(5.0));
    assert_eq!(kind, EventKind::Normal);
    assert_eq!(delta, 0);
}

#[test]
fn small_jitter_within_drift_threshold_is_still_normal() {
    let (kind, _) = classify_gap(20_300, 20_000, 20, n(5.0)); // 0.3s off, threshold 5s
    assert_eq!(kind, EventKind::Normal);
}

#[test]
fn wall_clock_running_ahead_beyond_threshold_is_drift() {
    let (kind, delta) = classify_gap(26_000, 20_000, 20, n(5.0)); // 6s ahead, threshold 5s
    assert_eq!(kind, EventKind::Drift);
    assert_eq!(delta, 6_000);
}

#[test]
fn wall_clock_set_backward_is_rollback() {
    let (kind, delta) = classify_gap(15_000, 20_000, 20, n(5.0)); // wall is 5s BEHIND expected
    assert_eq!(kind, EventKind::Rollback);
    assert_eq!(delta, -5_000);
}

#[test]
fn tiny_negative_delta_is_jitter_not_rollback() {
    let (kind, _) = classify_gap(19_800, 20_000, 20, n(5.0)); // 0.2s behind, under the 500ms slack
    assert_eq!(kind, EventKind::Normal);
}

#[test]
fn a_huge_wall_gap_is_sleep_wake_regardless_of_monotonic_reading() {
    let (kind, _) = classify_gap(7_200_000, 7_200_000, 20, n(5.0));
    assert_eq!(kind, EventKind::SleepWake);
}

#[test]
fn a_huge_wall_gap_with_small_monotonic_gap_is_still_sleep_wake() {
    let (kind, _) = classify_gap(7_200_000, 20_000, 20, n(5.0));
    assert_eq!(kind, EventKind::SleepWake);
}

#[test]
fn sleep_wake_check_uses_wall_gap_not_the_delta() {
    let (kind, delta) = classify_gap(600_000, 599_800, 20, n(5.0));
    assert_eq!(kind, EventKind::SleepWake);
    assert_eq!(delta, 200);
}

#[test]
fn only_anomalies_are_persisted_normal_is_not() {
    let mut store = Store::open();
    store.log_device_event(EventKind::Drift, 6_000, 26_000, 20_000).unwrap();
    let events = store.list_device_events(10);
    assert_eq!(events.len(), 1);
    assert_eq!(events[0].kind, "drift");
    assert_eq!(events[0].delta_ms, 6_000);
}

#[test]
fn events_list_most_recent_first_and_respect_limit() {
    let mut store = Store::open();
    store.log_device_event(EventKind::Drift, 6_000, 26_000, 20_000).unwrap();
    store.log_device_event(EventKind::Rollback, -5_000, 15_000, 20_000).unwrap();
    store.log_device_event(EventKind::SleepWake, 0, 7_200_000, 7_200_000).unwrap();

    let all = store.list_device_events(10);
    assert_eq!(all.len(), 3);
    assert_eq!(all[0].kind, "sleep_wake"); // most recent first

    let limited = store.list_device_events(1);
    assert_eq!(limited.len(), 1);
}

#[test]
fn a_synthetic_long_gap_is_persisted_as_sleep_wake() {
    let mut store = Store::open();
    let (kind, delta) = classify_gap(7_200_000, 7_200_000, 20, n(5.0));
    store.log_device_event(kind, delta, 7_200_000, 7_200_000).unwrap();
    let events = store.list_device_events(10);
    assert_eq!(events.len(), 1);
    assert_eq!(events[0].kind, "sleep_wake");
}

#[test]
fn a_sleep_is_three_intervals_or_half_a_minute_more() {
    assert_eq!(sleep_wake_threshold_ms(20), 60_000);
    assert_eq!(sleep_wake_threshold_ms(1), 31_000);
    assert_eq!(sleep_wake_threshold_ms(0), 30_000);
    assert_eq!(sleep_wake_threshold_ms(i64::MAX as u64), i64::MAX);
}

#[test]
fn kinds_of_irregularity_have_their_names() {
    assert_eq!(EventKind::Normal.as_str(), "normal");
    assert_eq!(EventKind::Drift.as_str(), "drift");
    assert_eq!(EventKind::SleepWake.as_str(), "sleep_wake");
    assert_eq!(EventKind::Rollback.as_str(), "rollback");
}

#[test]
fn the_first_sample_and_normal_ones_leave_no_entry() {
    let mut store = Store::open();
    let first = store.take_sample(None, 20, n(5.0));
    assert_eq!((first.kind, first.wall_gap_ms, first.mono_gap_ms), (EventKind::Normal, 0, 0));
    let calm = store.take_sample(Some((20_100, 20_000)), 20, n(5.0));
    assert_eq!((calm.kind, calm.delta_ms), (EventKind::Normal, 100));
    assert!(store.device_events.is_empty());
    let odd = store.take_sample(Some((26_000, 20_000)), 20, n(5.0));
    assert_eq!(odd.kind, EventKind::Drift);
    assert_eq!(store.list_device_events(10)[0].kind, "drift");
    assert_eq!(store.device_events.len(), 1);
}

#[test]
fn gaps_carry_their_direction() {
    assert_eq!(wall_gap(Ok(1500)), 1500);
    assert_eq!(wall_gap(Err(1500)), -1500);
}

#[test]
fn rounds_are_at_least_a_second_apart() {
    assert_eq!(pace(0), 1);
    assert_eq!(pace(7), 7);
}

#[test]
fn a_rate_that_is_no_finite_number_cannot_be_read_again() {
    let mut store = Store::open();
    let unreadable = vec![
        constant(f64::INFINITY),
        constant(f64::NAN),
        Rate::Piecewise { segments: vec![Segment { until: None, rate: n(f64::NEG_INFINITY) }] },
        Rate::Paused { value: n(1.0), pauses: vec![Pause { from: n(f64::NAN), to: None }] },
        Rate::Table { table: vec![TablePoint { parent: n(0.0), local: n(f64::INFINITY) }] },
    ];
    for rate in unreadable {
        assert!(store.create_system("s", None, n(0.0), rate, n(0.0)).is_ok());
        let err = store.get_system("s").unwrap_err();
        assert_eq!(err, StoreError::Json("invalid type: null, expected f64".to_string()));
        assert_eq!(err.message(), "serialization error: invalid type: null, expected f64");
        assert!(store.system_now("s", n(1.0)).is_err());
        assert_eq!(store.list_systems(), names(&["s"]));
    }
    store.create_system("s", None, n(0.0), constant(2.0), n(0.0)).unwrap();
    assert_eq!(f(store.system_now("s", n(1.0)).unwrap().0), 2.0);
}

#[test]
fn an_end_that_is_no_finite_number_is_none() {
    let mut store = Store::open();
    let rate = Rate::Paused { value: n(1.0), pauses: vec![Pause { from: n(5.0), to: Some(n(f64::NAN)) }] };
    store.create_system("s", None, n(0.0), rate, n(0.0)).unwrap();
    let (local, extra) = store.system_now("s", n(9.0)).unwrap();
    assert_eq!(f(local), 5.0);
    assert_eq!(extra.currently_paused, Some(true));
    let rate = Rate::Piecewise { segments: vec![Segment { until: Some(n(f64::NEG_INFINITY)), rate: n(3.0) }] };
    store.create_system("t", None, n(0.0), rate, n(0.0)).unwrap();
    match store.get_system("t").unwrap().rate {
        Rate::Piecewise { segments } => assert!(segments[0].until.is_none()),
        other => panic!("expected segments, got {other:?}"),
    }
}

#[test]
fn a_missing_threshold_is_explained_with_its_column() {
    let told = serde_json::from_str::<BTreeMap<String, f64>>(r#"{"a":null}"#).unwrap_err();
    assert_eq!(told.to_string(), "invalid type: null, expected f64 at line 1 column 9");

    for token in ["abc", "a \"quoted\" word\n", "caf\u{e9}"] {
        let mut store = Store::open();
        let mut settings = Settings::with_token(token.to_string());
        settings.device_clock_drift_threshold_s = n(f64::NAN);
        settings.scopes = Scopes { entries: Vec::new() };
        settings.scopes.insert("time.read".to_string(), true);
        settings.scopes.insert("a".to_string(), false);
        store.save_settings(&settings);
        let quoted = serde_json::to_string(token).unwrap();
        let saved = format!(
            "{{\"local_api_enabled\":false,\"local_api_port\":4180,\"local_api_token\":{quoted},\
             \"scopes\":{{\"a\":false,\"time.read\":true}},\"audit_log_enabled\":true,\
             \"device_clock_observer_enabled\":false,\"device_clock_drift_threshold_s\":null"
        );
        let reason = format!("invalid type: null, expected f64 at line 1 column {}", saved.len());
        assert_eq!(store.get_settings().unwrap_err(), StoreError::Json(reason.clone()));
        assert_eq!(store.regenerate_api_token().unwrap_err(), StoreError::Json(reason));
    }
}

#[test]
fn settings_with_a_threshold_that_is_no_finite_number_cannot_be_read_again() {
    let mut store = Store::open();
    let mut settings = store.get_settings().unwrap();
    settings.device_clock_drift_threshold_s = n(f64::INFINITY);
    store.save_settings(&settings);
    assert!(matches!(store.get_settings(), Err(StoreError::Json(_))));
    assert!(matches!(store.regenerate_api_token(), Err(StoreError::Json(_))));
    settings.device_clock_drift_threshold_s = n(2.5);
    store.save_settings(&settings);
    assert_eq!(f(store.get_settings().unwrap().device_clock_drift_threshold_s), 2.5);
}

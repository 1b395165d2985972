use ctcl::api::handler::Moment;
use ctcl::background::Tasks;
use ctcl::commands::{
    group_create, group_expand, group_get, instant_get, instant_register, parse_db_path, read_instant,
    system_create, system_get, system_now, system_now_at, Failure,
};
use ctcl::error::CtclError;
use ctcl::number::Number;
use ctcl::numeral::{explain_failure, i128_text, parse_i128};
use ctcl::store::error::StoreError;
use ctcl::store::settings::{all_scopes, Settings};
use ctcl::store::triggers::{ActionKind, TriggerStatus};
use ctcl::store::wake_events::{Detail, WakeEvent, WakeEventStatus};
use ctcl::store::Store;
use ctcl::tools::{fmt_core_err, fmt_store_err, ToolCall, ToolOutput, TriggerInput};

fn n(x: f64) -> Number {
    Number::from_bits(x.to_bits())
}

fn f(x: Number) -> f64 {
    f64::from_bits(x.to_bits())
}

fn store_with_scopes(granted: &[String]) -> Store {
    let mut store = Store::open();
    let mut settings = store.get_settings().unwrap();
    for scope in granted {
        settings.scopes.insert(scope.to_string(), true);
    }
    store.save_settings(&settings);
    store
}

fn store_with_every_scope_granted() -> Store {
    store_with_scopes(&all_scopes())
}

fn wake(store: &mut Store, agent_id: &str, key: &str) -> WakeEvent {
    let empty = || Detail::Json("{}".to_string());
    store.create_wake_event(agent_id, None, "r", empty(), empty(), empty(), key).unwrap()
}

fn notification(id: &str, target_value: f64, text: &str) -> ToolCall {
    ToolCall::CreateTrigger(TriggerInput {
        id: id.to_string(),
        kind: "common_instant".to_string(),
        system_id: None,
        operator: ">=".to_string(),
        target_value: n(target_value),
        action_kind: "notification".to_string(),
        action_target: text.to_string(),
    })
}

#[test]
fn now_returns_a_real_instant_view() {
    let mut store = store_with_every_scope_granted();
    match store.call_tool(&ToolCall::Now).unwrap() {
        ToolOutput::Now(v) => {
            assert!(v.unix_ns > 0, "expected an InstantView with unix_ns");
            assert_eq!(v.encodings.unix_ns, i128_text(v.unix_ns));
            assert_eq!(v.timescales.utc, v.encodings.rfc3339);
        }
        other => panic!("expected the instant, got {other:?}"),
    }
}

// triggers.write is off by default - a real test of refusal, unlike instant.read, which is granted
// from the start.
#[test]
fn write_tool_is_refused_without_the_scope() {
    let mut store = store_with_scopes(&[]);
    let err = store.call_tool(&notification("t", 1.0, "x")).unwrap_err();
    assert!(err.starts_with("SCOPE_NOT_GRANTED"), "got: {err}");
}

#[test]
fn scope_refusal_is_audit_logged() {
    let mut store = store_with_scopes(&[]);
    store.call_tool(&ToolCall::ListTriggers).unwrap_err(); // triggers.read is also off by default
    let entries = store.list_audit_log(10);
    assert_eq!(entries.len(), 1);
    assert!(!entries[0].allowed);
    assert_eq!(entries[0].path, "ctcl.list_triggers");
}

#[test]
fn convert_round_trips_a_value() {
    let mut store = store_with_every_scope_granted();
    let call = ToolCall::Convert {
        value: "1783420000.123456789".to_string(),
        from: "unix_s".to_string(),
        to: "rfc3339".to_string(),
        tz: Some("Asia/Taipei".to_string()),
    };
    match store.call_tool(&call).unwrap() {
        ToolOutput::Converted(c) => assert_eq!(c.output, "2026-07-07T18:26:40.123456789+08:00"),
        other => panic!("expected a conversion, got {other:?}"),
    }
}

#[test]
fn register_then_get_instant_round_trips() {
    let mut store = store_with_every_scope_granted();
    let call = ToolCall::RegisterInstant {
        unix_ns: Some("1700000000000000000".to_string()),
        label: Some("test".to_string()),
    };
    let id = match store.call_tool(&call).unwrap() {
        ToolOutput::Instant(rec) => rec.id,
        other => panic!("expected an instant, got {other:?}"),
    };

    match store.call_tool(&ToolCall::GetInstant { id }).unwrap() {
        ToolOutput::Instant(fetched) => {
            assert_eq!(fetched.unix_ns, "1700000000000000000");
            assert_eq!(fetched.label.as_deref(), Some("test"));
        }
        other => panic!("expected an instant, got {other:?}"),
    }
}

#[test]
fn create_trigger_then_list_and_cancel() {
    let mut store = store_with_every_scope_granted();
    store.call_tool(&notification("trigger:mcp-test", 9_999_999_999.0, "hi")).unwrap();

    match store.call_tool(&ToolCall::ListTriggers).unwrap() {
        ToolOutput::Triggers(listed) => assert!(listed.iter().any(|t| t.id == "trigger:mcp-test")),
        other => panic!("expected triggers, got {other:?}"),
    }

    match store.call_tool(&ToolCall::CancelTrigger { id: "trigger:mcp-test".to_string() }).unwrap() {
        ToolOutput::Trigger(cancelled) => assert_eq!(cancelled.status, TriggerStatus::Cancelled),
        other => panic!("expected a trigger, got {other:?}"),
    }
}

#[test]
fn schedule_pulse_creates_an_agent_wake_trigger_due_soon() {
    let mut store = store_with_every_scope_granted();
    let call =
        ToolCall::SchedulePulse { agent_id: "agent:primary".to_string(), after_seconds: n(1.0), id: None };
    match store.call_tool(&call).unwrap() {
        ToolOutput::Trigger(t) => {
            assert_eq!(t.action.kind, ActionKind::AgentWake);
            assert_eq!(t.action.target, "agent:primary");
            assert!(t.id.starts_with("trigger:pulse:"));
        }
        other => panic!("expected a trigger, got {other:?}"),
    }
}

#[test]
fn schedule_pulse_rejects_non_positive_after_seconds() {
    let mut store = store_with_every_scope_granted();
    let call =
        ToolCall::SchedulePulse { agent_id: "agent:primary".to_string(), after_seconds: n(0.0), id: None };
    let err = store.call_tool(&call).unwrap_err();
    assert!(err.starts_with("INVALID_TIME_VALUE"), "got: {err}");
}

#[test]
fn wake_event_ack_and_complete_flow() {
    let mut store = store_with_every_scope_granted();
    let event_id = wake(&mut store, "agent:primary", "k1").event_id;

    let too_early = store.call_tool(&ToolCall::CompleteWakeEvent { event_id: event_id.clone() });
    assert!(too_early.is_err(), "must not complete before ack");

    match store.call_tool(&ToolCall::AckWakeEvent { event_id: event_id.clone() }).unwrap() {
        ToolOutput::WakeEvent(acked) => assert_eq!(acked.status, WakeEventStatus::Acknowledged),
        other => panic!("expected an event, got {other:?}"),
    }

    match store.call_tool(&ToolCall::CompleteWakeEvent { event_id }).unwrap() {
        ToolOutput::WakeEvent(completed) => assert_eq!(completed.status, WakeEventStatus::Completed),
        other => panic!("expected an event, got {other:?}"),
    }
}

#[test]
fn list_wake_events_filters_by_agent_and_status() {
    let mut store = store_with_every_scope_granted();
    wake(&mut store, "agent:a", "k1");
    wake(&mut store, "agent:b", "k2");
    let call = ToolCall::ListWakeEvents { agent_id: Some("agent:a".to_string()), status: None };
    match store.call_tool(&call).unwrap() {
        ToolOutput::WakeEvents(filtered) => {
            assert!(filtered.iter().any(|e| e.agent_id == "agent:a"));
            assert!(!filtered.iter().any(|e| e.agent_id == "agent:b"));
        }
        other => panic!("expected events, got {other:?}"),
    }
}

#[test]
fn create_system_then_system_now() {
    let mut store = store_with_every_scope_granted();
    let id = "agent:a:active-time".to_string();
    let call = ToolCall::CreateSystem {
        id: id.clone(),
        epoch_parent_sec: n(1_700_000_000.0),
        rate: n(1.0),
        offset: n(0.0),
    };
    store.call_tool(&call).unwrap();
    match store.call_tool(&ToolCall::SystemNow { id }).unwrap() {
        ToolOutput::LocalTime { current_local_seconds, .. } => assert!(f(current_local_seconds) > 0.0),
        other => panic!("expected a local time, got {other:?}"),
    }
}

#[test]
fn a_pulse_is_due_after_its_seconds() {
    let mut store = store_with_every_scope_granted();
    let m = Moment {
        token: "0123456789abcdef0123456789abcdef".to_string(),
        audited_at: "2023-11-14T22:13:20+00:00".to_string(),
        now: "2023-11-14T22:13:20+00:00".to_string(),
        now_ns: 1_700_000_000_500_000_000,
        uuid: "0b7e6d2c-8f5a-4c3e-9d1b-2a3b4c5d6e7f".to_string(),
    };
    let call = ToolCall::SchedulePulse { agent_id: "a".to_string(), after_seconds: n(2.25), id: None };
    match store.call_tool_at(&call, &m).unwrap() {
        ToolOutput::Trigger(t) => {
            assert_eq!(f(t.target_value), 1_700_000_002.75);
            assert_eq!(t.id, "trigger:pulse:0b7e6d2c-8f5a-4c3e-9d1b-2a3b4c5d6e7f");
            assert_eq!(t.created_at, m.now);
        }
        other => panic!("expected a trigger, got {other:?}"),
    }
}

#[test]
fn what_is_no_numeral_is_explained() {
    let mut store = store_with_every_scope_granted();
    for (text, why) in [
        ("", "cannot parse integer from empty string"),
        ("-", "invalid digit found in string"),
        ("12x", "invalid digit found in string"),
        ("170141183460469231731687303715884105728", "number too large to fit in target type"),
        ("-170141183460469231731687303715884105729", "number too small to fit in target type"),
        ("999999999999999999999999999999999999999999x", "number too large to fit in target type"),
    ] {
        assert_eq!(text.parse::<i128>().unwrap_err().to_string(), why);
        assert_eq!(explain_failure(text), why);
        assert_eq!(parse_i128(text), None);
        let call = ToolCall::RegisterInstant { unix_ns: Some(text.to_string()), label: None };
        assert_eq!(store.call_tool(&call).unwrap_err(), format!("INVALID_TIME_VALUE: {why}"));
    }
    assert_eq!(parse_i128("-170141183460469231731687303715884105728"), Some(i128::MIN));
    assert_eq!(parse_i128("+7"), Some(7));
}

#[test]
fn an_instant_without_a_value_is_the_present_one() {
    let mut store = store_with_every_scope_granted();
    let call = ToolCall::RegisterInstant { unix_ns: None, label: None };
    match store.call_tool(&call).unwrap() {
        ToolOutput::Instant(rec) => {
            assert!(rec.from_wall_clock);
            assert!(parse_i128(&rec.unix_ns).unwrap() > 1_767_225_600_000_000_000);
        }
        other => panic!("expected an instant, got {other:?}"),
    }
}

#[test]
fn each_tool_has_a_name_and_a_scope() {
    let id = || "x".to_string();
    let calls = [
        (ToolCall::Now, "ctcl.now", "instant.read"),
        (
            ToolCall::Convert { value: id(), from: id(), to: id(), tz: None },
            "ctcl.convert",
            "convert.execute",
        ),
        (
            ToolCall::RegisterInstant { unix_ns: None, label: None },
            "ctcl.register_instant",
            "instant.create",
        ),
        (ToolCall::GetInstant { id: id() }, "ctcl.get_instant", "instant.read"),
        (ToolCall::ListSystems, "ctcl.list_systems", "systems.read"),
        (ToolCall::SystemNow { id: id() }, "ctcl.system_now", "systems.read"),
        (
            ToolCall::CreateSystem { id: id(), epoch_parent_sec: n(0.0), rate: n(1.0), offset: n(0.0) },
            "ctcl.create_system",
            "systems.write",
        ),
        (ToolCall::ExpandGroup { id: id() }, "ctcl.expand_group", "groups.read"),
        (notification("t", 1.0, "x"), "ctcl.create_trigger", "triggers.write"),
        (ToolCall::ListTriggers, "ctcl.list_triggers", "triggers.read"),
        (ToolCall::CancelTrigger { id: id() }, "ctcl.cancel_trigger", "triggers.cancel"),
        (
            ToolCall::ListWakeEvents { agent_id: None, status: None },
            "ctcl.list_wake_events",
            "wake_events.read",
        ),
        (ToolCall::AckWakeEvent { event_id: id() }, "ctcl.ack_wake_event", "wake_events.ack"),
        (
            ToolCall::CompleteWakeEvent { event_id: id() },
            "ctcl.complete_wake_event",
            "wake_events.complete",
        ),
        (
            ToolCall::SchedulePulse { agent_id: id(), after_seconds: n(1.0), id: None },
            "ctcl.schedule_pulse",
            "triggers.write",
        ),
    ];
    assert_eq!(calls.len(), 15);
    let scopes = all_scopes();
    for (call, name, scope) in &calls {
        assert_eq!(call.name(), *name);
        assert_eq!(call.scope(), *scope);
        assert!(scopes.contains(&scope.to_string()), "{scope}");
    }
}

#[test]
fn errors_of_tools_are_one_line() {
    assert_eq!(
        fmt_store_err(StoreError::UnknownSystem("s".to_string())),
        "UNKNOWN_SYSTEM: unknown system: s"
    );
    let line = fmt_core_err(CtclError::UnknownEncoding("x".to_string()));
    assert!(line.starts_with("UNKNOWN_ENCODING: "), "{line}");
    let mut store = store_with_every_scope_granted();
    let err = store.call_tool(&ToolCall::SystemNow { id: "nope".to_string() }).unwrap_err();
    assert!(err.starts_with("UNKNOWN_SYSTEM: "), "{err}");
    let err = store.call_tool(&ToolCall::ExpandGroup { id: "nope".to_string() }).unwrap_err();
    assert!(err.starts_with("UNKNOWN_GROUP: "), "{err}");
}

#[test]
fn the_command_line_registers_what_is_named() {
    let mut store = Store::open();
    let rec = instant_register(&mut store, Some("1700000000.5"), "unix_s", Some("l")).unwrap();
    assert_eq!(rec.unix_ns, "1700000000500000000");
    assert!(!rec.from_wall_clock);
    assert_eq!(instant_get(&store, &rec.id).unwrap().label.as_deref(), Some("l"));
    let shown = store.choose_instant_to_show(Some(&rec.id), None, "unix_s", 0).unwrap();
    assert_eq!(shown, 1_700_000_000_500_000_000);
    let now = instant_register(&mut store, None, "unix_s", None).unwrap();
    assert!(now.from_wall_clock);
    match instant_register(&mut store, Some("x"), "unix_s", None).unwrap_err() {
        Failure::Line(line) => assert!(line.starts_with("invalid value: "), "{line}"),
        other => panic!("expected a line, got {other:?}"),
    }
    match instant_get(&store, "nope").unwrap_err() {
        Failure::Coded { code, message } => {
            assert_eq!(code, "UNKNOWN_INSTANT");
            assert_eq!(message, "unknown instant: nope");
        }
        other => panic!("expected a code, got {other:?}"),
    }
}

#[test]
fn the_command_line_defines_systems_and_groups() {
    let mut store = Store::open();
    let rec = system_create(&mut store, "s", "1700000000", n(20.0), n(1.0)).unwrap();
    assert_eq!(f(rec.epoch_parent_sec), 1_700_000_000.0);
    assert_eq!(system_get(&store, "s").unwrap().id, "s");
    let (local, _) = system_now_at(&store, "s", 1_700_000_100_000_000_000).unwrap();
    assert_eq!(f(local), 2001.0);
    assert!(f(system_now(&store, "s").unwrap().0) > 2001.0);
    let (record, local, _) = store.system_at("s", 1_700_000_100_000_000_000).unwrap();
    assert_eq!((record.id.as_str(), f(local)), ("s", 2001.0));
    match system_create(&mut store, "s", "never", n(1.0), n(0.0)).unwrap_err() {
        Failure::Line(line) => assert!(line.starts_with("invalid epoch: "), "{line}"),
        other => panic!("expected a line, got {other:?}"),
    }
    let group = group_create(&mut store, "g", &vec!["s".to_string()]).unwrap();
    assert_eq!((group.version, group.owner), (1, None));
    assert_eq!(group_get(&store, "g").unwrap().members, vec!["s".to_string()]);
    let shown = group_expand(&store, "g", 1_700_000_100_000_000_000).unwrap();
    assert_eq!(shown.unix_ns, "1700000100000000000");
    assert_eq!(shown.members.len(), 1);
}

#[test]
fn a_group_is_shown_at_the_instant_that_comes_first() {
    let mut store = Store::open();
    let rec = instant_register(&mut store, Some("5"), "unix_s", None).unwrap();
    let show = |id: Option<&str>, value: Option<&str>| store.choose_instant_to_show(id, value, "unix_s", 9);
    assert_eq!(show(Some(&rec.id), Some("7")).unwrap(), 5_000_000_000);
    assert_eq!(show(None, Some("7")).unwrap(), 7_000_000_000);
    assert_eq!(show(None, None).unwrap(), 9);
    assert!(show(Some("nope"), None).is_err());
    assert_eq!(read_instant(None, "unix_s", 3).unwrap(), (3, true));
}

#[test]
fn the_registry_file_follows_its_option() {
    let args = |list: &[&str]| list.iter().map(|s| s.to_string()).collect::<Vec<String>>();
    assert_eq!(parse_db_path(&args(&["ctcl-mcp"])), "ctcl-desktop-data.sqlite3");
    assert_eq!(parse_db_path(&args(&["ctcl-mcp", "--db", "/tmp/x"])), "/tmp/x");
    assert_eq!(parse_db_path(&args(&["ctcl-mcp", "--db"])), "ctcl-desktop-data.sqlite3");
    assert_eq!(parse_db_path(&args(&["ctcl-mcp", "--db", "--db", "y"])), "--db");
}

#[test]
fn background_tasks_run_as_settings_say() {
    let mut settings = Settings::with_token("t".to_string());
    let none = Tasks::wanted(&settings);
    assert_eq!((none.local_api, none.trigger_engine, none.wake_delivery), (None, None, None));
    assert!(none.device_observer.is_none());
    settings.local_api_enabled = true;
    settings.local_api_port = 4444;
    settings.device_clock_observer_enabled = true;
    settings.device_clock_sample_interval_s = 0;
    settings.triggers_enabled = true;
    settings.trigger_check_interval_s = 9;
    settings.wake_delivery_enabled = true;
    let all = Tasks::wanted(&settings);
    assert_eq!((all.local_api, all.trigger_engine, all.wake_delivery), (Some(4444), Some(9), Some(5)));
    let (interval_s, drift) = all.device_observer.unwrap();
    assert_eq!((interval_s, f(drift)), (1, 5.0));
}

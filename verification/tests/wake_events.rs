use ctcl::delivery::{evaluate_once, DeliveryStep, RealWakeDispatcher, WakeDispatcher};
use ctcl::number::Number;
use ctcl::store::delivery::{stamp_text, DeliveryPolicy};
use ctcl::store::endpoints::{url_host, AgentEndpoint};
use ctcl::store::error::StoreError;
use ctcl::store::triggers::{ActionKind, Operator, Trigger, TriggerAction, TriggerKind};
use ctcl::store::wake_events::{Detail, WakeEvent, WakeEventStatus};
use ctcl::store::Store;
use ctcl::system::Rate;
use std::cell::RefCell;

fn n(x: f64) -> Number {
    Number::from_bits(x.to_bits())
}

fn f(x: Number) -> f64 {
    f64::from_bits(x.to_bits())
}

fn json(text: &str) -> Detail {
    Detail::Json(text.to_string())
}

fn wake(store: &mut Store, agent_id: &str, key: &str) -> WakeEvent {
    store.create_wake_event(agent_id, None, "r", json("{}"), json("{}"), json("{}"), key).unwrap()
}

fn no_path() -> Result<String, String> {
    Err("not looked up".to_string())
}

fn loopback(store: &mut Store, agent_id: &str, url: &str) -> Result<AgentEndpoint, StoreError> {
    store.create_agent_endpoint(agent_id, "loopback_http", url, None, &Vec::new(), &no_path())
}

fn observed(event: &WakeEvent) -> (f64, f64) {
    match &event.observed {
        Detail::Observed { target_value, observed_value, .. } => (f(*observed_value), f(*target_value)),
        other => panic!("expected an observed value, got {other:?}"),
    }
}

fn wake_trigger(store: &mut Store, id: &str, target: f64) -> Trigger {
    let action = TriggerAction { kind: ActionKind::AgentWake, target: "agent:primary".into() };
    store
        .create_trigger(id, TriggerKind::CommonInstant, None, Operator::Ge, n(target), action)
        .unwrap()
}

const POLICY: DeliveryPolicy = DeliveryPolicy { max_attempts: 5, base_delay_s: 30, max_delay_s: 3600 };

const NOW: &str = "2030-01-01T00:00:00+00:00";

struct FakeWakeDispatcher {
    calls: RefCell<Vec<(String, String)>>, // (agent_id, event_id)
    should_succeed: bool,
}

impl FakeWakeDispatcher {
    fn new(should_succeed: bool) -> Self {
        FakeWakeDispatcher { calls: RefCell::new(Vec::new()), should_succeed }
    }
}

impl WakeDispatcher for FakeWakeDispatcher {
    fn deliver(&self, endpoint: &AgentEndpoint, event: &WakeEvent) -> Result<(), String> {
        self.calls.borrow_mut().push((endpoint.agent_id.clone(), event.event_id.clone()));
        if self.should_succeed {
            Ok(())
        } else {
            Err("simulated failure".to_string())
        }
    }
}

fn grant_dispatch(store: &mut Store) {
    let mut settings = store.get_settings().unwrap();
    settings.scopes.insert("agent_wake.dispatch".to_string(), true);
    store.save_settings(&settings);
}

fn store_with_dispatch_allowed_and_endpoint(agent_id: &str) -> Store {
    let mut store = Store::open();
    grant_dispatch(&mut store);
    loopback(&mut store, agent_id, "http://127.0.0.1:4400/wake").unwrap();
    store.set_agent_endpoint_enabled(agent_id, true).unwrap();
    store
}

#[test]
fn create_then_get_round_trips() {
    let mut store = Store::open();
    let ev = store
        .create_wake_event(
            "agent:primary",
            Some("trigger:hourly-review"),
            "temporal_condition_satisfied",
            json(r#"{"unix_s":1784422800.0,"source":"local_temporal_port"}"#),
            json(r#"{"operator":">=","target_value":1784422800.0,"observed_value":1784422800.5}"#),
            json(r#"{"goal_refs":["goal:ctcl-development"]}"#),
            "trigger:hourly-review",
        )
        .unwrap();
    assert_eq!(ev.status, WakeEventStatus::Pending);
    assert_eq!(ev.agent_id, "agent:primary");
    assert_eq!(ev.attempt_count, 0);

    let fetched = store.get_wake_event(&ev.event_id).unwrap();
    assert_eq!(fetched.event_id, ev.event_id);
    match &fetched.payload {
        Detail::Json(text) => {
            let payload: serde_json::Value = serde_json::from_str(text).unwrap();
            assert_eq!(payload["goal_refs"][0], "goal:ctcl-development");
        }
        other => panic!("expected JSON, got {other:?}"),
    }
}

#[test]
fn duplicate_idempotency_key_returns_existing_not_a_second_row() {
    let mut store = Store::open();
    let a = wake(&mut store, "agent:primary", "same-key");
    let b = wake(&mut store, "agent:primary", "same-key");
    assert_eq!(a.event_id, b.event_id, "second create with the same idempotency_key must return the same event");
    assert_eq!(store.list_wake_events(None, None).len(), 1);
}

#[test]
fn ack_transitions_pending_to_acknowledged() {
    let mut store = Store::open();
    let ev = wake(&mut store, "agent:primary", "k1");
    let acked = store.ack_wake_event(&ev.event_id).unwrap();
    assert_eq!(acked.status, WakeEventStatus::Acknowledged);
    assert!(acked.acknowledged_at.is_some());
}

#[test]
fn ack_is_not_repeatable() {
    let mut store = Store::open();
    let ev = wake(&mut store, "agent:primary", "k1");
    store.ack_wake_event(&ev.event_id).unwrap();
    let err = store.ack_wake_event(&ev.event_id).unwrap_err();
    assert!(matches!(err, StoreError::InvalidInput(_)), "acking an already-acknowledged event must fail");
}

#[test]
fn complete_requires_prior_ack() {
    let mut store = Store::open();
    let ev = wake(&mut store, "agent:primary", "k1");
    let err = store.complete_wake_event(&ev.event_id).unwrap_err();
    assert!(matches!(err, StoreError::InvalidInput(_)), "completing straight from pending must be rejected");
}

#[test]
fn complete_transitions_acknowledged_to_completed() {
    let mut store = Store::open();
    let ev = wake(&mut store, "agent:primary", "k1");
    store.ack_wake_event(&ev.event_id).unwrap();
    let completed = store.complete_wake_event(&ev.event_id).unwrap();
    assert_eq!(completed.status, WakeEventStatus::Completed);
    assert!(completed.completed_at.is_some());
}

#[test]
fn complete_is_not_repeatable() {
    let mut store = Store::open();
    let ev = wake(&mut store, "agent:primary", "k1");
    store.ack_wake_event(&ev.event_id).unwrap();
    store.complete_wake_event(&ev.event_id).unwrap();
    let err = store.complete_wake_event(&ev.event_id).unwrap_err();
    assert!(matches!(err, StoreError::InvalidInput(_)), "completing an already-completed event must fail");
}

#[test]
fn list_filters_by_agent_and_status() {
    let mut store = Store::open();
    wake(&mut store, "agent:a", "k1");
    let b = wake(&mut store, "agent:b", "k2");
    store.ack_wake_event(&b.event_id).unwrap();

    assert_eq!(store.list_wake_events(Some("agent:a"), None).len(), 1);
    assert_eq!(store.list_wake_events(None, Some(WakeEventStatus::Pending)).len(), 1);
    assert_eq!(store.list_wake_events(None, Some(WakeEventStatus::Acknowledged)).len(), 1);
    assert_eq!(store.list_wake_events(None, None).len(), 2);
}

#[test]
fn unknown_event_id_errors() {
    let store = Store::open();
    let err = store.get_wake_event("wake:does-not-exist").unwrap_err();
    assert!(matches!(err, StoreError::InvalidInput(_)));
}

#[test]
fn from_trigger_creates_a_wake_event_for_common_instant() {
    let mut store = Store::open();
    let t = wake_trigger(&mut store, "trigger:wake-me", 1_700_000_000.0);

    let ev = store.create_wake_event_from_trigger(&t, n(1_700_000_001.0)).unwrap();
    assert_eq!(ev.agent_id, "agent:primary");
    assert_eq!(ev.trigger_id.as_deref(), Some("trigger:wake-me"));
    assert_eq!(ev.status, WakeEventStatus::Pending);
    let (observed_value, target_value) = observed(&ev);
    assert_eq!(observed_value, 1_700_000_001.0);
    assert_eq!(target_value, 1_700_000_000.0);
}

#[test]
fn from_trigger_is_idempotent_across_retries_of_the_same_arming() {
    let mut store = Store::open();
    let t = wake_trigger(&mut store, "trigger:wake-me", 1_700_000_000.0);

    let a = store.create_wake_event_from_trigger(&t, n(1_700_000_001.0)).unwrap();
    let b = store.create_wake_event_from_trigger(&t, n(1_700_000_002.0)).unwrap();
    assert_eq!(a.event_id, b.event_id, "re-evaluating the same still-active trigger must not create a second WakeEvent");
    assert_eq!(store.list_wake_events(None, None).len(), 1);
}

#[test]
fn an_arming_keeps_its_event_whatever_happens_to_it() {
    let mut store = Store::open();
    let t = wake_trigger(&mut store, "trigger:wake-me", 1_700_000_000.0);
    let a = store.create_wake_event_from_trigger(&t, n(1_700_000_001.0)).unwrap();
    assert_eq!(a.idempotency_key, format!("trigger-fire:trigger:wake-me:{}", t.created_at));
    wake(&mut store, "agent:other", "another-key");
    store.mark_fired("trigger:wake-me");
    store.ack_wake_event(&a.event_id).unwrap();
    store.complete_wake_event(&a.event_id).unwrap();
    let b = store.create_wake_event_from_trigger(&t, n(1_700_000_900.0)).unwrap();
    assert_eq!(b.event_id, a.event_id);
    assert_eq!(b.status, WakeEventStatus::Completed);
    assert_eq!(store.list_wake_events(None, None).len(), 2);
}

#[test]
fn a_rearmed_trigger_leaves_another_event() {
    let mut store = Store::open();
    let t = wake_trigger(&mut store, "trigger:wake-me", 1_700_000_000.0);
    let a = store.create_wake_event_from_trigger(&t, n(1_700_000_001.0)).unwrap();
    store.mark_fired("trigger:wake-me");
    let action = TriggerAction { kind: ActionKind::AgentWake, target: "agent:primary".into() };
    let rearmed = store
        .create_trigger_at(
            "trigger:wake-me",
            TriggerKind::CommonInstant,
            None,
            Operator::Ge,
            n(1_700_000_000.0),
            action,
            NOW,
        )
        .unwrap();
    let c = store.create_wake_event_from_trigger(&rearmed, n(1_700_000_001.0)).unwrap();
    assert_eq!(c.idempotency_key, format!("trigger-fire:trigger:wake-me:{NOW}"));
    assert_ne!(c.event_id, a.event_id);
    assert_eq!(store.list_wake_events(None, None).len(), 2);
    assert_eq!(store.create_wake_event_from_trigger(&t, n(1_700_000_002.0)).unwrap().event_id, a.event_id);
    assert_eq!(store.list_wake_events(None, None).len(), 2);
}

#[test]
fn from_trigger_uses_the_live_local_value_for_custom_time() {
    let mut store = Store::open();
    store
        .create_system("agent:a:active-time", None, n(1_700_000_000.0), Rate::Constant { value: n(1.0) }, n(0.0))
        .unwrap();
    let action = TriggerAction { kind: ActionKind::AgentWake, target: "agent:primary".into() };
    let t = store
        .create_trigger(
            "trigger:hour-worked",
            TriggerKind::CustomTime,
            Some("agent:a:active-time"),
            Operator::Ge,
            n(3600.0),
            action,
        )
        .unwrap();

    let ev = store.create_wake_event_from_trigger(&t, n(1_700_003_601.0)).unwrap();
    assert_eq!(observed(&ev).0, 3601.0);
}

#[test]
fn from_trigger_rejects_non_agent_wake_triggers() {
    let mut store = Store::open();
    let action = TriggerAction { kind: ActionKind::Notification, target: "hello".into() };
    let t = store
        .create_trigger("trigger:notify", TriggerKind::CommonInstant, None, Operator::Ge, n(100.0), action)
        .unwrap();
    let err = store.create_wake_event_from_trigger(&t, n(200.0)).unwrap_err();
    assert!(matches!(err, StoreError::InvalidInput(_)));
}

#[test]
fn an_event_needs_an_agent() {
    let mut store = Store::open();
    let err = store
        .create_wake_event("", None, "r", json("{}"), json("{}"), json("{}"), "k")
        .unwrap_err();
    assert!(matches!(err, StoreError::InvalidInput(_)));
}

#[test]
fn names_of_statuses_read_back() {
    for (status, name) in [
        (WakeEventStatus::Pending, "pending"),
        (WakeEventStatus::Delivering, "delivering"),
        (WakeEventStatus::Delivered, "delivered"),
        (WakeEventStatus::Acknowledged, "acknowledged"),
        (WakeEventStatus::DecidedNoAction, "decided_no_action"),
        (WakeEventStatus::DecidedAction, "decided_action"),
        (WakeEventStatus::Completed, "completed"),
        (WakeEventStatus::RetryWait, "retry_wait"),
        (WakeEventStatus::DeadLetter, "dead_letter"),
    ] {
        assert_eq!(status.as_str(), name);
        assert_eq!(WakeEventStatus::from_str(name), status);
    }
}

#[test]
fn create_then_get_latest_round_trips() {
    let mut store = Store::open();
    let event_id = wake(&mut store, "agent:primary", "k1").event_id;
    let receipt = store
        .create_decision_receipt(
            &event_id,
            "agent:primary",
            "run:01J",
            "no_action",
            Some("no repository changes since last review"),
            Some("[]"),
            Some(r#"{"kind":"relative","after_seconds":3600}"#),
            Some(r#"{"model_tokens":1832,"tool_calls":0}"#),
        )
        .unwrap();
    assert_eq!(receipt.decision, "no_action");
    assert_eq!(receipt.event_id, event_id);

    let latest = store.get_latest_decision_receipt(&event_id).unwrap();
    assert_eq!(latest.receipt_id, receipt.receipt_id);
    let next_wake: serde_json::Value = serde_json::from_str(&latest.next_wake.unwrap()).unwrap();
    assert_eq!(next_wake["after_seconds"], 3600);
}

#[test]
fn invalid_decision_value_is_rejected() {
    let mut store = Store::open();
    let event_id = wake(&mut store, "agent:primary", "k1").event_id;
    let err = store
        .create_decision_receipt(&event_id, "agent:primary", "run:1", "maybe", None, None, None, None)
        .unwrap_err();
    assert!(matches!(err, StoreError::InvalidInput(_)), "an open-ended decision string must be rejected");
}

#[test]
fn unknown_event_id_is_rejected() {
    let mut store = Store::open();
    let err = store
        .create_decision_receipt("wake:does-not-exist", "agent:primary", "run:1", "no_action", None, None, None, None)
        .unwrap_err();
    assert!(matches!(err, StoreError::InvalidInput(_)), "must not file a receipt against a nonexistent event");
}

#[test]
fn no_receipt_yet_returns_none_not_an_error() {
    let mut store = Store::open();
    let event_id = wake(&mut store, "agent:primary", "k1").event_id;
    assert!(store.get_latest_decision_receipt(&event_id).is_none());
}

#[test]
fn multiple_receipts_per_event_returns_the_most_recent() {
    let mut store = Store::open();
    let event_id = wake(&mut store, "agent:primary", "k1").event_id;
    store
        .create_decision_receipt(&event_id, "agent:primary", "run:1", "no_action", Some("first"), None, None, None)
        .unwrap();
    let second = store
        .create_decision_receipt(&event_id, "agent:primary", "run:2", "action", Some("second"), None, None, None)
        .unwrap();

    let latest = store.get_latest_decision_receipt(&event_id).unwrap();
    assert_eq!(latest.receipt_id, second.receipt_id);
    assert_eq!(latest.summary.as_deref(), Some("second"));
}

#[test]
fn create_local_process_endpoint_canonicalizes_the_path_and_starts_disabled() {
    let mut store = Store::open();
    let resolved = Ok("/opt/agents/bin/primary".to_string());
    let ep = store
        .create_agent_endpoint("agent:primary", "local_process", "../bin/primary", None, &Vec::new(), &resolved)
        .unwrap();
    assert_eq!(ep.transport, "local_process");
    assert!(!ep.enabled, "must start disabled");
    assert!(std::path::Path::new(&ep.endpoint).is_absolute(), "endpoint should be canonicalized to an absolute path");
}

#[test]
fn create_local_process_endpoint_rejects_a_nonexistent_path() {
    let mut store = Store::open();
    let resolved = Err("No such file or directory (os error 2)".to_string());
    let err = store
        .create_agent_endpoint(
            "agent:primary",
            "local_process",
            "C:/definitely/not/a/real/path.exe",
            None,
            &Vec::new(),
            &resolved,
        )
        .unwrap_err();
    assert!(matches!(err, StoreError::InvalidInput(_)));
}

#[test]
fn create_loopback_http_endpoint_accepts_127_0_0_1_and_localhost() {
    let mut store = Store::open();
    let a = store
        .create_agent_endpoint(
            "agent:a",
            "loopback_http",
            "http://127.0.0.1:4400/wake",
            Some("secret"),
            &Vec::new(),
            &no_path(),
        )
        .unwrap();
    assert_eq!(a.transport, "loopback_http");
    assert_eq!(a.auth_ref.as_deref(), Some("secret"));
    let b = loopback(&mut store, "agent:b", "http://localhost:4400/wake").unwrap();
    assert_eq!(b.endpoint, "http://localhost:4400/wake");
}

#[test]
fn create_loopback_http_endpoint_rejects_a_non_loopback_host() {
    let mut store = Store::open();
    let err = loopback(&mut store, "agent:a", "http://example.com/wake").unwrap_err();
    assert!(matches!(err, StoreError::InvalidInput(_)), "must reject a non-loopback host");
}

#[test]
fn create_agent_endpoint_rejects_unsupported_transports() {
    let mut store = Store::open();
    let err = store
        .create_agent_endpoint("agent:a", "remote_webhook", "https://example.com", None, &Vec::new(), &no_path())
        .unwrap_err();
    assert!(matches!(err, StoreError::InvalidInput(_)), "remote_webhook is not silently accepted");
}

#[test]
fn enable_then_disable_round_trips() {
    let mut store = Store::open();
    loopback(&mut store, "agent:a", "http://127.0.0.1:4400/wake").unwrap();
    let enabled = store.set_agent_endpoint_enabled("agent:a", true).unwrap();
    assert!(enabled.enabled);
    let disabled = store.set_agent_endpoint_enabled("agent:a", false).unwrap();
    assert!(!disabled.enabled);
}

#[test]
fn re_registering_an_endpoint_resets_enabled_to_false() {
    let mut store = Store::open();
    loopback(&mut store, "agent:a", "http://127.0.0.1:4400/wake").unwrap();
    store.set_agent_endpoint_enabled("agent:a", true).unwrap();

    let re_registered = loopback(&mut store, "agent:a", "http://127.0.0.1:5500/wake").unwrap();
    assert!(!re_registered.enabled, "changing the target must not silently keep delivery enabled");
    assert_eq!(re_registered.endpoint, "http://127.0.0.1:5500/wake");
}

#[test]
fn set_enabled_on_unknown_agent_errors() {
    let mut store = Store::open();
    let err = store.set_agent_endpoint_enabled("agent:ghost", true).unwrap_err();
    assert!(matches!(err, StoreError::InvalidInput(_)));
}

#[test]
fn list_returns_every_registered_endpoint() {
    let mut store = Store::open();
    loopback(&mut store, "agent:a", "http://127.0.0.1:4400/wake").unwrap();
    let resolved = Ok("/opt/agents/bin/b".to_string());
    store
        .create_agent_endpoint("agent:b", "local_process", "b", None, &Vec::new(), &resolved)
        .unwrap();
    assert_eq!(store.list_agent_endpoints().len(), 2);
}

#[test]
fn hosts_are_cut_out_of_urls() {
    assert_eq!(url_host("http://127.0.0.1:4400/wake").as_deref(), Some("127.0.0.1"));
    assert_eq!(url_host("http://localhost/").as_deref(), Some("localhost"));
    assert_eq!(url_host("https://localhost/"), None);
    assert_eq!(url_host("ftp://x"), None);
    assert_eq!(url_host("http://[::1]/wake").as_deref(), Some("[::1]"));
    assert_eq!(url_host("http://[::1]:4400/wake").as_deref(), Some("[::1]"));
    assert_eq!(url_host("http://[::1]").as_deref(), Some("[::1]"));
    assert_eq!(url_host("http://user@example.com/").as_deref(), Some("user@example.com"));
    assert_eq!(url_host("http://u:p@127.0.0.1/").as_deref(), Some("u"));
    assert_eq!(
        url_host("http://127.0.0.1:80@example.com/wake").as_deref(),
        Some("127.0.0.1:80@example.com"),
    );
    assert_eq!(url_host("http://localhost:]/").as_deref(), Some("localhost"));
    assert_eq!(url_host("http://localhost/@x").as_deref(), Some("localhost"));
}

#[test]
fn a_user_in_front_of_the_host_is_refused() {
    let mut store = Store::open();
    for (url, host) in [
        ("http://127.0.0.1:80@example.com/wake", "127.0.0.1:80@example.com"),
        ("http://localhost:x@example.com/wake", "localhost:x@example.com"),
        ("http://me@127.0.0.1/wake", "me@127.0.0.1"),
        ("http://u:p@127.0.0.1/wake", "u"),
    ] {
        let reason = format!("loopback_http endpoint must be on 127.0.0.1/localhost, got host '{host}'");
        assert_eq!(loopback(&mut store, "agent:a", url).unwrap_err(), StoreError::InvalidInput(reason));
    }
    assert!(store.list_agent_endpoints().is_empty());
    assert!(loopback(&mut store, "agent:a", "http://[::1]/wake").is_ok());
}

#[test]
fn the_standard_policy_gives_up_after_five_attempts() {
    let policy = DeliveryPolicy::standard();
    assert_eq!((policy.max_attempts, policy.base_delay_s, policy.max_delay_s), (5, 30, 3600));
}

#[test]
fn an_endpoint_that_is_no_url_is_refused() {
    let mut store = Store::open();
    let err = loopback(&mut store, "agent:a", "127.0.0.1:4400").unwrap_err();
    assert!(err.message().contains("is not a valid http:// URL"));
    let err = loopback(&mut store, " ", "http://127.0.0.1:4400").unwrap_err();
    assert!(err.message().contains("agent_id must not be empty"));
}

#[test]
fn a_due_event_is_delivered_and_marked_delivered() {
    let mut store = store_with_dispatch_allowed_and_endpoint("agent:primary");
    wake(&mut store, "agent:primary", "k1");

    let dispatcher = FakeWakeDispatcher::new(true);
    let delivered = evaluate_once(&mut store, &dispatcher, NOW, POLICY);

    assert_eq!(delivered.len(), 1);
    assert_eq!(dispatcher.calls.borrow().len(), 1, "dispatcher must actually be called");
    assert_eq!(delivered[0].status, WakeEventStatus::Delivered);
}

#[test]
fn without_agent_wake_dispatch_scope_nothing_is_delivered() {
    let mut store = Store::open(); // agent_wake.dispatch NOT granted
    loopback(&mut store, "agent:primary", "http://127.0.0.1:4400/wake").unwrap();
    store.set_agent_endpoint_enabled("agent:primary", true).unwrap();
    wake(&mut store, "agent:primary", "k1");

    let dispatcher = FakeWakeDispatcher::new(true);
    let delivered = evaluate_once(&mut store, &dispatcher, NOW, POLICY);

    assert!(delivered.is_empty());
    assert!(dispatcher.calls.borrow().is_empty(), "must not dispatch to anyone without the global scope");
}

#[test]
fn an_agent_with_no_registered_endpoint_is_left_for_polling() {
    let mut store = Store::open();
    grant_dispatch(&mut store);
    wake(&mut store, "agent:no-endpoint", "k1");

    let dispatcher = FakeWakeDispatcher::new(true);
    let delivered = evaluate_once(&mut store, &dispatcher, NOW, POLICY);

    assert!(delivered.is_empty(), "an agent with no endpoint stays poll-only, not silently stuck");
    let ev = store.list_wake_events(Some("agent:no-endpoint"), None);
    assert_eq!(ev[0].status, WakeEventStatus::Pending, "must remain pending, still pollable");
}

#[test]
fn a_failed_delivery_goes_to_retry_wait_not_lost() {
    let mut store = store_with_dispatch_allowed_and_endpoint("agent:primary");
    let ev = wake(&mut store, "agent:primary", "k1");

    let dispatcher = FakeWakeDispatcher::new(false);
    let delivered = evaluate_once(&mut store, &dispatcher, NOW, POLICY);

    assert!(delivered.is_empty());
    let after = store.get_wake_event(&ev.event_id).unwrap();
    assert_eq!(after.status, WakeEventStatus::RetryWait);
    assert_eq!(after.attempt_count, 1);
}

#[test]
fn agent_wake_trigger_firing_then_active_delivery_end_to_end() {
    let mut store = store_with_dispatch_allowed_and_endpoint("agent:primary");
    let t = wake_trigger(&mut store, "trigger:t", 100.0);
    store.create_wake_event_from_trigger(&t, n(150.0)).unwrap();

    let dispatcher = FakeWakeDispatcher::new(true);
    let delivered = evaluate_once(&mut store, &dispatcher, NOW, POLICY);
    assert_eq!(delivered.len(), 1);
    assert_eq!(delivered[0].trigger_id.as_deref(), Some("trigger:t"));
}

#[test]
fn one_pass_hands_over_five_events_at_most() {
    let mut store = store_with_dispatch_allowed_and_endpoint("agent:primary");
    for i in 0..7 {
        wake(&mut store, "agent:primary", &format!("k{i}"));
    }
    let dispatcher = FakeWakeDispatcher::new(true);
    assert_eq!(evaluate_once(&mut store, &dispatcher, NOW, POLICY).len(), 5);
    assert_eq!(evaluate_once(&mut store, &dispatcher, NOW, POLICY).len(), 2);
    assert_eq!(evaluate_once(&mut store, &dispatcher, NOW, POLICY).len(), 0);
}

#[test]
fn an_endpoint_that_is_off_gets_nothing() {
    let mut store = store_with_dispatch_allowed_and_endpoint("agent:primary");
    store.set_agent_endpoint_enabled("agent:primary", false).unwrap();
    wake(&mut store, "agent:primary", "k1");
    let dispatcher = FakeWakeDispatcher::new(true);
    assert!(evaluate_once(&mut store, &dispatcher, NOW, POLICY).is_empty());
    assert!(dispatcher.calls.borrow().is_empty());
}

#[test]
fn delays_double_up_to_a_limit() {
    let delays: Vec<u32> = (1..=9).map(|attempts| POLICY.delay_s(attempts)).collect();
    assert_eq!(delays, vec![30, 60, 120, 240, 480, 960, 1920, 3600, 3600]);
}

#[test]
fn an_event_is_given_up_after_the_last_attempt() {
    let mut store = Store::open();
    let policy = DeliveryPolicy { max_attempts: 2, base_delay_s: 10, max_delay_s: 100 };
    let id = wake(&mut store, "agent:primary", "k1").event_id;
    store.mark_wake_event_delivering(&id).unwrap();
    let waiting = store.record_delivery_failure_at(&id, "down", policy, 0).unwrap();
    assert_eq!(waiting.status, WakeEventStatus::RetryWait);
    assert_eq!(waiting.next_attempt_at.as_deref(), Some(stamp_text(10_000_000_000).as_str()));
    assert_eq!(waiting.last_error.as_deref(), Some("down"));
    store.mark_wake_event_delivering(&id).unwrap();
    let lost = store.record_delivery_failure_at(&id, "still down", policy, 0).unwrap();
    assert_eq!(lost.status, WakeEventStatus::DeadLetter);
    assert!(store.mark_wake_event_delivering(&id).is_err());
    assert!(store.record_delivery_success(&id).is_err());
}

#[test]
fn what_waits_is_due_again_when_its_time_comes() {
    let mut store = store_with_dispatch_allowed_and_endpoint("agent:primary");
    let id = wake(&mut store, "agent:primary", "k1").event_id;
    store.mark_wake_event_delivering(&id).unwrap();
    let policy = DeliveryPolicy { max_attempts: 9, base_delay_s: 10, max_delay_s: 100 };
    store.record_delivery_failure_at(&id, "down", policy, 1_000_000_000_000_000_000).unwrap();
    assert!(store.due_for_delivery(&stamp_text(1_000_000_009_000_000_000), 5).is_empty());
    assert_eq!(store.due_for_delivery(&stamp_text(1_000_000_010_000_000_000), 5).len(), 1);
}

#[test]
fn the_dispatcher_plans_by_transport_and_takes_only_202() {
    let mut store = Store::open();
    let event = wake(&mut store, "agent:primary", "k1");
    let mut endpoint = loopback(&mut store, "agent:primary", "http://127.0.0.1:4520/wake").unwrap();
    endpoint.auth_ref = Some("secret-token".to_string());
    match RealWakeDispatcher.plan(&endpoint, &event).unwrap() {
        DeliveryStep::LoopbackHttp { url, bearer } => {
            assert_eq!(url, "http://127.0.0.1:4520/wake");
            assert_eq!(bearer.as_deref(), Some("Bearer secret-token"));
        }
        other => panic!("expected a post, got {other:?}"),
    }
    endpoint.transport = "local_process".to_string();
    match RealWakeDispatcher.plan(&endpoint, &event).unwrap() {
        DeliveryStep::LocalProcess { program, event_id } => {
            assert_eq!(program, endpoint.endpoint);
            assert_eq!(event_id, event.event_id);
        }
        other => panic!("expected a program, got {other:?}"),
    }
    endpoint.transport = "remote_webhook".to_string();
    assert!(RealWakeDispatcher.plan(&endpoint, &event).is_err());
    assert!(RealWakeDispatcher.judge(202).is_ok());
    assert_eq!(
        RealWakeDispatcher.judge(200).unwrap_err(),
        "agent endpoint responded 200 (expected 202 Accepted)"
    );
}

#[test]
fn a_delivery_can_be_made_step_by_step() {
    let mut store = store_with_dispatch_allowed_and_endpoint("agent:primary");
    let event = wake(&mut store, "agent:primary", "k1");
    let due = store.open_pass(NOW);
    assert_eq!(due.len(), 1);
    assert_eq!(due[0].event_id, event.event_id);

    let (claimed, endpoint) = store.claim(&event.event_id).unwrap();
    assert_eq!(claimed.status, WakeEventStatus::Delivering);
    assert_eq!(endpoint.agent_id, "agent:primary");
    assert!(store.claim("no-such-event").is_none());

    assert!(store.settle_delivery(&event.event_id, &Err("refused".to_string()), POLICY).is_none());
    let waiting = store.get_wake_event(&event.event_id).unwrap();
    assert_eq!(waiting.status, WakeEventStatus::RetryWait);
    assert_eq!(waiting.last_error.as_deref(), Some("refused"));

    store.claim(&event.event_id).unwrap();
    let done = store.settle_delivery(&event.event_id, &Ok(()), POLICY).unwrap();
    assert_eq!(done.status, WakeEventStatus::Delivered);
}

use ctcl::engine::{evaluate_once, ActionDispatcher, ActionStep, RealDispatcher};
use ctcl::number::Number;
use ctcl::store::error::StoreError;
use ctcl::store::triggers::{
    action_kind_from_str, kind_from_str, status_from_str, ActionKind, Operator, Trigger, TriggerAction,
    TriggerKind, TriggerStatus,
};
use ctcl::store::wake_events::WakeEventStatus;
use ctcl::store::Store;
use ctcl::system::Rate;
use std::cell::RefCell;

fn n(x: f64) -> Number {
    Number::from_bits(x.to_bits())
}

fn f(x: Number) -> f64 {
    f64::from_bits(x.to_bits())
}

fn notify(msg: &str) -> TriggerAction {
    TriggerAction { kind: ActionKind::Notification, target: msg.to_string() }
}

fn set(store: &mut Store, id: &str, target: f64, action: TriggerAction) -> Trigger {
    store
        .create_trigger(id, TriggerKind::CommonInstant, None, Operator::Ge, n(target), action)
        .unwrap()
}

struct FakeDispatcher {
    calls: RefCell<Vec<TriggerAction>>,
}

impl FakeDispatcher {
    fn new() -> Self {
        FakeDispatcher { calls: RefCell::new(Vec::new()) }
    }
}

impl ActionDispatcher for FakeDispatcher {
    fn dispatch(&self, action: &TriggerAction) -> Result<(), String> {
        self.calls.borrow_mut().push(action.clone());
        Ok(())
    }
}

struct AlwaysFailsDispatcher;

impl ActionDispatcher for AlwaysFailsDispatcher {
    fn dispatch(&self, _action: &TriggerAction) -> Result<(), String> {
        Err("simulated failure".into())
    }
}

#[test]
fn common_instant_trigger_fires_when_wall_time_reaches_target() {
    let mut store = Store::open();
    set(&mut store, "trigger:deadline", 1_700_000_000.0, notify("deadline"));

    assert!(store.due_triggers(n(1_699_999_999.0)).is_empty(), "not due yet");
    let due = store.due_triggers(n(1_700_000_000.0));
    assert_eq!(due.len(), 1);
    assert_eq!(due[0].id, "trigger:deadline");
}

#[test]
fn custom_time_trigger_fires_from_a_stored_system() {
    let mut store = Store::open();
    store
        .create_system("agent:a:active-time", None, n(1_700_000_000.0), Rate::Constant { value: n(1.0) }, n(0.0))
        .unwrap();
    store
        .create_trigger(
            "trigger:hour-worked",
            TriggerKind::CustomTime,
            Some("agent:a:active-time"),
            Operator::Ge,
            n(3600.0),
            notify("an hour has passed"),
        )
        .unwrap();

    assert!(store.due_triggers(n(1_700_003_000.0)).is_empty(), "only ~50min elapsed");
    let due = store.due_triggers(n(1_700_003_601.0));
    assert_eq!(due.len(), 1);
    assert_eq!(due[0].id, "trigger:hour-worked");
}

#[test]
fn custom_time_without_system_id_is_rejected() {
    let mut store = Store::open();
    let err = store
        .create_trigger("t", TriggerKind::CustomTime, None, Operator::Ge, n(10.0), notify("x"))
        .unwrap_err();
    assert!(matches!(err, StoreError::InvalidInput(_)));
}

#[test]
fn unsupported_operator_is_rejected_not_silently_accepted() {
    let err = Operator::parse("==").unwrap_err();
    assert!(matches!(err, StoreError::InvalidInput(_)));
}

#[test]
fn a_fired_trigger_is_no_longer_due_and_stays_fired() {
    let mut store = Store::open();
    set(&mut store, "trigger:once", 100.0, notify("x"));
    assert_eq!(store.due_triggers(n(200.0)).len(), 1);

    store.mark_fired("trigger:once");
    assert!(store.due_triggers(n(300.0)).is_empty(), "a fired trigger must not fire again");
    assert_eq!(store.get_trigger("trigger:once").unwrap().status, TriggerStatus::Fired);
}

#[test]
fn cancelling_an_active_trigger_removes_it_from_due_evaluation() {
    let mut store = Store::open();
    set(&mut store, "trigger:cancel-me", 0.0, notify("x"));
    store.cancel_trigger("trigger:cancel-me").unwrap();
    assert_eq!(store.get_trigger("trigger:cancel-me").unwrap().status, TriggerStatus::Cancelled);
    assert!(store.due_triggers(n(1_000_000_000.0)).is_empty());
}

#[test]
fn le_operator_fires_when_value_drops_to_or_below_target() {
    let mut store = Store::open();
    // a countdown system: rate -1 from a high starting value
    store
        .create_system("countdown", None, n(0.0), Rate::Constant { value: n(-1.0) }, n(1000.0))
        .unwrap();
    store
        .create_trigger(
            "trigger:countdown-done",
            TriggerKind::CustomTime,
            Some("countdown"),
            Operator::Le,
            n(0.0),
            notify("countdown finished"),
        )
        .unwrap();
    assert!(store.due_triggers(n(500.0)).is_empty()); // 1000 - 500 = 500, still positive
    assert_eq!(store.due_triggers(n(1000.0)).len(), 1); // 1000 - 1000 = 0, satisfies <= 0
}

#[test]
fn recreating_a_trigger_rearms_it() {
    let mut store = Store::open();
    set(&mut store, "trigger:x", 100.0, notify("x"));
    store.mark_fired("trigger:x");
    assert_eq!(store.get_trigger("trigger:x").unwrap().status, TriggerStatus::Fired);

    set(&mut store, "trigger:x", 999.0, notify("y"));
    let rec = store.get_trigger("trigger:x").unwrap();
    assert_eq!(rec.status, TriggerStatus::Active);
    assert!(rec.fired_at.is_none());
    assert_eq!(f(rec.target_value), 999.0);
}

#[test]
fn list_triggers_returns_everything_regardless_of_status() {
    let mut store = Store::open();
    set(&mut store, "a", 1.0, notify("x"));
    set(&mut store, "b", 2.0, notify("x"));
    store.cancel_trigger("b").unwrap();
    assert_eq!(store.list_triggers().len(), 2);
}

#[test]
fn a_trigger_is_called_off_only_while_it_is_active() {
    let mut store = Store::open();
    set(&mut store, "t", 1.0, notify("x"));
    store.mark_fired_at("t", "then");
    let kept = store.cancel_trigger("t").unwrap();
    assert_eq!(kept.status, TriggerStatus::Fired);
    assert_eq!(kept.fired_at.as_deref(), Some("then"));
    let err = store.cancel_trigger("nope").unwrap_err();
    assert_eq!(err.message(), "invalid input: unknown trigger: nope");
}

#[test]
fn a_trigger_on_a_system_that_is_gone_is_not_due() {
    let mut store = Store::open();
    store
        .create_trigger("t", TriggerKind::CustomTime, Some("nowhere"), Operator::Ge, n(0.0), notify("x"))
        .unwrap();
    assert!(store.due_triggers(n(1e9)).is_empty());
}

#[test]
fn a_trigger_needs_an_id_and_a_target() {
    let mut store = Store::open();
    let err = store
        .create_trigger(" ", TriggerKind::CommonInstant, None, Operator::Ge, n(1.0), notify("x"))
        .unwrap_err();
    assert!(matches!(err, StoreError::InvalidInput(_)));
    let err = store
        .create_trigger("t", TriggerKind::CommonInstant, None, Operator::Ge, n(f64::NAN), notify("x"))
        .unwrap_err();
    assert!(matches!(err, StoreError::Sqlite(_)));
}

#[test]
fn operators_hold_as_they_read() {
    assert!(Operator::parse(">=").unwrap().satisfied(n(2.0), n(2.0)));
    assert!(!Operator::Ge.satisfied(n(1.0), n(2.0)));
    assert!(Operator::parse("<=").unwrap().satisfied(n(1.0), n(2.0)));
    assert!(!Operator::Le.satisfied(n(f64::NAN), n(2.0)));
    assert_eq!(Operator::Ge.as_str(), ">=");
    assert_eq!(Operator::Le.as_str(), "<=");
}

#[test]
fn names_of_triggers_read_back() {
    for kind in [TriggerKind::CommonInstant, TriggerKind::CustomTime] {
        assert_eq!(kind_from_str(kind.as_str()), kind);
    }
    for kind in [ActionKind::Notification, ActionKind::Callback, ActionKind::AgentWake] {
        assert_eq!(action_kind_from_str(kind.as_str()), kind);
    }
    for status in [TriggerStatus::Active, TriggerStatus::Fired, TriggerStatus::Cancelled] {
        assert_eq!(status_from_str(status.as_str()), status);
    }
    let row = Trigger::from_parts(
        "t".to_string(),
        "custom_time",
        Some("s".to_string()),
        "<=",
        n(5.0),
        notify("x"),
        "fired",
        "c".to_string(),
        Some("d".to_string()),
    )
    .unwrap();
    assert_eq!(row.kind, TriggerKind::CustomTime);
    assert_eq!(row.operator, Operator::Le);
    assert_eq!(row.status, TriggerStatus::Fired);
}

#[test]
fn the_latest_trigger_is_listed_first() {
    let mut store = Store::open();
    for (id, at) in [("a", "2026-01-01"), ("b", "2026-01-03"), ("c", "2026-01-02")] {
        store
            .create_trigger_at(id, TriggerKind::CommonInstant, None, Operator::Ge, n(1.0), notify("x"), at)
            .unwrap();
    }
    let ids: Vec<String> = store.list_triggers().into_iter().map(|t| t.id).collect();
    assert_eq!(ids, vec!["b", "c", "a"]);
}

#[test]
fn a_due_trigger_is_dispatched_and_marked_fired() {
    let mut store = Store::open();
    set(&mut store, "t", 100.0, notify("hi"));

    let dispatcher = FakeDispatcher::new();
    let fired = evaluate_once(&mut store, &dispatcher, n(150.0));

    assert_eq!(fired.len(), 1);
    assert_eq!(dispatcher.calls.borrow().len(), 1, "dispatcher must actually be called");
    assert_eq!(store.get_trigger("t").unwrap().status, TriggerStatus::Fired);
}

#[test]
fn a_trigger_not_yet_due_is_left_alone() {
    let mut store = Store::open();
    set(&mut store, "t", 1000.0, notify("hi"));

    let dispatcher = FakeDispatcher::new();
    let fired = evaluate_once(&mut store, &dispatcher, n(500.0));

    assert!(fired.is_empty());
    assert!(dispatcher.calls.borrow().is_empty());
    assert_eq!(store.get_trigger("t").unwrap().status, TriggerStatus::Active);
}

#[test]
fn a_failed_dispatch_leaves_the_trigger_active_for_retry() {
    let mut store = Store::open();
    set(&mut store, "t", 100.0, notify("hi"));

    let fired = evaluate_once(&mut store, &AlwaysFailsDispatcher, n(150.0));

    assert!(fired.is_empty(), "a failed dispatch must not be reported as fired");
    assert_eq!(
        store.get_trigger("t").unwrap().status,
        TriggerStatus::Active,
        "must stay active so it retries next tick rather than being silently lost"
    );
}

#[test]
fn a_due_agent_wake_trigger_creates_a_wake_event_instead_of_dispatching() {
    let mut store = Store::open();
    let action = TriggerAction { kind: ActionKind::AgentWake, target: "agent:primary".to_string() };
    set(&mut store, "t", 100.0, action);

    let dispatcher = FakeDispatcher::new();
    let fired = evaluate_once(&mut store, &dispatcher, n(150.0));

    assert_eq!(fired.len(), 1);
    assert!(dispatcher.calls.borrow().is_empty(), "agent_wake must never reach ActionDispatcher");
    assert_eq!(store.get_trigger("t").unwrap().status, TriggerStatus::Fired);

    let events = store.list_wake_events(Some("agent:primary"), None);
    assert_eq!(events.len(), 1);
    assert_eq!(events[0].trigger_id.as_deref(), Some("t"));
    assert_eq!(events[0].status, WakeEventStatus::Pending);
}

#[test]
fn real_dispatcher_rejects_agent_wake_if_it_is_ever_reached_directly() {
    let action = TriggerAction { kind: ActionKind::AgentWake, target: "agent:primary".to_string() };
    assert!(
        RealDispatcher.plan(&action).is_err(),
        "AgentWake reaching the dispatcher directly is an invariant violation, not a silent no-op"
    );
}

#[test]
fn real_dispatcher_logs_notifications_and_opens_callbacks() {
    match RealDispatcher.plan(&notify("hi")).unwrap() {
        ActionStep::Log(line) => assert_eq!(line, "[ctcl trigger] notification: hi"),
        other => panic!("expected a log line, got {other:?}"),
    }
    let action = TriggerAction { kind: ActionKind::Callback, target: "https://example.com".to_string() };
    match RealDispatcher.plan(&action).unwrap() {
        ActionStep::OpenUri(uri) => assert_eq!(uri, "https://example.com"),
        other => panic!("expected a URI, got {other:?}"),
    }
}

#[test]
fn a_trigger_fires_once_over_two_passes() {
    let mut store = Store::open();
    set(&mut store, "t", 100.0, notify("hi"));
    let dispatcher = FakeDispatcher::new();
    assert_eq!(evaluate_once(&mut store, &AlwaysFailsDispatcher, n(150.0)).len(), 0);
    assert_eq!(evaluate_once(&mut store, &dispatcher, n(151.0)).len(), 1);
    assert_eq!(evaluate_once(&mut store, &dispatcher, n(152.0)).len(), 0);
    assert_eq!(dispatcher.calls.borrow()[0].target, "hi");
    assert!(store.get_trigger("t").unwrap().fired_at.is_some());
}

#[test]
fn a_firing_can_be_settled_step_by_step() {
    let mut store = Store::open();
    let action = TriggerAction { kind: ActionKind::Notification, target: "hi".into() };
    store
        .create_trigger("t1", TriggerKind::CommonInstant, None, Operator::Ge, n(100.0), action)
        .unwrap();
    let due = store.due_triggers(n(150.0));
    assert_eq!(due.len(), 1);
    assert!(!store.settle(&due[0], n(150.0), false));
    assert_eq!(store.get_trigger("t1").unwrap().status, TriggerStatus::Active);
    assert!(store.settle(&due[0], n(150.0), true));
    assert_eq!(store.get_trigger("t1").unwrap().status, TriggerStatus::Fired);
    assert!(store.due_triggers(n(151.0)).is_empty());
}

#[test]
fn a_trigger_fires_once_whatever_happens_in_between() {
    let mut store = Store::open();
    let dispatcher = FakeDispatcher::new();
    store
        .create_trigger("t", TriggerKind::CommonInstant, None, Operator::Ge, n(100.0), notify("x"))
        .unwrap();
    assert!(store.get_trigger("t").unwrap().needs_dispatch());
    assert_eq!(evaluate_once(&mut store, &dispatcher, n(150.0)).len(), 1);
    store
        .create_trigger("u", TriggerKind::CommonInstant, None, Operator::Ge, n(200.0), notify("y"))
        .unwrap();
    store.cancel_trigger("t").unwrap();
    store.mark_fired("t");
    let fired = evaluate_once(&mut store, &dispatcher, n(250.0));
    assert_eq!(fired.len(), 1);
    assert_eq!(fired[0].id, "u");
    assert_eq!(store.get_trigger("t").unwrap().status, TriggerStatus::Fired);
    assert_eq!(dispatcher.calls.borrow().len(), 2);
}

#[test]
fn a_trigger_on_a_system_that_cannot_be_read_is_passed_over() {
    let mut store = Store::open();
    let rate = Rate::Constant { value: n(f64::INFINITY) };
    store.create_system("s", None, n(0.0), rate, n(0.0)).unwrap();
    store
        .create_trigger("t", TriggerKind::CustomTime, Some("s"), Operator::Ge, n(1.0), notify("x"))
        .unwrap();
    assert!(store.due_triggers(n(1e9)).is_empty());
}

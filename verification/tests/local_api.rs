use ctcl::api::handler::path_to_resolve;
use ctcl::api::preview::{preview, preview_at, Preview};
use ctcl::api::reply::{Data, Reply};
use ctcl::api::request::{equal_ignoring_case, query_param, status_by_name, status_filter, Body, Header, Request};
use ctcl::api::routes::{required_scope, Method};
use ctcl::number::Number;
use ctcl::store::triggers::{ActionKind, TriggerStatus};
use ctcl::store::wake_events::{Detail, WakeEvent, WakeEventStatus};
use ctcl::store::Store;

fn request(method: &str, url: &str, token: Option<&str>, body: &str) -> Request {
    let mut headers = vec![Header { name: "Host".to_string(), value: "127.0.0.1".to_string() }];
    if let Some(t) = token {
        headers.push(Header { name: "Authorization".to_string(), value: format!("Bearer {t}") });
    }
    let kind = match method {
        "GET" => Method::Get,
        "POST" => Method::Post,
        _ => Method::Other,
    };
    Request::read(kind, method, url, headers, body)
}

fn call(store: &mut Store, method: &str, url: &str, token: Option<&str>, body: &str) -> Reply {
    let resolved = Err("not looked up".to_string());
    store.handle_request(&request(method, url, token, body), &resolved)
}

fn store_with_token(token: &str) -> Store {
    let mut store = Store::open();
    let mut settings = store.get_settings().unwrap();
    settings.local_api_token = token.to_string();
    store.save_settings(&settings);
    store
}

fn grant(store: &mut Store, scopes: &[&str]) {
    let mut settings = store.get_settings().unwrap();
    for scope in scopes {
        settings.scopes.insert(scope.to_string(), true);
    }
    store.save_settings(&settings);
}

fn wake(store: &mut Store, agent_id: &str, key: &str) -> WakeEvent {
    let empty = || Detail::Json("{}".to_string());
    store.create_wake_event(agent_id, None, "r", empty(), empty(), empty(), key).unwrap()
}

fn code(reply: &Reply) -> &str {
    match reply {
        Reply::Refused { code, .. } => code,
        other => panic!("expected a refusal, got {other:?}"),
    }
}

const TOKEN: Option<&str> = Some("secret-token");

#[test]
fn rejects_missing_or_wrong_token() {
    let mut store = store_with_token("secret-token");
    let no_auth = call(&mut store, "GET", "/v1/now", None, "");
    assert_eq!(no_auth.status(), 401);
    let wrong_auth = call(&mut store, "GET", "/v1/now", Some("wrong-token"), "");
    assert_eq!(wrong_auth.status(), 401);
}

#[test]
fn correct_token_and_default_granted_scope_succeeds() {
    let mut store = store_with_token("secret-token");
    let r = call(&mut store, "GET", "/v1/now", TOKEN, "");
    assert_eq!(r.status(), 200);
    assert!(matches!(r, Reply::Done(Data::Now(_))));
}

#[test]
fn ungranted_scope_is_refused_even_with_valid_token() {
    let mut store = store_with_token("secret-token");
    // systems.write is off by default - creating a system over the local API must fail
    let r = call(&mut store, "POST", "/v1/systems", TOKEN, "{}");
    assert_eq!(r.status(), 403);
    assert_eq!(code(&r), "SCOPE_NOT_GRANTED");
}

#[test]
fn convert_endpoint_computes_correctly_over_http() {
    let mut store = store_with_token("secret-token");
    let body = r#"{"value":"1783420000.123456789","from":"unix_s","to":"rfc3339","tz":"Asia/Taipei"}"#;
    let r = call(&mut store, "POST", "/v1/convert", TOKEN, body);
    assert_eq!(r.status(), 200);
    match r {
        Reply::Done(Data::Converted(c)) => assert_eq!(c.output, "2026-07-07T18:26:40.123456789+08:00"),
        other => panic!("expected a conversion, got {other:?}"),
    }
}

#[test]
fn every_call_is_audit_logged_allowed_and_refused_alike() {
    let mut store = store_with_token("secret-token");
    call(&mut store, "GET", "/v1/now", TOKEN, ""); // allowed
    call(&mut store, "GET", "/v1/now", Some("wrong"), ""); // refused: bad token
    call(&mut store, "POST", "/v1/systems", TOKEN, "{}"); // refused: scope

    let entries = store.list_audit_log(10);
    assert_eq!(entries.len(), 3);
    assert!(entries.iter().any(|e| e.allowed));
    assert!(entries.iter().filter(|e| !e.allowed).count() == 2);
}

#[test]
fn device_events_route_is_scope_gated_then_succeeds_once_granted() {
    let mut store = store_with_token("secret-token");
    // device_clock.read is off by default - the route must refuse.
    let refused = call(&mut store, "GET", "/v1/device-events", TOKEN, "");
    assert_eq!(refused.status(), 403);

    grant(&mut store, &["device_clock.read"]);

    let allowed = call(&mut store, "GET", "/v1/device-events", TOKEN, "");
    assert_eq!(allowed.status(), 200);
    assert!(matches!(allowed, Reply::Done(Data::DeviceEvents(_))));
}

#[test]
fn triggers_route_is_scope_gated_then_succeeds_once_granted() {
    let mut store = store_with_token("secret-token");
    let refused = call(&mut store, "GET", "/v1/triggers", TOKEN, "");
    assert_eq!(refused.status(), 403);

    grant(&mut store, &["triggers.read"]);

    let allowed = call(&mut store, "GET", "/v1/triggers", TOKEN, "");
    assert_eq!(allowed.status(), 200);
    assert!(matches!(allowed, Reply::Done(Data::Triggers(_))));
}

#[test]
fn wake_events_read_is_scope_gated_then_succeeds_once_granted() {
    let mut store = store_with_token("secret-token");
    wake(&mut store, "agent:primary", "k1");

    let refused = call(&mut store, "GET", "/v1/wake-events", TOKEN, "");
    assert_eq!(refused.status(), 403, "wake_events.read is off by default, same discipline as triggers.read");

    grant(&mut store, &["wake_events.read"]);

    let allowed = call(&mut store, "GET", "/v1/wake-events", TOKEN, "");
    assert_eq!(allowed.status(), 200);
    match allowed {
        Reply::Done(Data::WakeEvents(events)) => assert_eq!(events[0].agent_id, "agent:primary"),
        other => panic!("expected events, got {other:?}"),
    }
}

#[test]
fn wake_events_read_filters_by_query_params() {
    let mut store = store_with_token("secret-token");
    wake(&mut store, "agent:a", "k1");
    wake(&mut store, "agent:b", "k2");
    grant(&mut store, &["wake_events.read"]);

    let filtered = call(&mut store, "GET", "/v1/wake-events?agent_id=agent:a", TOKEN, "");
    assert_eq!(filtered.status(), 200);
    match filtered {
        Reply::Done(Data::WakeEvents(events)) => {
            assert!(events.iter().any(|e| e.agent_id == "agent:a"));
            assert!(!events.iter().any(|e| e.agent_id == "agent:b"));
        }
        other => panic!("expected events, got {other:?}"),
    }
}

#[test]
fn wake_events_ack_is_scope_gated_and_transitions_status() {
    let mut store = store_with_token("secret-token");
    let ev = wake(&mut store, "agent:primary", "k1");
    let url = format!("/v1/wake-events/{}/ack", ev.event_id);

    let refused = call(&mut store, "POST", &url, TOKEN, "");
    assert_eq!(refused.status(), 403, "wake_events.ack is off by default");

    grant(&mut store, &["wake_events.ack"]);

    let allowed = call(&mut store, "POST", &url, TOKEN, "");
    assert_eq!(allowed.status(), 200);
    match allowed {
        Reply::Done(Data::WakeEvent(e)) => assert_eq!(e.status.as_str(), "acknowledged"),
        other => panic!("expected an event, got {other:?}"),
    }
    assert_eq!(store.get_wake_event(&ev.event_id).unwrap().status, WakeEventStatus::Acknowledged);
}

#[test]
fn trigger_write_api_creates_reads_and_cancels() {
    let mut store = store_with_token("secret-token");
    grant(&mut store, &["triggers.write", "triggers.read", "triggers.cancel"]);

    let refused = call(&mut store, "POST", "/v1/triggers", None, "{}");
    assert_eq!(refused.status(), 401, "still needs a valid bearer token even with scopes granted");

    let body = r#"{"id":"trigger:api-created","kind":"common_instant","operator":">=","target_value":100,"action_kind":"agent_wake","action_target":"agent:primary"}"#;
    let created = call(&mut store, "POST", "/v1/triggers", TOKEN, body);
    assert_eq!(created.status(), 200, "{:?}", created);
    match created {
        Reply::Done(Data::Trigger(t)) => assert_eq!(t.action.kind, ActionKind::AgentWake),
        other => panic!("expected a trigger, got {other:?}"),
    }

    let read = call(&mut store, "GET", "/v1/triggers/trigger:api-created", TOKEN, "");
    assert_eq!(read.status(), 200);
    match read {
        Reply::Done(Data::Trigger(t)) => assert_eq!(t.status.as_str(), "active"),
        other => panic!("expected a trigger, got {other:?}"),
    }

    let cancelled = call(&mut store, "POST", "/v1/triggers/trigger:api-created/cancel", TOKEN, "");
    assert_eq!(cancelled.status(), 200);
    assert_eq!(store.get_trigger("trigger:api-created").unwrap().status, TriggerStatus::Cancelled);
}

#[test]
fn trigger_write_and_cancel_are_separately_scope_gated() {
    let mut store = store_with_token("secret-token");
    let create_refused = call(&mut store, "POST", "/v1/triggers", TOKEN, "{}");
    assert_eq!(create_refused.status(), 403, "triggers.write is off by default");

    let cancel_refused = call(&mut store, "POST", "/v1/triggers/some-id/cancel", TOKEN, "");
    assert_eq!(cancel_refused.status(), 403, "triggers.cancel is off by default, separately from triggers.write");
}

#[test]
fn wake_event_single_item_read_route() {
    let mut store = store_with_token("secret-token");
    let ev = wake(&mut store, "agent:primary", "k1");
    grant(&mut store, &["wake_events.read"]);
    let url = format!("/v1/wake-events/{}", ev.event_id);

    let refused_status = call(&mut store, "GET", &url, None, "");
    assert_eq!(refused_status.status(), 401);

    let allowed = call(&mut store, "GET", &url, TOKEN, "");
    assert_eq!(allowed.status(), 200);
    match allowed {
        Reply::Done(Data::WakeEvent(e)) => assert_eq!(e.agent_id, "agent:primary"),
        other => panic!("expected an event, got {other:?}"),
    }

    let unknown = call(&mut store, "GET", "/v1/wake-events/wake:does-not-exist", TOKEN, "");
    assert_eq!(unknown.status(), 400);
}

#[test]
fn wake_event_complete_requires_prior_ack_and_is_scope_gated() {
    let mut store = store_with_token("secret-token");
    let ev = wake(&mut store, "agent:primary", "k1");
    let complete = format!("/v1/wake-events/{}/complete", ev.event_id);

    let refused = call(&mut store, "POST", &complete, TOKEN, "");
    assert_eq!(refused.status(), 403, "wake_events.complete is off by default");

    grant(&mut store, &["wake_events.complete", "wake_events.ack"]);

    let too_early = call(&mut store, "POST", &complete, TOKEN, "");
    assert_eq!(too_early.status(), 400, "must not complete before acknowledging");

    call(&mut store, "POST", &format!("/v1/wake-events/{}/ack", ev.event_id), TOKEN, "");
    let completed = call(&mut store, "POST", &complete, TOKEN, "");
    assert_eq!(completed.status(), 200);
    assert_eq!(store.get_wake_event(&ev.event_id).unwrap().status, WakeEventStatus::Completed);
}

#[test]
fn decision_receipt_write_and_read_round_trip_over_http() {
    let mut store = store_with_token("secret-token");
    let ev = wake(&mut store, "agent:primary", "k1");
    let url = format!("/v1/wake-events/{}/decision", ev.event_id);

    let refused = call(&mut store, "GET", &url, TOKEN, "");
    assert_eq!(refused.status(), 403, "reading a decision receipt still needs wake_events.read");

    grant(&mut store, &["wake_events.read", "decision_receipts.write"]);

    let none_yet = call(&mut store, "GET", &url, TOKEN, "");
    assert_eq!(none_yet.status(), 404, "no receipt filed yet");

    let write_refused = call(&mut store, "POST", &url, None, "{}");
    assert_eq!(write_refused.status(), 401);

    let body = r#"{"agent_id":"agent:primary","run_id":"run:01J","decision":"no_action","summary":"nothing to do","next_wake":{"kind":"relative","after_seconds":3600}}"#;
    let written = call(&mut store, "POST", &url, TOKEN, body);
    assert_eq!(written.status(), 200, "{:?}", written);
    match written {
        Reply::Done(Data::Receipt(r)) => assert_eq!(r.decision, "no_action"),
        other => panic!("expected a receipt, got {other:?}"),
    }

    let read = call(&mut store, "GET", &url, TOKEN, "");
    assert_eq!(read.status(), 200);
    match read {
        Reply::Done(Data::Receipt(r)) => {
            assert_eq!(r.summary.as_deref(), Some("nothing to do"));
            assert!(r.next_wake.unwrap().contains("3600"));
        }
        other => panic!("expected a receipt, got {other:?}"),
    }
}

#[test]
fn decision_receipt_rejects_invalid_decision_value_over_http() {
    let mut store = store_with_token("secret-token");
    let ev = wake(&mut store, "agent:primary", "k1");
    grant(&mut store, &["decision_receipts.write"]);

    let body = r#"{"agent_id":"agent:primary","run_id":"run:1","decision":"maybe"}"#;
    let r = call(&mut store, "POST", &format!("/v1/wake-events/{}/decision", ev.event_id), TOKEN, body);
    assert_eq!(r.status(), 400);
}

#[test]
fn agent_endpoint_create_list_get_over_http() {
    let mut store = store_with_token("secret-token");
    grant(&mut store, &["agents.write", "agents.read"]);

    let body = r#"{"agent_id":"agent:primary","transport":"loopback_http","endpoint":"http://127.0.0.1:4400/wake","auth_ref":"secret"}"#;
    let created = call(&mut store, "POST", "/v1/agents", TOKEN, body);
    assert_eq!(created.status(), 200, "{:?}", created);
    match created {
        Reply::Done(Data::Agent(a)) => assert!(!a.enabled, "must start disabled"),
        other => panic!("expected an endpoint, got {other:?}"),
    }

    let listed = call(&mut store, "GET", "/v1/agents", TOKEN, "");
    assert_eq!(listed.status(), 200);
    match listed {
        Reply::Done(Data::Agents(a)) => assert_eq!(a[0].agent_id, "agent:primary"),
        other => panic!("expected endpoints, got {other:?}"),
    }

    let got = call(&mut store, "GET", "/v1/agents/agent:primary", TOKEN, "");
    assert_eq!(got.status(), 200);
    match got {
        Reply::Done(Data::Agent(a)) => assert_eq!(a.transport, "loopback_http"),
        other => panic!("expected an endpoint, got {other:?}"),
    }
}

#[test]
fn agent_endpoint_write_and_read_are_separately_scope_gated() {
    let mut store = store_with_token("secret-token");
    let create_refused = call(&mut store, "POST", "/v1/agents", TOKEN, "{}");
    assert_eq!(create_refused.status(), 403, "agents.write is off by default");

    let list_refused = call(&mut store, "GET", "/v1/agents", TOKEN, "");
    assert_eq!(list_refused.status(), 403, "agents.read is off by default");
}

#[test]
fn agent_endpoint_enable_then_disable_over_http() {
    let mut store = store_with_token("secret-token");
    let resolved = Err("not looked up".to_string());
    store
        .create_agent_endpoint(
            "agent:primary",
            "loopback_http",
            "http://127.0.0.1:4400/wake",
            None,
            &Vec::new(),
            &resolved,
        )
        .unwrap();
    grant(&mut store, &["agents.write"]);

    let enabled = call(&mut store, "POST", "/v1/agents/agent:primary/enable", TOKEN, "");
    assert_eq!(enabled.status(), 200);
    assert!(store.get_agent_endpoint("agent:primary").unwrap().enabled);

    let disabled = call(&mut store, "POST", "/v1/agents/agent:primary/disable", TOKEN, "");
    assert_eq!(disabled.status(), 200);
    assert!(!store.get_agent_endpoint("agent:primary").unwrap().enabled);
}

#[test]
fn agent_endpoint_create_rejects_an_invalid_transport_over_http() {
    let mut store = store_with_token("secret-token");
    grant(&mut store, &["agents.write"]);

    let body = r#"{"agent_id":"agent:primary","transport":"remote_webhook","endpoint":"https://example.com"}"#;
    let r = call(&mut store, "POST", "/v1/agents", TOKEN, body);
    assert_eq!(r.status(), 400);
}

#[test]
fn a_local_program_is_looked_up_and_kept_as_found() {
    let mut store = store_with_token("secret-token");
    grant(&mut store, &["agents.write"]);
    let body = r#"{"agent_id":"a","transport":"local_process","endpoint":"./agent"}"#;
    let req = request("POST", "/v1/agents", TOKEN, body);
    assert_eq!(path_to_resolve(&req).as_deref(), Some("./agent"));
    let reply = store.handle_request(&req, &Ok("/opt/agent".to_string()));
    match reply {
        Reply::Done(Data::Agent(a)) => assert_eq!(a.endpoint, "/opt/agent"),
        other => panic!("expected an endpoint, got {other:?}"),
    }
    assert_eq!(path_to_resolve(&request("GET", "/v1/agents", TOKEN, body)), None);
}

#[test]
fn an_unknown_route_is_not_found() {
    let mut store = store_with_token("secret-token");
    let r = call(&mut store, "GET", "/v1/nowhere?x=1", TOKEN, "");
    match r {
        Reply::Refused { status, code, message } => {
            assert_eq!(status, 404);
            assert_eq!(code, "NOT_FOUND");
            assert_eq!(message, "no route: GET /v1/nowhere?x=1");
        }
        other => panic!("expected a refusal, got {other:?}"),
    }
}

#[test]
fn refusals_carry_their_codes() {
    let mut store = store_with_token("secret-token");
    grant(&mut store, &["triggers.write", "groups.read"]);
    let bad_sign = call(&mut store, "POST", "/v1/triggers", TOKEN, r#"{"id":"t","operator":"=="}"#);
    assert_eq!((bad_sign.status(), code(&bad_sign)), (400, "INVALID_TIME_VALUE"));
    let no_group = call(&mut store, "POST", "/v1/groups/nope/expand", TOKEN, "");
    assert_eq!((no_group.status(), code(&no_group)), (400, "UNKNOWN_GROUP"));
    let bad_value = call(&mut store, "POST", "/v1/convert", TOKEN, r#"{"value":"x","from":"unix_s"}"#);
    assert_eq!((bad_value.status(), code(&bad_value)), (400, "INVALID_TIME_VALUE"));
    let no_body = call(&mut store, "POST", "/v1/convert", TOKEN, "not json");
    assert_eq!((no_body.status(), code(&no_body)), (400, "INVALID_TIME_VALUE"));
}

#[test]
fn calls_leave_no_record_where_none_are_kept() {
    let mut store = store_with_token("secret-token");
    let mut settings = store.get_settings().unwrap();
    settings.audit_log_enabled = false;
    store.save_settings(&settings);
    call(&mut store, "GET", "/v1/now", TOKEN, "");
    call(&mut store, "GET", "/v1/now", None, "");
    assert!(store.audit_log.is_empty());
}

#[test]
fn routes_need_their_scopes() {
    assert_eq!(required_scope(Method::Get, "/v1/now"), Some("instant.read"));
    assert_eq!(required_scope(Method::Post, "/v1/convert"), Some("convert.execute"));
    assert_eq!(required_scope(Method::Post, "/v1/systems"), Some("systems.write"));
    assert_eq!(required_scope(Method::Get, "/v1/triggers/x"), Some("triggers.read"));
    assert_eq!(required_scope(Method::Post, "/v1/triggers/x/cancel"), Some("triggers.cancel"));
    assert_eq!(required_scope(Method::Get, "/nowhere"), None);
}

#[test]
fn parameters_are_found_in_a_query() {
    assert_eq!(query_param("a=1&b=2", "b").as_deref(), Some("2"));
    assert_eq!(query_param("a=1&b=2", "c"), None);
    assert_eq!(query_param("", "a"), None);
    assert_eq!(query_param("a=1=2", "a").as_deref(), Some("1=2"));
    assert_eq!(status_filter("pending"), Some(WakeEventStatus::Pending));
    assert_eq!(status_filter("dead_letter"), Some(WakeEventStatus::DeadLetter));
    assert_eq!(status_filter("nonsense"), None);
    assert!(equal_ignoring_case("AUTHORIZATION", "Authorization"));
    assert!(!equal_ignoring_case("Authorization", "Authorisation"));
}

#[test]
fn the_preview_has_a_page_two_calls_and_nothing_else() {
    let none = Body::read("");
    let now = 1_700_000_000_000_000_000;
    assert!(matches!(preview_at(Method::Get, "/", &none, now), Preview::Page));
    assert!(matches!(preview_at(Method::Get, "/index.html", &none, now), Preview::Page));
    match preview_at(Method::Get, "/api/now", &none, now) {
        Preview::Answer(Reply::Done(Data::Now(v))) => assert_eq!(v.unix_ns, now),
        other => panic!("expected the instant, got {other:?}"),
    }
    let body = Body::read(r#"{"value":"0","from":"unix_s"}"#);
    match preview_at(Method::Post, "/api/convert", &body, now) {
        Preview::Answer(Reply::Done(Data::Converted(c))) => assert_eq!(c.output, "1970-01-01T00:00:00Z"),
        other => panic!("expected a conversion, got {other:?}"),
    }
    match preview_at(Method::Post, "/", &none, now) {
        Preview::Answer(r) => assert_eq!((r.status(), code(&r)), (404, "NOT_FOUND")),
        other => panic!("expected a refusal, got {other:?}"),
    }
}

#[test]
fn a_body_is_read_field_by_field() {
    let body = Body::read(r#"{"a":"x\u0041","b":1.5,"c":{"k":[1, 2]},"b2":7,"a":"last"}"#);
    assert_eq!(body.text("a").as_deref(), Some("last"));
    assert_eq!(body.number("a"), None);
    assert_eq!(body.json("a").as_deref(), Some("\"last\""));
    assert_eq!(body.number("b"), Some(Number::from_bits(1.5f64.to_bits())));
    assert_eq!(body.number("b2"), Some(Number::from_bits(7.0f64.to_bits())));
    assert_eq!(body.text("b"), None);
    assert_eq!(body.json("c").as_deref(), Some(r#"{"k":[1,2]}"#));
    assert_eq!(body.json("d"), None);
    assert_eq!(Body::read(r#"{"a":"x\u0041"}"#).text("a").as_deref(), Some("xA"));
}

#[test]
fn a_body_that_is_no_object_has_no_fields() {
    for text in ["", "null", "[1]", "\"a\"", "{\"a\":", "{\"a\":1} x"] {
        assert!(Body::read(text).fields.is_empty());
    }
}

#[test]
fn a_filter_is_a_json_string_without_its_quotes() {
    assert_eq!(status_filter(r"pend\u0069ng"), Some(WakeEventStatus::Pending));
    assert_eq!(status_filter("pending\""), None);
    assert_eq!(status_filter("Pending"), None);
    assert_eq!(status_by_name("retry_wait"), Some(WakeEventStatus::RetryWait));
    assert_eq!(status_by_name(r"pend\u0069ng"), None);
}

#[test]
fn the_preview_reads_its_body() {
    match preview(Method::Post, "/api/convert", r#"{"value":"0","from":"unix_s"}"#) {
        Preview::Answer(Reply::Done(Data::Converted(c))) => assert_eq!(c.output, "1970-01-01T00:00:00Z"),
        other => panic!("expected a conversion, got {other:?}"),
    }
}

#[test]
fn nobody_is_let_in_where_the_settings_cannot_be_read() {
    let mut store = Store::open();
    let mut settings = store.get_settings().unwrap();
    settings.device_clock_drift_threshold_s = Number::from_bits(f64::NAN.to_bits());
    store.save_settings(&settings);
    let token = settings.local_api_token.clone();
    match call(&mut store, "GET", "/v1/now", Some(&token), "") {
        Reply::Refused { status, code, message } => {
            assert_eq!((status, code.as_str()), (500, "STORE_ERROR"));
            assert_eq!(message, "failed to read settings");
        }
        other => panic!("expected a refusal, got {other:?}"),
    }
    assert!(store.list_audit_log(10).is_empty());
}

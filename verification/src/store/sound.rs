//! What always holds of the registry: what a sound one looks like, and that nothing done to it makes it
//! unsound.
use crate::api::handler;
use crate::api::handler::MomentModel;
use crate::api::request;
use crate::api::request::RequestModel;
use crate::api::routes;
use crate::api::routes::RouteModel;
use crate::delivery;
use crate::delivery::AttemptModel;
use crate::engine::FiringModel;
use crate::number::Float;
use crate::numeral;
use crate::observer::SampleModel;
use crate::store::audit::AuditModel;
use crate::store::delivery::DeliveryPolicy;
use crate::store::device::{DeviceEventModel, EventKind};
use crate::store::endpoints;
use crate::store::endpoints::{AgentEndpoint, EndpointModel};
use crate::store::groups::{GroupModel, GroupRecord};
use crate::store::instants;
use crate::store::instants::{InstantRecordModel, InstantRow};
use crate::store::receipts::{DecisionReceipt, ReceiptModel};
use crate::store::settings::SettingsModel;
use crate::store::systems;
use crate::store::systems::{SystemRecord, SystemRecordModel};
use crate::store::table;
use crate::store::table::Row;
use crate::store::triggers;
use crate::store::triggers::{
    ActionKind, ActionModel, Operator, Trigger, TriggerKind, TriggerModel, TriggerStatus,
};
use crate::store::wake_events;
use crate::store::wake_events::{DetailModel, WakeEvent, WakeEventModel, WakeEventStatus};
use crate::store::StoreModel;
use crate::system;
use crate::system::RateModel;
use crate::tools;
use crate::tools::ToolCallModel;
use vstd::prelude::*;

verus! {

impl InstantRecordModel {
    /// The time on record can be read.
    pub open spec fn is_sound(self) -> bool {
        numeral::i128_value(self.unix_ns) is Some
    }
}

impl SystemRecordModel {
    /// The system has an id, an epoch and an offset.
    pub open spec fn is_sound(self) -> bool {
        !systems::is_blank(self.id) && !(self.epoch is Nan) && !(self.offset is Nan)
    }
}

impl GroupModel {
    /// The group has an id and members.
    pub open spec fn is_sound(self) -> bool {
        !systems::is_blank(self.id) && self.members.len() > 0
    }
}

impl TriggerModel {
    /// The trigger has an id, a system where it watches one, a target that can be reached, and a time of
    /// firing exactly where it has fired.
    pub open spec fn is_sound(self) -> bool {
        &&& !systems::is_blank(self.id)
        &&& self.kind == TriggerKind::CustomTime ==> self.system_id is Some
        &&& !(self.target_value is Nan)
        &&& self.status == TriggerStatus::Fired <==> self.fired_at is Some
    }
}

impl WakeEventModel {
    /// The event is for somebody, and each time on it is there exactly where its status says so.
    pub open spec fn is_sound(self) -> bool {
        &&& !systems::is_blank(self.agent_id)
        &&& self.acknowledged_at is Some <==> self.status == WakeEventStatus::Acknowledged
            || self.status == WakeEventStatus::Completed
        &&& self.completed_at is Some <==> self.status == WakeEventStatus::Completed
        &&& self.delivered_at is Some <==> self.status == WakeEventStatus::Delivered
        &&& self.status == WakeEventStatus::RetryWait ==> self.next_attempt_at is Some
        &&& self.status == WakeEventStatus::Pending ==> self.attempt_count == 0
        &&& self.attempt_count >= 0
    }
}

impl ReceiptModel {
    /// The receipt says one of the two things that can be decided.
    pub open spec fn is_sound(self) -> bool {
        self.decision == "no_action"@ || self.decision == "action"@
    }
}

impl EndpointModel {
    /// The agent has an id, and is reached by a program on this device or at this device's own address.
    pub open spec fn is_sound(self) -> bool {
        &&& !systems::is_blank(self.agent_id)
        &&& self.transport == "local_process"@ || (self.transport == "loopback_http"@ && (
        endpoints::host_of(self.endpoint) matches Some(host) && endpoints::is_loopback(host)))
    }
}

/// No two events answer to the same idempotency key.
pub open spec fn happens_once(s: Seq<WakeEventModel>) -> bool {
    forall|i: int, j: int|
        0 <= i < j < s.len() ==> (#[trigger] s[i]).idempotency_key != (
        #[trigger] s[j]).idempotency_key
}

/// Calls are numbered in the order in which they were put on record.
pub open spec fn calls_are_numbered(s: Seq<AuditModel>) -> bool {
    forall|i: int, j: int| 0 <= i < j < s.len() ==> (#[trigger] s[i]).id < (#[trigger] s[j]).id
}

/// Irregularities are numbered in the order in which they were put on record.
pub open spec fn irregularities_are_numbered(s: Seq<DeviceEventModel>) -> bool {
    forall|i: int, j: int| 0 <= i < j < s.len() ==> (#[trigger] s[i]).id < (#[trigger] s[j]).id
}

/// Every receipt is about an event that is on record.
pub open spec fn receipts_have_events(receipts: Seq<ReceiptModel>, events: Seq<WakeEventModel>) -> bool {
    forall|i: int|
        0 <= i < receipts.len() ==> table::row::<WakeEvent>(
            events,
            (#[trigger] receipts[i]).event_id,
        ) is Some
}

impl StoreModel {
    /// What always holds: no two rows of a table share their id, no event is there twice, entries are
    /// numbered in order, every receipt is about an event, and every row is sound.
    pub open spec fn is_sound(self) -> bool {
        &&& table::keys_differ::<InstantRow>(self.instants)
        &&& table::keys_differ::<SystemRecord>(self.systems)
        &&& table::keys_differ::<GroupRecord>(self.groups)
        &&& table::keys_differ::<Trigger>(self.triggers)
        &&& table::keys_differ::<WakeEvent>(self.wake_events)
        &&& table::keys_differ::<DecisionReceipt>(self.decision_receipts)
        &&& table::keys_differ::<AgentEndpoint>(self.agent_endpoints)
        &&& happens_once(self.wake_events)
        &&& calls_are_numbered(self.audit_log)
        &&& irregularities_are_numbered(self.device_events)
        &&& receipts_have_events(self.decision_receipts, self.wake_events)
        &&& forall|i: int| 0 <= i < self.instants.len() ==> (#[trigger] self.instants[i]).is_sound()
        &&& forall|i: int| 0 <= i < self.systems.len() ==> (#[trigger] self.systems[i]).is_sound()
        &&& forall|i: int| 0 <= i < self.groups.len() ==> (#[trigger] self.groups[i]).is_sound()
        &&& forall|i: int| 0 <= i < self.triggers.len() ==> (#[trigger] self.triggers[i]).is_sound()
        &&& forall|i: int|
            0 <= i < self.wake_events.len() ==> (#[trigger] self.wake_events[i]).is_sound()
        &&& forall|i: int|
            0 <= i < self.decision_receipts.len() ==> (#[trigger] self.decision_receipts[i]).is_sound()
        &&& forall|i: int|
            0 <= i < self.agent_endpoints.len() ==> (#[trigger] self.agent_endpoints[i]).is_sound()
    }
}

/// One thing that can be done to the registry.
pub enum Step {
    RegisterInstant {
        unix_ns: int,
        label: Option<Seq<char>>,
        from_wall_clock: bool,
        uuid: Seq<char>,
        now: Seq<char>,
    },
    CreateSystem {
        id: Seq<char>,
        parent: Option<Seq<char>>,
        epoch: Float,
        rate: RateModel,
        offset: Float,
        now: Seq<char>,
    },
    CreateGroup {
        id: Seq<char>,
        members: Seq<Seq<char>>,
        owner: Option<Seq<char>>,
        created: Seq<char>,
        updated: Seq<char>,
    },
    CreateTrigger {
        id: Seq<char>,
        kind: TriggerKind,
        system_id: Option<Seq<char>>,
        operator: Operator,
        target_value: Float,
        action: ActionModel,
        now: Seq<char>,
    },
    CancelTrigger { id: Seq<char> },
    MarkFired { id: Seq<char>, now: Seq<char> },
    CreateWakeEvent {
        agent_id: Seq<char>,
        trigger_id: Option<Seq<char>>,
        reason: Seq<char>,
        fired: DetailModel,
        observed: DetailModel,
        payload: DetailModel,
        key: Seq<char>,
        uuid: Seq<char>,
        now: Seq<char>,
    },
    AckWakeEvent { id: Seq<char>, now: Seq<char> },
    CompleteWakeEvent { id: Seq<char>, now: Seq<char> },
    MarkDelivering { id: Seq<char> },
    RecordSuccess { id: Seq<char>, now: Seq<char> },
    RecordFailure { id: Seq<char>, reason: Seq<char>, policy: DeliveryPolicy, now_ns: int },
    CreateReceipt {
        event_id: Seq<char>,
        agent_id: Seq<char>,
        run_id: Seq<char>,
        decision: Seq<char>,
        summary: Option<Seq<char>>,
        tool_calls: Option<Seq<char>>,
        next_wake: Option<Seq<char>>,
        cost: Option<Seq<char>>,
        uuid: Seq<char>,
        now: Seq<char>,
    },
    CreateEndpoint {
        agent_id: Seq<char>,
        transport: Seq<char>,
        endpoint: Seq<char>,
        auth_ref: Option<Seq<char>>,
        kinds: Seq<Seq<char>>,
        resolved: Result<Seq<char>, Seq<char>>,
        now: Seq<char>,
    },
    EnableEndpoint { agent_id: Seq<char>, enabled: bool, now: Seq<char> },
    LogAudit {
        method: Seq<char>,
        path: Seq<char>,
        scope: Option<Seq<char>>,
        allowed: bool,
        reason: Option<Seq<char>>,
        now: Seq<char>,
    },
    LogDeviceEvent { kind: EventKind, delta_ms: i64, wall_gap_ms: i64, mono_gap_ms: i64, now: Seq<char> },
    ReadSettings { token: Seq<char> },
    SaveSettings { settings: SettingsModel },
    RegenerateToken { first: Seq<char>, token: Seq<char> },
}

impl StoreModel {
    /// The registry after something was done to it.
    pub open spec fn after(self, step: Step) -> StoreModel {
        match step {
            Step::RegisterInstant { unix_ns, label, from_wall_clock, uuid, now } =>
                self.register_instant(unix_ns, label, from_wall_clock, uuid, now).0,
            Step::CreateSystem { id, parent, epoch, rate, offset, now } => self.create_system(
                id,
                parent,
                epoch,
                rate,
                offset,
                now,
            ).0,
            Step::CreateGroup { id, members, owner, created, updated } => self.create_group(
                id,
                members,
                owner,
                created,
                updated,
            ).0,
            Step::CreateTrigger { id, kind, system_id, operator, target_value, action, now } =>
                self.create_trigger(id, kind, system_id, operator, target_value, action, now).0,
            Step::CancelTrigger { id } => self.cancel_trigger(id).0,
            Step::MarkFired { id, now } => self.mark_fired(id, now),
            Step::CreateWakeEvent {
                agent_id,
                trigger_id,
                reason,
                fired,
                observed,
                payload,
                key,
                uuid,
                now,
            } => self.create_wake_event(
                agent_id,
                trigger_id,
                reason,
                fired,
                observed,
                payload,
                key,
                uuid,
                now,
            ).0,
            Step::AckWakeEvent { id, now } => self.ack_wake_event(id, now).0,
            Step::CompleteWakeEvent { id, now } => self.complete_wake_event(id, now).0,
            Step::MarkDelivering { id } => self.mark_wake_event_delivering(id).0,
            Step::RecordSuccess { id, now } => self.record_delivery_success(id, now).0,
            Step::RecordFailure { id, reason, policy, now_ns } => self.record_delivery_failure(
                id,
                reason,
                policy,
                now_ns,
            ).0,
            Step::CreateReceipt {
                event_id,
                agent_id,
                run_id,
                decision,
                summary,
                tool_calls,
                next_wake,
                cost,
                uuid,
                now,
            } => self.create_decision_receipt(
                event_id,
                agent_id,
                run_id,
                decision,
                summary,
                tool_calls,
                next_wake,
                cost,
                uuid,
                now,
            ).0,
            Step::CreateEndpoint {
                agent_id,
                transport,
                endpoint,
                auth_ref,
                kinds,
                resolved,
                now,
            } => self.create_agent_endpoint(
                agent_id,
                transport,
                endpoint,
                auth_ref,
                kinds,
                resolved,
                now,
            ).0,
            Step::EnableEndpoint { agent_id, enabled, now } => self.set_agent_endpoint_enabled(
                agent_id,
                enabled,
                now,
            ).0,
            Step::LogAudit { method, path, scope, allowed, reason, now } => self.log_audit(
                method,
                path,
                scope,
                allowed,
                reason,
                now,
            ).0,
            Step::LogDeviceEvent { kind, delta_ms, wall_gap_ms, mono_gap_ms, now } =>
                self.log_device_event(kind, delta_ms, wall_gap_ms, mono_gap_ms, now).0,
            Step::ReadSettings { token } => self.get_settings(token).0,
            Step::SaveSettings { settings } => self.save_settings(settings),
            Step::RegenerateToken { first, token } => self.regenerate_api_token(first, token).0,
        }
    }
}

/// What a row that was put among others leaves: its place is the one of the row with its id, or the end.
proof fn lemma_put<T: Row>(s: Seq<T::V>, m: T::V, i: int)
    requires
        0 <= i < table::put::<T>(s, m).len(),
    ensures
        table::put::<T>(s, m)[i] == m || (i < s.len() && table::put::<T>(s, m)[i] == s[i]),
{
    table::lemma_place::<T>(s, T::key_of(m));
}

/// A row that is found is one of the rows, and has the id that was looked for.
proof fn lemma_row<T: Row>(s: Seq<T::V>, key: Seq<char>)
    requires
        table::row::<T>(s, key) is Some,
    ensures
        exists|i: int| 0 <= i < s.len() && #[trigger] s[i] == table::row::<T>(s, key)->0,
        T::key_of(table::row::<T>(s, key)->0) == key,
{
    table::lemma_place::<T>(s, key);
    let i = table::place::<T>(s, key)->0;
    assert(s[i] == table::row::<T>(s, key)->0);
}

/// A row with an id of its own, put at the end, keeps the ids apart.
proof fn lemma_push_keeps_keys<T: Row>(s: Seq<T::V>, m: T::V)
    requires
        table::keys_differ::<T>(s),
        table::row::<T>(s, T::key_of(m)) is None,
    ensures
        table::keys_differ::<T>(s.push(m)),
        table::put::<T>(s, m) == s.push(m),
{
    table::lemma_put_keeps_keys::<T>(s, m);
}

/// Where no event has an idempotency key, none has.
proof fn lemma_no_such_key(s: Seq<WakeEventModel>, key: Seq<char>)
    requires
        wake_events::with_idempotency_key(s, key) is None,
    ensures
        forall|i: int| 0 <= i < s.len() ==> (#[trigger] s[i]).idempotency_key != key,
    decreases s.len(),
{
    if s.len() > 0 {
        lemma_no_such_key(s.drop_last(), key);
        assert forall|i: int| 0 <= i < s.len() implies (#[trigger] s[i]).idempotency_key != key by {
            if i < s.len() - 1 {
                assert(s.drop_last()[i] == s[i]);
            }
        }
    }
}

/// Changing a sound event into a sound one that keeps its id and its idempotency key keeps the registry
/// sound.
proof fn lemma_event_changed(s: StoreModel, id: Seq<char>, after: WakeEventModel)
    requires
        s.is_sound(),
        table::row::<WakeEvent>(s.wake_events, id) is Some,
        after.event_id == id,
        after.idempotency_key == table::row::<WakeEvent>(s.wake_events, id)->0.idempotency_key,
        after.is_sound(),
    ensures
        s.with_event(after).is_sound(),
{
    let t = s.with_event(after).wake_events;
    let p = table::place::<WakeEvent>(s.wake_events, id)->0;
    table::lemma_place::<WakeEvent>(s.wake_events, id);
    assert(t == s.wake_events.update(p, after));
    table::lemma_put_keeps_keys::<WakeEvent>(s.wake_events, after);
    assert(happens_once(t)) by {
        assert forall|i: int, j: int| 0 <= i < j < t.len() implies (
        #[trigger] t[i]).idempotency_key != (#[trigger] t[j]).idempotency_key by {
            assert(s.wake_events[i].idempotency_key != s.wake_events[j].idempotency_key);
        }
    }
    assert forall|i: int| 0 <= i < s.decision_receipts.len() implies table::row::<WakeEvent>(
        t,
        (#[trigger] s.decision_receipts[i]).event_id,
    ) is Some by {
        let wanted = s.decision_receipts[i].event_id;
        lemma_still_there(s.wake_events, after, wanted);
    }
    assert forall|i: int| 0 <= i < t.len() implies (#[trigger] t[i]).is_sound() by {
        if i != p {
            assert(t[i] == s.wake_events[i]);
        }
    }
}

/// What was on record stays on record when a row is put.
proof fn lemma_still_there(s: Seq<WakeEventModel>, m: WakeEventModel, key: Seq<char>)
    requires
        table::row::<WakeEvent>(s, key) is Some,
    ensures
        table::row::<WakeEvent>(table::put::<WakeEvent>(s, m), key) is Some,
{
    if m.event_id == key {
        table::lemma_put_then_row::<WakeEvent>(s, m);
    } else {
        table::lemma_put_keeps_others::<WakeEvent>(s, m, key);
    }
}

/// A fresh registry is sound.
pub proof fn law_empty_is_sound()
    ensures
        StoreModel::empty().is_sound(),
{
}

/// Nothing that is done to a sound registry makes it unsound. An instant has to fit in 128 bits to be
/// registered.
pub proof fn law_every_step_keeps_sound(s: StoreModel, step: Step)
    requires
        s.is_sound(),
        step matches Step::RegisterInstant { unix_ns, .. } ==> i128::MIN <= unix_ns <= i128::MAX,
    ensures
        s.after(step).is_sound(),
{
    let t = s.after(step);
    match step {
        Step::RegisterInstant { unix_ns, label, from_wall_clock, uuid, now } => {
            numeral::lemma_numeral_round_trip(unix_ns);
            if s.register_instant(unix_ns, label, from_wall_clock, uuid, now).1 is Ok {
                lemma_push_keeps_keys::<InstantRow>(s.instants, t.instants.last());
            }
        },
        Step::CreateSystem { id, parent, epoch, rate, offset, now } => {
            let r = s.create_system(id, parent, epoch, rate, offset, now).1;
            if r is Ok {
                let stored = SystemRecordModel {
                    rate: systems::on_record(rate),
                    created_at: match table::row::<SystemRecord>(s.systems, id) {
                        Some(o) => o.created_at,
                        None => now,
                    },
                    ..r->Ok_0
                };
                table::lemma_put_keeps_keys::<SystemRecord>(s.systems, stored);
                assert forall|i: int| 0 <= i < t.systems.len() implies (
                #[trigger] t.systems[i]).is_sound() by {
                    lemma_put::<SystemRecord>(s.systems, stored, i);
                }
            }
        },
        Step::CreateGroup { id, members, owner, created, updated } => {
            let r = s.create_group(id, members, owner, created, updated).1;
            if r is Ok {
                table::lemma_put_keeps_keys::<GroupRecord>(s.groups, r->Ok_0);
                assert forall|i: int| 0 <= i < t.groups.len() implies (
                #[trigger] t.groups[i]).is_sound() by {
                    lemma_put::<GroupRecord>(s.groups, r->Ok_0, i);
                }
            }
        },
        Step::CreateTrigger { id, kind, system_id, operator, target_value, action, now } => {
            let r = s.create_trigger(id, kind, system_id, operator, target_value, action, now).1;
            if r is Ok {
                lemma_trigger_put(s, r->Ok_0);
            }
        },
        Step::CancelTrigger { id } => {
            if table::row::<Trigger>(s.triggers, id) is Some {
                lemma_row::<Trigger>(s.triggers, id);
                let m = table::row::<Trigger>(s.triggers, id)->0;
                if m.status == TriggerStatus::Active {
                    lemma_trigger_put(s, TriggerModel { status: TriggerStatus::Cancelled, ..m });
                }
            }
        },
        Step::MarkFired { id, now } => {
            if table::row::<Trigger>(s.triggers, id) is Some {
                lemma_row::<Trigger>(s.triggers, id);
                let m = table::row::<Trigger>(s.triggers, id)->0;
                if m.status == TriggerStatus::Active {
                    lemma_trigger_put(
                        s,
                        TriggerModel { status: TriggerStatus::Fired, fired_at: Some(now), ..m },
                    );
                }
            }
        },
        Step::CreateWakeEvent { agent_id, trigger_id, reason, fired, observed, payload, key, uuid, now } => {
            if t != s {
                let event = t.wake_events.last();
                assert(t.wake_events == s.wake_events.push(event));
                lemma_push_keeps_keys::<WakeEvent>(s.wake_events, event);
                lemma_no_such_key(s.wake_events, key);
                assert forall|i: int| 0 <= i < s.decision_receipts.len() implies table::row::<
                    WakeEvent,
                >(t.wake_events, (#[trigger] s.decision_receipts[i]).event_id) is Some by {
                    lemma_still_there(s.wake_events, event, s.decision_receipts[i].event_id);
                }
            }
        },
        Step::AckWakeEvent { id, now } => {
            lemma_event_step(s, step, id);
        },
        Step::CompleteWakeEvent { id, now } => {
            lemma_event_step(s, step, id);
        },
        Step::MarkDelivering { id } => {
            lemma_event_step(s, step, id);
        },
        Step::RecordSuccess { id, now } => {
            lemma_event_step(s, step, id);
        },
        Step::RecordFailure { id, reason, policy, now_ns } => {
            lemma_event_step(s, step, id);
        },
        Step::CreateReceipt { event_id, decision, uuid, .. } => {
            if t != s {
                lemma_push_keeps_keys::<DecisionReceipt>(
                    s.decision_receipts,
                    t.decision_receipts.last(),
                );
            }
        },
        Step::CreateEndpoint { agent_id, transport, endpoint, auth_ref, kinds, resolved, now } => {
            let r = s.create_agent_endpoint(
                agent_id,
                transport,
                endpoint,
                auth_ref,
                kinds,
                resolved,
                now,
            ).1;
            if r is Ok {
                lemma_endpoint_put(s, r->Ok_0);
            }
        },
        Step::EnableEndpoint { agent_id, enabled, now } => {
            let r = s.set_agent_endpoint_enabled(agent_id, enabled, now).1;
            if r is Ok {
                lemma_row::<AgentEndpoint>(s.agent_endpoints, agent_id);
                lemma_endpoint_put(s, r->Ok_0);
            }
        },
        Step::LogAudit { method, path, scope, allowed, reason, now } => {},
        Step::LogDeviceEvent { kind, delta_ms, wall_gap_ms, mono_gap_ms, now } => {},
        Step::ReadSettings { token } => {},
        Step::SaveSettings { settings } => {},
        Step::RegenerateToken { first, token } => {},
    }
}

/// Putting a sound trigger keeps the registry sound.
proof fn lemma_trigger_put(s: StoreModel, m: TriggerModel)
    requires
        s.is_sound(),
        m.is_sound(),
    ensures
        (StoreModel { triggers: table::put::<Trigger>(s.triggers, m), ..s }).is_sound(),
{
    let t = table::put::<Trigger>(s.triggers, m);
    table::lemma_put_keeps_keys::<Trigger>(s.triggers, m);
    assert forall|i: int| 0 <= i < t.len() implies (#[trigger] t[i]).is_sound() by {
        lemma_put::<Trigger>(s.triggers, m, i);
    }
}

/// Putting a sound endpoint keeps the registry sound.
proof fn lemma_endpoint_put(s: StoreModel, m: EndpointModel)
    requires
        s.is_sound(),
        m.is_sound(),
    ensures
        (StoreModel {
            agent_endpoints: table::put::<AgentEndpoint>(s.agent_endpoints, m),
            ..s
        }).is_sound(),
{
    let t = table::put::<AgentEndpoint>(s.agent_endpoints, m);
    table::lemma_put_keeps_keys::<AgentEndpoint>(s.agent_endpoints, m);
    assert forall|i: int| 0 <= i < t.len() implies (#[trigger] t[i]).is_sound() by {
        lemma_put::<AgentEndpoint>(s.agent_endpoints, m, i);
    }
}

/// What is done to one event keeps the registry sound.
proof fn lemma_event_step(s: StoreModel, step: Step, id: Seq<char>)
    requires
        s.is_sound(),
        (step matches Step::AckWakeEvent { id: x, .. } && x == id) || (
        step matches Step::CompleteWakeEvent { id: x, .. } && x == id) || (
        step matches Step::MarkDelivering { id: x } && x == id) || (
        step matches Step::RecordSuccess { id: x, .. } && x == id) || (
        step matches Step::RecordFailure { id: x, .. } && x == id),
    ensures
        s.after(step).is_sound(),
{
    if table::row::<WakeEvent>(s.wake_events, id) is Some {
        lemma_row::<WakeEvent>(s.wake_events, id);
        let m = table::row::<WakeEvent>(s.wake_events, id)->0;
        assert(m.is_sound());
        let outcome = match step {
            Step::AckWakeEvent { id, now } => s.ack_wake_event(id, now).1,
            Step::CompleteWakeEvent { id, now } => s.complete_wake_event(id, now).1,
            Step::MarkDelivering { id } => s.mark_wake_event_delivering(id).1,
            Step::RecordSuccess { id, now } => s.record_delivery_success(id, now).1,
            Step::RecordFailure { id, reason, policy, now_ns } => s.record_delivery_failure(
                id,
                reason,
                policy,
                now_ns,
            ).1,
            _ => Ok(m),
        };
        if outcome is Ok {
            lemma_event_changed(s, id, outcome->Ok_0);
        }
    }
}

/// Putting a call on record, where calls are, keeps the registry sound.
proof fn lemma_audited(
    s: StoreModel,
    settings: SettingsModel,
    req: RequestModel,
    scope: Option<Seq<char>>,
    allowed: bool,
    reason: Option<Seq<char>>,
    at: Seq<char>,
)
    requires
        s.is_sound(),
    ensures
        s.audited(settings, req, scope, allowed, reason, at).is_sound(),
{
    law_every_step_keeps_sound(
        s,
        Step::LogAudit {
            method: req.method_name,
            path: req.url,
            scope,
            allowed,
            reason,
            now: at,
        },
    );
}

/// Whatever a caller of the interface asks for, a sound registry stays sound.
pub proof fn law_every_call_keeps_sound(
    s: StoreModel,
    req: RequestModel,
    m: MomentModel,
    resolved: Result<Seq<char>, Seq<char>>,
)
    requires
        s.is_sound(),
    ensures
        s.handle_request(req, m, resolved).0.is_sound(),
{
    let scope = routes::scope_of(req.method, req.path());
    let b = s.get_settings(m.token).0;
    let settings = s.get_settings(m.token).1->Ok_0;
    law_every_step_keeps_sound(s, Step::ReadSettings { token: m.token });
    lemma_audited(
        b,
        settings,
        req,
        scope,
        false,
        Some("missing or invalid bearer token"@),
        m.audited_at,
    );
    lemma_audited(b, settings, req, scope, false, Some("scope not granted"@), m.audited_at);
    lemma_audited(b, settings, req, scope, true, None, m.audited_at);
    let t = s.let_in(req, m).0;
    match routes::route_of(req.method, req.path()) {
        RouteModel::CreateTrigger => {
            let sign = request::text_or(req.body, "operator"@, ">="@);
            if triggers::operator_of(sign) is Some {
                law_every_step_keeps_sound(
                    t,
                    Step::CreateTrigger {
                        id: request::text_or(req.body, "id"@, Seq::empty()),
                        kind: handler::trigger_kind_in(req.body),
                        system_id: request::field_text(req.body, "system_id"@),
                        operator: triggers::operator_of(sign)->0,
                        target_value: match request::field_number(req.body, "target_value"@) {
                            Some(n) => n,
                            None => system::zero(),
                        },
                        action: handler::action_in(req.body),
                        now: m.now,
                    },
                );
            }
        },
        RouteModel::CancelTrigger(id) => {
            law_every_step_keeps_sound(t, Step::CancelTrigger { id });
        },
        RouteModel::AckWakeEvent(id) => {
            law_every_step_keeps_sound(t, Step::AckWakeEvent { id, now: m.now });
        },
        RouteModel::CompleteWakeEvent(id) => {
            law_every_step_keeps_sound(t, Step::CompleteWakeEvent { id, now: m.now });
        },
        RouteModel::FileDecision(id) => {
            law_every_step_keeps_sound(
                t,
                Step::CreateReceipt {
                    event_id: id,
                    agent_id: request::text_or(req.body, "agent_id"@, Seq::empty()),
                    run_id: request::text_or(req.body, "run_id"@, Seq::empty()),
                    decision: request::text_or(req.body, "decision"@, Seq::empty()),
                    summary: request::field_text(req.body, "summary"@),
                    tool_calls: request::field_json(req.body, "tool_calls"@),
                    next_wake: request::field_json(req.body, "next_wake"@),
                    cost: request::field_json(req.body, "cost"@),
                    uuid: m.uuid,
                    now: m.now,
                },
            );
        },
        RouteModel::CreateAgent => {
            law_every_step_keeps_sound(
                t,
                Step::CreateEndpoint {
                    agent_id: request::text_or(req.body, "agent_id"@, Seq::empty()),
                    transport: request::text_or(req.body, "transport"@, Seq::empty()),
                    endpoint: request::text_or(req.body, "endpoint"@, Seq::empty()),
                    auth_ref: request::field_text(req.body, "auth_ref"@),
                    kinds: Seq::empty(),
                    resolved,
                    now: m.now,
                },
            );
        },
        RouteModel::EnableAgent(id) => {
            law_every_step_keeps_sound(
                t,
                Step::EnableEndpoint { agent_id: id, enabled: true, now: m.now },
            );
        },
        RouteModel::DisableAgent(id) => {
            law_every_step_keeps_sound(
                t,
                Step::EnableEndpoint { agent_id: id, enabled: false, now: m.now },
            );
        },
        _ => {},
    }
}

/// Whichever tool is called, a sound registry stays sound.
pub proof fn law_every_tool_keeps_sound(s: StoreModel, call: ToolCallModel, m: MomentModel)
    requires
        s.is_sound(),
        m.is_possible(),
    ensures
        s.call_tool(call, m).0.is_sound(),
{
    let b = s.get_settings(m.token).0;
    let settings = s.get_settings(m.token).1->Ok_0;
    law_every_step_keeps_sound(s, Step::ReadSettings { token: m.token });
    let granted = settings.grants(call.scope());
    law_every_step_keeps_sound(
        b,
        Step::LogAudit {
            method: "MCP"@,
            path: call.name(),
            scope: Some(call.scope()),
            allowed: granted,
            reason: if granted {
                None
            } else {
                Some("scope not granted"@)
            },
            now: m.audited_at,
        },
    );
    let t = s.require_scope(call.name(), call.scope(), m.token, m.audited_at).0;
    match call {
        ToolCallModel::RegisterInstant { unix_ns, label } => {
            if tools::instant_to_register(unix_ns, m.now_ns) is Ok {
                let (ns, from_wall_clock) = tools::instant_to_register(unix_ns, m.now_ns)->Ok_0;
                law_every_step_keeps_sound(
                    t,
                    Step::RegisterInstant {
                        unix_ns: ns,
                        label,
                        from_wall_clock,
                        uuid: m.uuid,
                        now: m.now,
                    },
                );
            }
        },
        ToolCallModel::CreateSystem { id, epoch_parent_sec, rate, offset } => {
            law_every_step_keeps_sound(
                t,
                Step::CreateSystem {
                    id,
                    parent: None,
                    epoch: epoch_parent_sec,
                    rate: RateModel::Constant { value: rate },
                    offset,
                    now: m.now,
                },
            );
        },
        ToolCallModel::CreateTrigger(input) => {
            if triggers::operator_of(input.operator) is Some {
                law_every_step_keeps_sound(
                    t,
                    Step::CreateTrigger {
                        id: input.id,
                        kind: triggers::kind_of(input.kind),
                        system_id: input.system_id,
                        operator: triggers::operator_of(input.operator)->0,
                        target_value: input.target_value,
                        action: ActionModel {
                            kind: triggers::action_kind_of(input.action_kind),
                            target: input.action_target,
                        },
                        now: m.now,
                    },
                );
            }
        },
        ToolCallModel::CancelTrigger { id } => {
            law_every_step_keeps_sound(t, Step::CancelTrigger { id });
        },
        ToolCallModel::AckWakeEvent { event_id } => {
            law_every_step_keeps_sound(t, Step::AckWakeEvent { id: event_id, now: m.now });
        },
        ToolCallModel::CompleteWakeEvent { event_id } => {
            law_every_step_keeps_sound(t, Step::CompleteWakeEvent { id: event_id, now: m.now });
        },
        ToolCallModel::SchedulePulse { agent_id, after_seconds, id } => {
            law_every_step_keeps_sound(
                t,
                Step::CreateTrigger {
                    id: match id {
                        Some(id) => id,
                        None => "trigger:pulse:"@ + m.uuid,
                    },
                    kind: TriggerKind::CommonInstant,
                    system_id: None,
                    operator: Operator::Ge,
                    target_value: tools::pulse_target(after_seconds, m.now_ns),
                    action: ActionModel { kind: ActionKind::AgentWake, target: agent_id },
                    now: m.now,
                },
            );
        },
        _ => {},
    }
}

/// However a trigger that is due is settled, a sound registry stays sound.
proof fn lemma_settle(s: StoreModel, t: TriggerModel, now_s: Float, f: FiringModel)
    requires
        s.is_sound(),
    ensures
        s.settle(t, now_s, f).0.is_sound(),
{
    let woken = s.create_wake_event_from_trigger(t, now_s, f.uuid, f.now).0;
    if s.observed_value(t, now_s) is Ok {
        law_every_step_keeps_sound(
            s,
            Step::CreateWakeEvent {
                agent_id: t.action.target,
                trigger_id: Some(t.id),
                reason: "trigger_condition_satisfied"@,
                fired: DetailModel::Fired { unix_s: now_s, source: "ctcl_trigger_engine"@ },
                observed: DetailModel::Observed {
                    operator: t.operator,
                    target_value: t.target_value,
                    observed_value: s.observed_value(t, now_s)->Ok_0,
                },
                payload: DetailModel::Json("{}"@),
                key: wake_events::firing_key(t),
                uuid: f.uuid,
                now: f.now,
            },
        );
    }
    law_every_step_keeps_sound(woken, Step::MarkFired { id: t.id, now: f.fired_at });
    law_every_step_keeps_sound(s, Step::MarkFired { id: t.id, now: f.fired_at });
}

/// A pass of the trigger engine keeps a sound registry sound.
pub proof fn law_firing_keeps_sound(
    s: StoreModel,
    due: Seq<TriggerModel>,
    now_s: Float,
    firings: Seq<FiringModel>,
)
    requires
        s.is_sound(),
    ensures
        s.settle_all(due, now_s, firings).0.is_sound(),
    decreases due.len(),
{
    if due.len() > 0 {
        law_firing_keeps_sound(s, due.drop_last(), now_s, firings.drop_last());
        lemma_settle(
            s.settle_all(due.drop_last(), now_s, firings.drop_last()).0,
            due.last(),
            now_s,
            firings.last(),
        );
    }
}

/// Whatever comes of an attempt at an event, a sound registry stays sound.
proof fn lemma_attempt(s: StoreModel, event: WakeEventModel, policy: DeliveryPolicy, a: AttemptModel)
    requires
        s.is_sound(),
    ensures
        s.attempt(event, policy, a).0.is_sound(),
{
    let (t, claimed) = s.mark_wake_event_delivering(event.event_id);
    law_every_step_keeps_sound(s, Step::MarkDelivering { id: event.event_id });
    if claimed is Ok {
        let id = claimed->Ok_0.event_id;
        law_every_step_keeps_sound(t, Step::RecordSuccess { id, now: a.now });
        if a.result is Err {
            law_every_step_keeps_sound(
                t,
                Step::RecordFailure { id, reason: a.result->Err_0, policy, now_ns: a.now_ns },
            );
        }
    }
}

/// Attempts at one event after the other keep a sound registry sound.
proof fn lemma_attempts(
    s: StoreModel,
    due: Seq<WakeEventModel>,
    policy: DeliveryPolicy,
    attempts: Seq<AttemptModel>,
)
    requires
        s.is_sound(),
    ensures
        s.attempt_all(due, policy, attempts).0.is_sound(),
    decreases due.len(),
{
    if due.len() > 0 {
        lemma_attempts(s, due.drop_last(), policy, attempts.drop_last());
        lemma_attempt(
            s.attempt_all(due.drop_last(), policy, attempts.drop_last()).0,
            due.last(),
            policy,
            attempts.last(),
        );
    }
}

/// A pass of the delivery worker keeps a sound registry sound.
pub proof fn law_delivery_keeps_sound(
    s: StoreModel,
    token: Seq<char>,
    now: Seq<char>,
    policy: DeliveryPolicy,
    attempts: Seq<AttemptModel>,
)
    requires
        s.is_sound(),
    ensures
        s.deliver_due(token, now, policy, attempts).0.is_sound(),
{
    let b = s.get_settings(token).0;
    law_every_step_keeps_sound(s, Step::ReadSettings { token });
    lemma_attempts(
        b,
        b.due_for_delivery(now, delivery::MAX_PER_TICK as nat),
        policy,
        attempts,
    );
}

/// A sample of the device's clock keeps a sound registry sound.
pub proof fn law_sample_keeps_sound(s: StoreModel, sample: SampleModel, logged_at: Seq<char>)
    requires
        s.is_sound(),
    ensures
        s.keep_sample(sample, logged_at).is_sound(),
{
    law_every_step_keeps_sound(
        s,
        Step::LogDeviceEvent {
            kind: sample.kind,
            delta_ms: sample.delta_ms,
            wall_gap_ms: sample.wall_gap_ms,
            mono_gap_ms: sample.mono_gap_ms,
            now: logged_at,
        },
    );
}

/// In a sound registry the time of every registered instant can be read.
pub proof fn law_sound_times_are_readable(s: StoreModel, instant_id: Option<Seq<char>>)
    requires
        s.is_sound(),
    ensures
        s.has_numeral(instant_id),
{
    if instant_id is Some && s.get_instant(instant_id->0) is Ok {
        lemma_row::<InstantRow>(s.instants, instants::bare_id(instant_id->0));
    }
}

} // verus!

//! What happens to the registry over time, and what becomes of a trigger and its events meanwhile.
use crate::api::handler::MomentModel;
use crate::api::request;
use crate::api::request::RequestModel;
use crate::api::routes;
use crate::api::routes::RouteModel;
use crate::delivery::AttemptModel;
use crate::engine::FiringModel;
use crate::number::Float;
use crate::store::delivery::DeliveryPolicy;
use crate::store::error::StoreErrorModel;
use crate::store::sound::Step;
use crate::store::systems;
use crate::store::table;
use crate::store::triggers;
use crate::store::triggers::{ActionKind, Trigger, TriggerModel, TriggerStatus};
use crate::store::wake_events;
use crate::store::wake_events::{WakeEvent, WakeEventModel};
use crate::store::StoreModel;
use crate::tools::ToolCallModel;
use vstd::prelude::*;

verus! {

/// Something that happens to the registry.
pub enum Turn {
    Step(Step),
    /// A pass of the trigger engine.
    Firing { now_s: Float, firings: Seq<FiringModel> },
    /// A pass of the delivery worker.
    Delivery {
        token: Seq<char>,
        now: Seq<char>,
        policy: DeliveryPolicy,
        attempts: Seq<AttemptModel>,
    },
    /// A call of the interface.
    Call { req: RequestModel, m: MomentModel, resolved: Result<Seq<char>, Seq<char>> },
    /// A call of a tool.
    Tool { call: ToolCallModel, m: MomentModel },
}

impl Turn {
    /// Whether this sets the trigger with an id, and so arms it, where it succeeds.
    pub open spec fn arms(self, id: Seq<char>) -> bool {
        match self {
            Turn::Step(step) => step matches Step::CreateTrigger { id: x, .. } && x == id,
            Turn::Call { req, .. } => routes::route_of(req.method, req.path())
                == RouteModel::CreateTrigger && request::text_or(req.body, "id"@, Seq::empty()) == id,
            Turn::Tool { call, m } => match call {
                ToolCallModel::CreateTrigger(input) => input.id == id,
                ToolCallModel::SchedulePulse { id: x, .. } => id == (match x {
                    Some(y) => y,
                    None => "trigger:pulse:"@ + m.uuid,
                }),
                _ => false,
            },
            _ => false,
        }
    }
}

impl StoreModel {
    /// The registry after something has happened to it.
    pub open spec fn after_turn(self, turn: Turn) -> StoreModel {
        match turn {
            Turn::Step(step) => self.after(step),
            Turn::Firing { now_s, firings } => self.settle_all(
                self.due_triggers(now_s),
                now_s,
                firings,
            ).0,
            Turn::Delivery { token, now, policy, attempts } => self.deliver_due(
                token,
                now,
                policy,
                attempts,
            ).0,
            Turn::Call { req, m, resolved } => self.handle_request(req, m, resolved).0,
            Turn::Tool { call, m } => self.call_tool(call, m).0,
        }
    }

    /// The registry after one thing after the other has happened to it.
    pub open spec fn after_all(self, turns: Seq<Turn>) -> StoreModel
        decreases turns.len(),
    {
        if turns.len() == 0 {
            self
        } else {
            self.after_all(turns.drop_last()).after_turn(turns.last())
        }
    }

    /// Whether a trigger is on record, under an id of its own, as fired.
    pub open spec fn has_fired(self, id: Seq<char>) -> bool {
        &&& table::keys_differ::<Trigger>(self.triggers)
        &&& self.get_trigger(id) matches Ok(t) && t.status == TriggerStatus::Fired
    }

    /// Whether a trigger is on record, under an id of its own, and was not called off.
    spec fn is_pending(self, id: Seq<char>) -> bool {
        &&& table::keys_differ::<Trigger>(self.triggers)
        &&& self.get_trigger(id) matches Ok(t) && t.status != TriggerStatus::Cancelled
    }
}

/// Marking a trigger as fired calls none off, and takes back no firing.
proof fn lemma_mark_fired(s: StoreModel, other: Seq<char>, at: Seq<char>, id: Seq<char>)
    requires
        s.is_pending(id),
    ensures
        s.mark_fired(other, at).is_pending(id),
        s.has_fired(id) ==> s.mark_fired(other, at).has_fired(id),
        other == id ==> s.mark_fired(other, at).has_fired(id),
{
    table::lemma_place::<Trigger>(s.triggers, other);
    if table::row::<Trigger>(s.triggers, other) is Some {
        let t = table::row::<Trigger>(s.triggers, other)->0;
        let u = TriggerModel { status: TriggerStatus::Fired, fired_at: Some(at), ..t };
        table::lemma_put_keeps_keys::<Trigger>(s.triggers, u);
        table::lemma_put_then_row::<Trigger>(s.triggers, u);
        if other != id {
            table::lemma_put_keeps_others::<Trigger>(s.triggers, u, id);
        }
    }
}

/// Settling a trigger calls none off, takes back no firing, and where it fires marks it.
proof fn lemma_settle(s: StoreModel, t: TriggerModel, now_s: Float, f: FiringModel, id: Seq<char>)
    requires
        s.is_pending(id),
    ensures
        s.settle(t, now_s, f).0.is_pending(id),
        s.has_fired(id) ==> s.settle(t, now_s, f).0.has_fired(id),
        s.settle(t, now_s, f).1 && t.id == id ==> s.settle(t, now_s, f).0.has_fired(id),
{
    let woken = s.create_wake_event_from_trigger(t, now_s, f.uuid, f.now).0;
    assert(woken.triggers == s.triggers);
    lemma_mark_fired(s, t.id, f.fired_at, id);
    lemma_mark_fired(woken, t.id, f.fired_at, id);
}

/// A pass calls no trigger off, takes back no firing, and marks what fires; and what fires was due.
proof fn lemma_pass(
    s: StoreModel,
    due: Seq<TriggerModel>,
    now_s: Float,
    firings: Seq<FiringModel>,
    id: Seq<char>,
)
    requires
        s.is_pending(id),
    ensures
        ({
            let (t, fired) = s.settle_all(due, now_s, firings);
            &&& t.is_pending(id)
            &&& s.has_fired(id) ==> t.has_fired(id)
            &&& forall|x: TriggerModel| #[trigger]
                fired.contains(x) ==> due.contains(x) && (x.id == id ==> t.has_fired(id))
        }),
    decreases due.len(),
{
    if due.len() > 0 {
        let rest = due.drop_last();
        let (u, before) = s.settle_all(rest, now_s, firings.drop_last());
        lemma_pass(s, rest, now_s, firings.drop_last(), id);
        lemma_settle(u, due.last(), now_s, firings.last(), id);
        let (t, fired) = s.settle_all(due, now_s, firings);
        assert forall|x: TriggerModel| #[trigger] fired.contains(x) implies due.contains(x) && (x.id
            == id ==> t.has_fired(id)) by {
            let i = choose|i: int| 0 <= i < fired.len() && fired[i] == x;
            if i < before.len() {
                assert(before[i] == x);
                assert(before.contains(x));
                let k = choose|k: int| 0 <= k < rest.len() && rest[k] == x;
                assert(due[k] == x);
            } else {
                assert(due[due.len() - 1] == x);
            }
        }
    }
}

/// Setting another trigger leaves one that has fired alone.
proof fn lemma_set_other(s: StoreModel, t: TriggerModel, id: Seq<char>)
    requires
        s.has_fired(id),
        t.id != id,
    ensures
        (StoreModel { triggers: table::put::<Trigger>(s.triggers, t), ..s }).has_fired(id),
{
    table::lemma_put_keeps_keys::<Trigger>(s.triggers, t);
    table::lemma_put_keeps_others::<Trigger>(s.triggers, t, id);
}

/// Calling a trigger off leaves one that has fired alone.
proof fn lemma_cancel(s: StoreModel, other: Seq<char>, id: Seq<char>)
    requires
        s.has_fired(id),
    ensures
        s.cancel_trigger(other).0.has_fired(id),
{
    table::lemma_place::<Trigger>(s.triggers, other);
    if table::row::<Trigger>(s.triggers, other) is Some && other != id {
        let t = table::row::<Trigger>(s.triggers, other)->0;
        lemma_set_other(s, TriggerModel { status: TriggerStatus::Cancelled, ..t }, id);
    }
}

/// Attempts at delivery touch no trigger.
proof fn lemma_attempts(
    s: StoreModel,
    due: Seq<WakeEventModel>,
    policy: DeliveryPolicy,
    attempts: Seq<AttemptModel>,
)
    ensures
        s.attempt_all(due, policy, attempts).0.triggers == s.triggers,
    decreases due.len(),
{
    if due.len() > 0 {
        lemma_attempts(s, due.drop_last(), policy, attempts.drop_last());
    }
}

/// Whatever happens, a trigger that has fired stays so, unless it is set again.
proof fn lemma_turn(s: StoreModel, turn: Turn, id: Seq<char>)
    requires
        s.has_fired(id),
        !turn.arms(id),
    ensures
        s.after_turn(turn).has_fired(id),
{
    match turn {
        Turn::Step(step) => match step {
            Step::CreateTrigger { id: x, kind, system_id, operator, target_value, action, now } => {
                let r = s.create_trigger(x, kind, system_id, operator, target_value, action, now).1;
                if r is Ok {
                    lemma_set_other(s, r->Ok_0, id);
                }
            },
            Step::CancelTrigger { id: x } => {
                lemma_cancel(s, x, id);
            },
            Step::MarkFired { id: x, now } => {
                lemma_mark_fired(s, x, now, id);
            },
            _ => {
                assert(s.after(step).triggers == s.triggers);
            },
        },
        Turn::Firing { now_s, firings } => {
            lemma_pass(s, s.due_triggers(now_s), now_s, firings, id);
        },
        Turn::Delivery { token, now, policy, attempts } => {
            let (u, due) = s.open_pass(token, now);
            lemma_attempts(u, due, policy, attempts);
        },
        Turn::Call { req, m, resolved } => {
            let (u, refused) = s.let_in(req, m);
            assert(u.triggers == s.triggers);
            if refused is None {
                match routes::route_of(req.method, req.path()) {
                    RouteModel::CreateTrigger => {
                        let after = u.answer(req, m, resolved).0;
                        let sign = request::text_or(req.body, "operator"@, ">="@);
                        if triggers::operator_of(sign) is Some && after != u {
                            let x = request::text_or(req.body, "id"@, Seq::empty());
                            let t = choose|t: TriggerModel|
                                t.id == x && after.triggers == #[trigger] table::put::<Trigger>(
                                    u.triggers,
                                    t,
                                );
                            lemma_set_other(u, t, id);
                        }
                    },
                    RouteModel::CancelTrigger(x) => {
                        lemma_cancel(u, x, id);
                    },
                    _ => {
                        assert(u.answer(req, m, resolved).0.triggers == u.triggers);
                    },
                }
            }
        },
        Turn::Tool { call, m } => {
            let (u, gate) = s.require_scope(call.name(), call.scope(), m.token, m.audited_at);
            assert(u.triggers == s.triggers);
            if gate is Ok {
                let after = u.run_tool(call, m).0;
                match call {
                    ToolCallModel::CancelTrigger { id: x } => {
                        lemma_cancel(u, x, id);
                    },
                    ToolCallModel::CreateTrigger(input) => {
                        let r = u.create_described_trigger(input, m.now).1;
                        if r is Ok {
                            lemma_set_other(u, r->Ok_0, id);
                        }
                    },
                    ToolCallModel::SchedulePulse { .. } => {
                        if after != u {
                            let t = choose|t: TriggerModel|
                                t.id != id && after.triggers == #[trigger] table::put::<Trigger>(
                                    u.triggers,
                                    t,
                                );
                            lemma_set_other(u, t, id);
                        }
                    },
                    _ => {
                        assert(after.triggers == u.triggers);
                    },
                }
            }
        },
    }
}

/// Whatever happens in turn, a trigger that has fired stays so, unless it is set again.
proof fn lemma_turns(s: StoreModel, turns: Seq<Turn>, id: Seq<char>)
    requires
        s.has_fired(id),
        forall|k: int| 0 <= k < turns.len() ==> !(#[trigger] turns[k]).arms(id),
    ensures
        s.after_all(turns).has_fired(id),
    decreases turns.len(),
{
    if turns.len() > 0 {
        let rest = turns.drop_last();
        assert forall|k: int| 0 <= k < rest.len() implies !(#[trigger] rest[k]).arms(id) by {
            assert(rest[k] == turns[k]);
        }
        lemma_turns(s, rest, id);
        assert(!turns[turns.len() - 1].arms(id));
        lemma_turn(s.after_all(rest), turns.last(), id);
    }
}

/// A trigger that has fired is not among those that are due.
proof fn lemma_fired_is_not_due(s: StoreModel, now_s: Float, id: Seq<char>, x: TriggerModel)
    requires
        s.has_fired(id),
        s.due_triggers(now_s).contains(x),
    ensures
        x.id != id,
{
    triggers::law_due_is_active_and_met(s, now_s, x);
    table::lemma_place::<Trigger>(s.triggers, id);
    let p = table::place::<Trigger>(s.triggers, id)->0;
    let k = choose|k: int| 0 <= k < s.triggers.len() && s.triggers[k] == x;
    if x.id == id {
        if k < p {
            assert(s.triggers[k].id != s.triggers[p].id);
        } else if p < k {
            assert(s.triggers[p].id != s.triggers[k].id);
        }
    }
}

/// A trigger fires exactly once per arming. Once a pass has fired it, and whatever happens after that,
/// further passes among it, unless the trigger is set again: it is on record as fired, no later pass
/// finds it due, and so hands its action to no dispatcher, and no later pass fires it.
pub proof fn law_fires_once(
    s: StoreModel,
    now_s: Float,
    firings: Seq<FiringModel>,
    t: TriggerModel,
    turns: Seq<Turn>,
    later_s: Float,
    later: Seq<FiringModel>,
)
    requires
        s.is_sound(),
        s.settle_all(s.due_triggers(now_s), now_s, firings).1.contains(t),
        forall|k: int| 0 <= k < turns.len() ==> !(#[trigger] turns[k]).arms(t.id),
    ensures
        ({
            let u = s.settle_all(s.due_triggers(now_s), now_s, firings).0.after_all(turns);
            let (v, fired) = u.settle_all(u.due_triggers(later_s), later_s, later);
            &&& u.has_fired(t.id)
            &&& v.has_fired(t.id)
            &&& forall|x: TriggerModel| #[trigger]
                u.due_triggers(later_s).contains(x) ==> x.id != t.id
            &&& forall|x: TriggerModel| #[trigger] fired.contains(x) ==> x.id != t.id
        }),
{
    let id = t.id;
    let due = s.due_triggers(now_s);
    lemma_fired_was_due(s, due, now_s, firings, t);
    triggers::law_due_is_active_and_met(s, now_s, t);
    let k = choose|k: int| 0 <= k < s.triggers.len() && s.triggers[k] == t;
    assert forall|j: int| 0 <= j < k implies (#[trigger] s.triggers[j]).id != id by {
        assert(s.triggers[k].id == id);
    }
    table::lemma_place_is::<Trigger>(s.triggers, id, k);
    lemma_pass(s, due, now_s, firings, id);
    let u = s.settle_all(due, now_s, firings).0.after_all(turns);
    lemma_turns(s.settle_all(due, now_s, firings).0, turns, id);
    lemma_pass(u, u.due_triggers(later_s), later_s, later, id);
    assert forall|x: TriggerModel| #[trigger] u.due_triggers(later_s).contains(x) implies x.id
        != id by {
        lemma_fired_is_not_due(u, later_s, id, x);
    }
}

/// What fires was due.
proof fn lemma_fired_was_due(
    s: StoreModel,
    due: Seq<TriggerModel>,
    now_s: Float,
    firings: Seq<FiringModel>,
    t: TriggerModel,
)
    requires
        s.settle_all(due, now_s, firings).1.contains(t),
    ensures
        due.contains(t),
    decreases due.len(),
{
    let fired = s.settle_all(due, now_s, firings).1;
    let i = choose|i: int| 0 <= i < fired.len() && fired[i] == t;
    if due.len() > 0 {
        let rest = due.drop_last();
        let before = s.settle_all(rest, now_s, firings.drop_last()).1;
        if i < before.len() {
            assert(before[i] == t);
            lemma_fired_was_due(s, rest, now_s, firings.drop_last(), t);
            let k = choose|k: int| 0 <= k < rest.len() && rest[k] == t;
            assert(due[k] == t);
        } else {
            assert(due[due.len() - 1] == t);
        }
    }
}

impl StoreModel {
    /// Whether the event that answers to an idempotency key is the one with an id.
    pub open spec fn remembers(self, key: Seq<char>, id: Seq<char>) -> bool {
        wake_events::with_idempotency_key(self.wake_events, key) matches Some(m) && m.event_id == id
    }
}

/// An event in the place of one with the same id and the same key leaves the keys as they were.
proof fn lemma_updated(s: Seq<WakeEventModel>, p: int, m: WakeEventModel, key: Seq<char>)
    requires
        0 <= p < s.len(),
        m.event_id == s[p].event_id,
        m.idempotency_key == s[p].idempotency_key,
    ensures
        (match wake_events::with_idempotency_key(s, key) {
            Some(x) => wake_events::with_idempotency_key(s.update(p, m), key) matches Some(y)
                && y.event_id == x.event_id,
            None => wake_events::with_idempotency_key(s.update(p, m), key) is None,
        }),
    decreases s.len(),
{
    let rest = s.drop_last();
    if p < rest.len() {
        lemma_updated(rest, p, m, key);
        assert(s.update(p, m).drop_last() =~= rest.update(p, m));
    } else {
        assert(s.update(p, m).drop_last() =~= rest);
    }
}

/// Changing an event that keeps its id and its key leaves the keys as they were.
proof fn lemma_event_changed(
    s: StoreModel,
    at: Seq<char>,
    m: WakeEventModel,
    key: Seq<char>,
    id: Seq<char>,
)
    requires
        s.remembers(key, id),
        table::row::<WakeEvent>(s.wake_events, at) matches Some(x) && m.event_id == x.event_id
            && m.idempotency_key == x.idempotency_key,
    ensures
        s.with_event(m).remembers(key, id),
{
    table::lemma_place::<WakeEvent>(s.wake_events, at);
    let p = table::place::<WakeEvent>(s.wake_events, at)->0;
    lemma_updated(s.wake_events, p, m, key);
}

/// What is done to one event leaves the keys as they were.
proof fn lemma_event_steps(
    s: StoreModel,
    at: Seq<char>,
    now: Seq<char>,
    reason: Seq<char>,
    policy: DeliveryPolicy,
    now_ns: int,
    key: Seq<char>,
    id: Seq<char>,
)
    requires
        s.remembers(key, id),
    ensures
        s.ack_wake_event(at, now).0.remembers(key, id),
        s.complete_wake_event(at, now).0.remembers(key, id),
        s.mark_wake_event_delivering(at).0.remembers(key, id),
        s.record_delivery_success(at, now).0.remembers(key, id),
        s.record_delivery_failure(at, reason, policy, now_ns).0.remembers(key, id),
{
    if table::row::<WakeEvent>(s.wake_events, at) is Some {
        let acked = s.ack_wake_event(at, now).1;
        if acked is Ok {
            lemma_event_changed(s, at, acked->Ok_0, key, id);
        }
        let completed = s.complete_wake_event(at, now).1;
        if completed is Ok {
            lemma_event_changed(s, at, completed->Ok_0, key, id);
        }
        let claimed = s.mark_wake_event_delivering(at).1;
        if claimed is Ok {
            lemma_event_changed(s, at, claimed->Ok_0, key, id);
        }
        let succeeded = s.record_delivery_success(at, now).1;
        if succeeded is Ok {
            lemma_event_changed(s, at, succeeded->Ok_0, key, id);
        }
        let failed = s.record_delivery_failure(at, reason, policy, now_ns).1;
        if failed is Ok {
            lemma_event_changed(s, at, failed->Ok_0, key, id);
        }
    }
}

/// One more event leaves those that are there as they were.
proof fn lemma_pushed(s: StoreModel, m: WakeEventModel, key: Seq<char>, id: Seq<char>)
    requires
        s.remembers(key, id),
    ensures
        (StoreModel { wake_events: s.wake_events.push(m), ..s }).remembers(key, id),
{
    assert(s.wake_events.push(m).drop_last() =~= s.wake_events);
}

/// Settling triggers leaves the events that are there as they were.
proof fn lemma_settled(
    s: StoreModel,
    due: Seq<TriggerModel>,
    now_s: Float,
    firings: Seq<FiringModel>,
    key: Seq<char>,
    id: Seq<char>,
)
    requires
        s.remembers(key, id),
    ensures
        s.settle_all(due, now_s, firings).0.remembers(key, id),
    decreases due.len(),
{
    if due.len() > 0 {
        let rest = due.drop_last();
        lemma_settled(s, rest, now_s, firings.drop_last(), key, id);
        let u = s.settle_all(rest, now_s, firings.drop_last()).0;
        let f = firings.last();
        let woken = u.create_wake_event_from_trigger(due.last(), now_s, f.uuid, f.now).0;
        if woken != u {
            lemma_pushed(u, woken.wake_events.last(), key, id);
            assert(woken.wake_events == u.wake_events.push(woken.wake_events.last()));
        }
        assert(woken.remembers(key, id));
    }
}

/// Attempts at delivery leave the keys of events as they were.
proof fn lemma_attempted(
    s: StoreModel,
    due: Seq<WakeEventModel>,
    policy: DeliveryPolicy,
    attempts: Seq<AttemptModel>,
    key: Seq<char>,
    id: Seq<char>,
)
    requires
        s.remembers(key, id),
    ensures
        s.attempt_all(due, policy, attempts).0.remembers(key, id),
    decreases due.len(),
{
    if due.len() > 0 {
        let rest = due.drop_last();
        lemma_attempted(s, rest, policy, attempts.drop_last(), key, id);
        let u = s.attempt_all(rest, policy, attempts.drop_last()).0;
        let a = attempts.last();
        let reason = match a.result {
            Ok(()) => Seq::empty(),
            Err(e) => e,
        };
        lemma_event_steps(u, due.last().event_id, a.now, reason, policy, a.now_ns, key, id);
        let (v, claimed) = u.claim(due.last().event_id);
        if claimed is Some {
            let at = (claimed->0).0.event_id;
            lemma_event_steps(v, at, a.now, reason, policy, a.now_ns, key, id);
        }
    }
}

/// Whatever happens, an event stays the one that answers to its idempotency key.
proof fn lemma_turn_remembers(s: StoreModel, turn: Turn, key: Seq<char>, id: Seq<char>)
    requires
        s.remembers(key, id),
    ensures
        s.after_turn(turn).remembers(key, id),
{
    let policy = DeliveryPolicy { max_attempts: 0, base_delay_s: 0, max_delay_s: 0 };
    match turn {
        Turn::Step(step) => match step {
            Step::CreateWakeEvent { .. } => {
                let t = s.after(step);
                if t != s {
                    lemma_pushed(s, t.wake_events.last(), key, id);
                    assert(t.wake_events == s.wake_events.push(t.wake_events.last()));
                }
            },
            Step::AckWakeEvent { id: at, now } => {
                lemma_event_steps(s, at, now, now, policy, 0, key, id);
            },
            Step::CompleteWakeEvent { id: at, now } => {
                lemma_event_steps(s, at, now, now, policy, 0, key, id);
            },
            Step::MarkDelivering { id: at } => {
                lemma_event_steps(s, at, at, at, policy, 0, key, id);
            },
            Step::RecordSuccess { id: at, now } => {
                lemma_event_steps(s, at, now, now, policy, 0, key, id);
            },
            Step::RecordFailure { id: at, reason, policy, now_ns } => {
                lemma_event_steps(s, at, at, reason, policy, now_ns, key, id);
            },
            _ => {
                assert(s.after(step).wake_events == s.wake_events);
            },
        },
        Turn::Firing { now_s, firings } => {
            lemma_settled(s, s.due_triggers(now_s), now_s, firings, key, id);
        },
        Turn::Delivery { token, now, policy, attempts } => {
            let (u, due) = s.open_pass(token, now);
            assert(u.wake_events == s.wake_events);
            lemma_attempted(u, due, policy, attempts, key, id);
        },
        Turn::Call { req, m, resolved } => {
            let (u, refused) = s.let_in(req, m);
            assert(u.wake_events == s.wake_events);
            if refused is None {
                match routes::route_of(req.method, req.path()) {
                    RouteModel::AckWakeEvent(at) => {
                        lemma_event_steps(u, at, m.now, m.now, policy, 0, key, id);
                    },
                    RouteModel::CompleteWakeEvent(at) => {
                        lemma_event_steps(u, at, m.now, m.now, policy, 0, key, id);
                    },
                    _ => {
                        assert(u.answer(req, m, resolved).0.wake_events == u.wake_events);
                    },
                }
            }
        },
        Turn::Tool { call, m } => {
            let (u, gate) = s.require_scope(call.name(), call.scope(), m.token, m.audited_at);
            assert(u.wake_events == s.wake_events);
            if gate is Ok {
                match call {
                    ToolCallModel::AckWakeEvent { event_id } => {
                        lemma_event_steps(u, event_id, m.now, m.now, policy, 0, key, id);
                    },
                    ToolCallModel::CompleteWakeEvent { event_id } => {
                        lemma_event_steps(u, event_id, m.now, m.now, policy, 0, key, id);
                    },
                    _ => {
                        assert(u.run_tool(call, m).0.wake_events == u.wake_events);
                    },
                }
            }
        },
    }
}

/// Whatever happens in turn, an event stays the one that answers to its idempotency key.
proof fn lemma_turns_remember(s: StoreModel, turns: Seq<Turn>, key: Seq<char>, id: Seq<char>)
    requires
        s.remembers(key, id),
    ensures
        s.after_all(turns).remembers(key, id),
    decreases turns.len(),
{
    if turns.len() > 0 {
        lemma_turns_remember(s, turns.drop_last(), key, id);
        lemma_turn_remembers(s.after_all(turns.drop_last()), turns.last(), key, id);
    }
}

/// The event that a trigger leaves answers to the key of its arming.
proof fn lemma_event_is_remembered(
    s: StoreModel,
    t: TriggerModel,
    now_s: Float,
    uuid: Seq<char>,
    now: Seq<char>,
)
    requires
        s.create_wake_event_from_trigger(t, now_s, uuid, now).1 is Ok,
    ensures
        ({
            let (after, r) = s.create_wake_event_from_trigger(t, now_s, uuid, now);
            &&& after.remembers(wake_events::firing_key(t), r->Ok_0.event_id)
            &&& r->Ok_0.idempotency_key == wake_events::firing_key(t)
        }),
{
    let key = wake_events::firing_key(t);
    let (after, r) = s.create_wake_event_from_trigger(t, now_s, uuid, now);
    lemma_found_has_key(s.wake_events, key);
    if wake_events::with_idempotency_key(s.wake_events, key) is None {
        assert(after.wake_events.drop_last() =~= s.wake_events);
    }
}

/// The event that is found under a key has it, and is on record under its id.
proof fn lemma_found_has_key(s: Seq<WakeEventModel>, key: Seq<char>)
    ensures
        wake_events::with_idempotency_key(s, key) matches Some(m) ==> m.idempotency_key == key
            && s.contains(m),
    decreases s.len(),
{
    if s.len() > 0 {
        let rest = s.drop_last();
        lemma_found_has_key(rest, key);
        match wake_events::with_idempotency_key(rest, key) {
            Some(m) => {
                let i = choose|i: int| 0 <= i < rest.len() && rest[i] == m;
                assert(s[i] == m);
            },
            None => {
                if s.last().idempotency_key == key {
                    assert(s[s.len() - 1] == s.last());
                }
            },
        }
    }
}

/// An event on record under the key of an arming stays the one event of that arming. Whatever happens,
/// the trigger that is found due again, with that arming, adds nothing and returns the event with that
/// id. It fails only where the system that the trigger watches can no longer be read.
pub proof fn law_event_on_record_answers_its_arming(
    s: StoreModel,
    t: TriggerModel,
    id: Seq<char>,
    turns: Seq<Turn>,
    now_s: Float,
    uuid: Seq<char>,
    now: Seq<char>,
)
    requires
        s.remembers(wake_events::firing_key(t), id),
        t.action.kind == ActionKind::AgentWake,
        !systems::is_blank(t.action.target),
    ensures
        ({
            let u = s.after_all(turns);
            let (again, r) = u.create_wake_event_from_trigger(t, now_s, uuid, now);
            &&& u.remembers(wake_events::firing_key(t), id)
            &&& again == u
            &&& u.observed_value(t, now_s) is Ok ==> (r matches Ok(m) && m.event_id == id)
            &&& u.observed_value(t, now_s) matches Err(e) ==> r == Err::<
                WakeEventModel,
                StoreErrorModel,
            >(e)
        }),
{
    lemma_turns_remember(s, turns, wake_events::firing_key(t), id);
}

/// One arming of a trigger leaves one event, however often and however late it is tried again. Once the
/// event is on record, under the key `trigger-fire:`, the trigger's id, `:` and the time of its arming,
/// and whatever happens after that: trying again adds nothing, and returns the event with that id. It
/// fails only where the system that the trigger watches can no longer be read.
pub proof fn law_arming_leaves_one_event(
    s: StoreModel,
    t: TriggerModel,
    now_s: Float,
    uuid: Seq<char>,
    now: Seq<char>,
    turns: Seq<Turn>,
    later_s: Float,
    uuid2: Seq<char>,
    later: Seq<char>,
)
    requires
        s.create_wake_event_from_trigger(t, now_s, uuid, now).1 is Ok,
    ensures
        ({
            let (after, first) = s.create_wake_event_from_trigger(t, now_s, uuid, now);
            let u = after.after_all(turns);
            let (again, r) = u.create_wake_event_from_trigger(t, later_s, uuid2, later);
            &&& first->Ok_0.idempotency_key == "trigger-fire:"@ + t.id + ":"@ + t.created_at
            &&& again == u
            &&& u.observed_value(t, later_s) is Ok ==> (r matches Ok(m) && m.event_id
                == first->Ok_0.event_id)
            &&& u.observed_value(t, later_s) matches Err(e) ==> r == Err::<
                WakeEventModel,
                StoreErrorModel,
            >(e)
        }),
{
    let (after, first) = s.create_wake_event_from_trigger(t, now_s, uuid, now);
    lemma_event_is_remembered(s, t, now_s, uuid, now);
    law_event_on_record_answers_its_arming(
        after,
        t,
        first->Ok_0.event_id,
        turns,
        later_s,
        uuid2,
        later,
    );
}

/// A trigger that was armed again leaves an event of its own. Once the event of one arming is on record,
/// and whatever happens after that: the same trigger, armed at another time and with no event of that
/// arming on record, adds one event, with an id of its own and the key of its own arming. The id that is
/// drawn has to be free.
pub proof fn law_rearming_leaves_another_event(
    s: StoreModel,
    t: TriggerModel,
    now_s: Float,
    uuid: Seq<char>,
    now: Seq<char>,
    turns: Seq<Turn>,
    rearmed: TriggerModel,
    later_s: Float,
    uuid2: Seq<char>,
    later: Seq<char>,
)
    requires
        s.create_wake_event_from_trigger(t, now_s, uuid, now).1 is Ok,
        rearmed.id == t.id,
        rearmed.created_at != t.created_at,
        rearmed.action.kind == ActionKind::AgentWake,
        !systems::is_blank(rearmed.action.target),
        ({
            let u = s.create_wake_event_from_trigger(t, now_s, uuid, now).0.after_all(turns);
            &&& u.observed_value(rearmed, later_s) is Ok
            &&& wake_events::with_idempotency_key(
                u.wake_events,
                wake_events::firing_key(rearmed),
            ) is None
            &&& u.get_wake_event("wake:"@ + uuid2) is Err
        }),
    ensures
        ({
            let (after, first) = s.create_wake_event_from_trigger(t, now_s, uuid, now);
            let u = after.after_all(turns);
            let (v, r) = u.create_wake_event_from_trigger(rearmed, later_s, uuid2, later);
            &&& r is Ok
            &&& v.wake_events == u.wake_events.push(r->Ok_0)
            &&& r->Ok_0.event_id == "wake:"@ + uuid2
            &&& r->Ok_0.event_id != first->Ok_0.event_id
            &&& r->Ok_0.idempotency_key == wake_events::firing_key(rearmed)
            &&& r->Ok_0.idempotency_key != first->Ok_0.idempotency_key
            &&& v.remembers(first->Ok_0.idempotency_key, first->Ok_0.event_id)
        }),
{
    let key = wake_events::firing_key(t);
    let (after, first) = s.create_wake_event_from_trigger(t, now_s, uuid, now);
    let id = first->Ok_0.event_id;
    lemma_event_is_remembered(s, t, now_s, uuid, now);
    lemma_turns_remember(after, turns, key, id);
    wake_events::law_rearmed_trigger_has_another_key(t, rearmed);
    let u = after.after_all(turns);
    let (v, r) = u.create_wake_event_from_trigger(rearmed, later_s, uuid2, later);
    lemma_pushed(u, r->Ok_0, key, id);
    lemma_found_has_key(u.wake_events, key);
    let m = wake_events::with_idempotency_key(u.wake_events, key)->0;
    let i = choose|i: int| 0 <= i < u.wake_events.len() && u.wake_events[i] == m;
    table::lemma_place::<WakeEvent>(u.wake_events, "wake:"@ + uuid2);
    assert(u.wake_events[i].event_id != "wake:"@ + uuid2);
}

} // verus!

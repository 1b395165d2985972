//! The trigger engine: one pass over the triggers that are due. A trigger counts as fired only once its
//! action was carried out; what failed is tried again at the next pass.
use crate::clock;
use crate::number::{Float, Number};
use crate::store::table;
use crate::store::table::Record;
use crate::store::triggers::{ActionKind, Trigger, TriggerAction, TriggerModel, TriggerStatus};
use crate::store::{Store, StoreModel};
use crate::text;
use vstd::prelude::*;

verus! {

/// What carries out the action of a trigger.
pub trait ActionDispatcher {
    fn dispatch(&self, action: &TriggerAction) -> Result<(), String>;
}

/// What is to be done for an action.
#[derive(Debug, Clone)]
pub enum ActionStep {
    /// Write a line to the log.
    Log(String),
    /// Hand a URI to whatever program the system has for it.
    OpenUri(String),
}

pub enum ActionStepModel {
    Log(Seq<char>),
    OpenUri(Seq<char>),
}

impl View for ActionStep {
    type V = ActionStepModel;

    open spec fn view(&self) -> ActionStepModel {
        match *self {
            ActionStep::Log(s) => ActionStepModel::Log(s@),
            ActionStep::OpenUri(s) => ActionStepModel::OpenUri(s@),
        }
    }
}

/// The dispatcher of the application: notifications are logged, callbacks are opened. Waking an agent
/// is none of its business.
#[derive(Debug, Clone, Copy)]
pub struct RealDispatcher;

impl RealDispatcher {
    /// What is to be done for an action.
    pub fn plan(&self, action: &TriggerAction) -> (r: Result<ActionStep, String>)
        ensures
            (match action@.kind {
                ActionKind::Notification => r matches Ok(step) && step@ == ActionStepModel::Log(
                    "[ctcl trigger] notification: "@ + action@.target,
                ),
                ActionKind::Callback => r matches Ok(step) && step@ == ActionStepModel::OpenUri(
                    action@.target,
                ),
                ActionKind::AgentWake => r matches Err(e) && e@
                    == "agent_wake actions are handled by the trigger engine directly, not ActionDispatcher"@,
            }),
    {
        match action.kind {
            ActionKind::Notification => Ok(
                ActionStep::Log(
                    text::join("[ctcl trigger] notification: ", action.target.as_str()),
                ),
            ),
            ActionKind::Callback => Ok(ActionStep::OpenUri(action.target.clone())),
            ActionKind::AgentWake => Err(
                "agent_wake actions are handled by the trigger engine directly, not ActionDispatcher".to_owned(),
            ),
        }
    }
}

/// What is different at every trigger that is dealt with: whether its action was carried out, the times
/// and the identifier.
pub struct FiringModel {
    pub carried_out: bool,
    pub uuid: Seq<char>,
    pub now: Seq<char>,
    pub fired_at: Seq<char>,
}

impl FiringModel {
    /// What the device's clock and its random numbers can come to.
    pub open spec fn is_possible(self) -> bool {
        clock::is_uuid(self.uuid) && clock::is_utc_stamp(self.now) && clock::is_utc_stamp(
            self.fired_at,
        )
    }
}

impl TriggerModel {
    /// Whether the trigger's action is handed to a dispatcher: every action but the waking of an agent.
    pub open spec fn needs_dispatch(self) -> bool {
        self.action.kind != ActionKind::AgentWake
    }
}

impl Trigger {
    /// Whether the trigger's action is handed to a dispatcher: every action but the waking of an agent.
    pub fn needs_dispatch(&self) -> (r: bool)
        ensures
            r == self@.needs_dispatch(),
    {
        self.action.kind != ActionKind::AgentWake
    }
}

/// Whether a dispatcher, handed the action of a trigger, can have carried it out, or failed to.
pub open spec fn is_answer_of<D: ActionDispatcher>(
    dispatcher: &D,
    t: TriggerModel,
    carried_out: bool,
) -> bool {
    exists|action: TriggerAction, r: Result<(), String>|
        action@ == t.action && #[trigger] call_ensures(D::dispatch, (dispatcher, &action), r)
            && carried_out == (r is Ok)
}

/// Whether firings are what can have come of triggers, each action but the waking of an agent handed to
/// a dispatcher.
pub open spec fn are_answers_of<D: ActionDispatcher>(
    dispatcher: &D,
    due: Seq<TriggerModel>,
    firings: Seq<FiringModel>,
) -> bool {
    &&& firings.len() == due.len()
    &&& forall|i: int|
        0 <= i < due.len() ==> (#[trigger] firings[i]).is_possible() && (due[i].needs_dispatch()
            ==> is_answer_of(dispatcher, due[i], firings[i].carried_out))
}

impl StoreModel {
    /// Settles a trigger that was found due: one that wakes an agent leaves its event, any other depends
    /// on its action. It is marked as fired where that succeeded.
    pub open spec fn settle(self, t: TriggerModel, now_s: Float, f: FiringModel) -> (StoreModel, bool) {
        let (s, ok) = if t.action.kind == ActionKind::AgentWake {
            let (s, r) = self.create_wake_event_from_trigger(t, now_s, f.uuid, f.now);
            (s, r is Ok)
        } else {
            (self, f.carried_out)
        };
        if ok {
            (s.mark_fired(t.id, f.fired_at), true)
        } else {
            (s, false)
        }
    }

    /// Settles triggers one after the other: the registry afterwards, and those that fired.
    pub open spec fn settle_all(
        self,
        due: Seq<TriggerModel>,
        now_s: Float,
        firings: Seq<FiringModel>,
    ) -> (StoreModel, Seq<TriggerModel>)
        decreases due.len(),
    {
        if due.len() == 0 {
            (self, Seq::empty())
        } else {
            let (s, fired) = self.settle_all(due.drop_last(), now_s, firings.drop_last());
            let (t, ok) = s.settle(due.last(), now_s, firings.last());
            (
                t,
                if ok {
                    fired.push(due.last())
                } else {
                    fired
                },
            )
        }
    }
}

impl Store {
    /// Settles a trigger that was found due, given whether its action was carried out.
    pub fn settle_at(
        &mut self,
        t: &Trigger,
        now_s: Number,
        carried_out: bool,
        uuid: &str,
        now: &str,
        fired_at: &str,
    ) -> (r: bool)
        ensures
            (final(self)@, r) == old(self)@.settle(
                t@,
                now_s@,
                (FiringModel { carried_out, uuid: uuid@, now: now@, fired_at: fired_at@ }),
            ),
    {
        let ok: bool = if t.action.kind == ActionKind::AgentWake {
            self.create_wake_event_from_trigger_at(t, now_s, uuid, now).is_ok()
        } else {
            carried_out
        };
        if ok {
            self.mark_fired_at(t.id.as_str(), fired_at);
        }
        ok
    }

    /// Settles a trigger that was found due, given whether its action was carried out, at the time of
    /// the device's clock.
    pub fn settle(&mut self, t: &Trigger, now_s: Number, carried_out: bool) -> (r: bool)
        ensures
            exists|f: FiringModel|
                f.is_possible() && f.carried_out == carried_out && (final(self)@, r)
                    == #[trigger] old(self)@.settle(t@, now_s@, f),
    {
        let uuid = clock::fresh_uuid();
        let now = clock::now_text();
        let fired_at = clock::now_text();
        self.settle_at(t, now_s, carried_out, uuid.as_str(), now.as_str(), fired_at.as_str())
    }
}

/// One pass: the triggers that are due at a time are dealt with in turn, and those that fired are
/// returned. Each action but the waking of an agent is handed to the dispatcher, whose answer decides.
pub fn evaluate_once<D: ActionDispatcher>(store: &mut Store, dispatcher: &D, now_s: Number) -> (r: Vec<
    Trigger,
>)
    ensures
        exists|firings: Seq<FiringModel>|
            {
                &&& are_answers_of(dispatcher, old(store)@.due_triggers(now_s@), firings)
                &&& (final(store)@, table::models(r@)) == #[trigger] old(store)@.settle_all(
                    old(store)@.due_triggers(now_s@),
                    now_s@,
                    firings,
                )
            },
{
    let triggers = store.due_triggers(now_s);
    let ghost due = table::models(triggers@);
    let ghost start = store@;
    let ghost mut firings: Seq<FiringModel> = Seq::empty();
    let mut fired: Vec<Trigger> = Vec::new();
    let mut i: usize = 0;
    assert(due.take(0) =~= Seq::<TriggerModel>::empty());
    assert(table::models(fired@) =~= Seq::<TriggerModel>::empty());
    while i < triggers.len()
        invariant
            i <= triggers.len(),
            due == table::models(triggers@),
            are_answers_of(dispatcher, due.take(i as int), firings),
            (store@, table::models(fired@)) == start.settle_all(
                due.take(i as int),
                now_s@,
                firings,
            ),
        decreases triggers.len() - i,
    {
        let t: &Trigger = &triggers[i];
        let carried_out: bool = if t.needs_dispatch() {
            let answer: Result<(), String> = dispatcher.dispatch(&t.action);
            assert(call_ensures(D::dispatch, (dispatcher, &t.action), answer));
            answer.is_ok()
        } else {
            false
        };
        let ghost before = table::models(fired@);
        let ghost between = store@;
        let ok: bool = store.settle(t, now_s, carried_out);
        let ghost f = choose|f: FiringModel|
            f.is_possible() && f.carried_out == carried_out && (store@, ok)
                == #[trigger] between.settle(t@, now_s@, f);
        if ok {
            fired.push(t.copy());
            assert(table::models(fired@) =~= before.push(t@));
        }
        proof {
            assert(due.take(i + 1).drop_last() =~= due.take(i as int));
            assert(due.take(i + 1).last() == t@);
            assert(firings.push(f).drop_last() =~= firings);
            firings = firings.push(f);
        }
        i = i + 1;
    }
    assert(due.take(i as int) =~= due);
    fired
}

/// A trigger whose action was not carried out stays as it is, and so does everything else: it is due
/// again at the next pass.
pub proof fn law_failed_action_changes_nothing(
    s: StoreModel,
    t: TriggerModel,
    now_s: Float,
    f: FiringModel,
)
    requires
        t.action.kind != ActionKind::AgentWake,
        !f.carried_out,
    ensures
        s.settle(t, now_s, f) == (s, false),
{
}

/// A trigger that fired is marked as fired.
pub proof fn law_fired_is_marked(s: StoreModel, t: TriggerModel, now_s: Float, f: FiringModel)
    requires
        s.get_trigger(t.id) == Ok::<TriggerModel, crate::store::error::StoreErrorModel>(t),
        t.status == TriggerStatus::Active,
        s.settle(t, now_s, f).1,
    ensures
        s.settle(t, now_s, f).0.get_trigger(t.id) matches Ok(m) && m.status == TriggerStatus::Fired
            && m.fired_at == Some(f.fired_at),
{
    let u = if t.action.kind == ActionKind::AgentWake {
        s.create_wake_event_from_trigger(t, now_s, f.uuid, f.now).0
    } else {
        s
    };
    assert(u.triggers == s.triggers);
    let m = TriggerModel { status: TriggerStatus::Fired, fired_at: Some(f.fired_at), ..t };
    table::lemma_put_then_row::<Trigger>(u.triggers, m);
}

/// A trigger that wakes an agent fires whatever becomes of dispatched actions, and leaves its event on
/// record: it does not depend on the dispatcher.
pub proof fn law_wake_bypasses_the_dispatcher(
    s: StoreModel,
    t: TriggerModel,
    now_s: Float,
    f: FiringModel,
    g: FiringModel,
)
    requires
        t.action.kind == ActionKind::AgentWake,
        f.uuid == g.uuid,
        f.now == g.now,
        f.fired_at == g.fired_at,
    ensures
        s.settle(t, now_s, f) == s.settle(t, now_s, g),
        s.settle(t, now_s, f).1 ==> s.create_wake_event_from_trigger(t, now_s, f.uuid, f.now).1 is Ok,
{
}

/// A trigger fires if and only if its action was carried out, or, where it wakes an agent, its event is on
/// record; and firing changes nothing but its status and, for an agent, the wake events.
pub proof fn law_fires_where_its_action_succeeded(
    s: StoreModel,
    t: TriggerModel,
    now_s: Float,
    f: FiringModel,
    other: Seq<char>,
)
    requires
        other != t.id,
    ensures
        ({
            let (u, fired) = s.settle(t, now_s, f);
            let (woken, event) = s.create_wake_event_from_trigger(t, now_s, f.uuid, f.now);
            &&& t.action.kind != ActionKind::AgentWake ==> fired == f.carried_out && u.wake_events
                == s.wake_events
            &&& t.action.kind == ActionKind::AgentWake ==> fired == (event is Ok) && u.wake_events
                == woken.wake_events
            &&& !fired ==> u == s
            &&& fired && t.action.kind != ActionKind::AgentWake ==> u == s.mark_fired(t.id, f.fired_at)
            &&& fired && t.action.kind == ActionKind::AgentWake ==> u == woken.mark_fired(
                t.id,
                f.fired_at,
            )
            &&& u.get_trigger(other) == s.get_trigger(other)
            &&& u == (StoreModel { triggers: u.triggers, wake_events: u.wake_events, ..s })
        }),
{
    let woken = s.create_wake_event_from_trigger(t, now_s, f.uuid, f.now).0;
    assert(woken.triggers == s.triggers);
    crate::store::triggers::law_ending_a_trigger_changes_only_that(s, t.id, f.fired_at, other);
    crate::store::triggers::law_ending_a_trigger_changes_only_that(woken, t.id, f.fired_at, other);
}

/// A pass settles the triggers that are due one after the other, each in the registry that the one before
/// left, and returns those that fired, in that order and no others.
pub proof fn law_pass_settles_each_in_turn(
    s: StoreModel,
    due: Seq<TriggerModel>,
    now_s: Float,
    firings: Seq<FiringModel>,
    t: TriggerModel,
    f: FiringModel,
)
    ensures
        s.settle_all(Seq::empty(), now_s, Seq::empty()) == (s, Seq::<TriggerModel>::empty()),
        ({
            let (u, fired) = s.settle_all(due, now_s, firings);
            let (v, ok) = u.settle(t, now_s, f);
            s.settle_all(due.push(t), now_s, firings.push(f)) == (
                v,
                if ok {
                    fired.push(t)
                } else {
                    fired
                },
            )
        }),
{
    assert(due.push(t).drop_last() =~= due);
    assert(firings.push(f).drop_last() =~= firings);
}

/// Every action but the waking of an agent is handed to the dispatcher, and that one never is.
pub proof fn law_only_wakes_are_not_dispatched(t: TriggerModel)
    ensures
        t.action.kind == ActionKind::AgentWake ==> !t.needs_dispatch(),
        t.action.kind == ActionKind::Notification || t.action.kind == ActionKind::Callback
            ==> t.needs_dispatch(),
{
}

} // verus!

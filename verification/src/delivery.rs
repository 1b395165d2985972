//! The delivery worker: one pass over the wake events that are to be handed over to agents. Nothing is
//! handed over unless the capability for it is granted and the agent's endpoint is switched on.
use crate::clock;
use crate::numeral;
use crate::store::delivery::DeliveryPolicy;
use crate::store::endpoints::{AgentEndpoint, EndpointModel};
use crate::store::error::StoreErrorModel;
use crate::store::settings::Settings;
use crate::store::table;
use crate::store::wake_events::{WakeEvent, WakeEventModel, WakeEventStatus};
use crate::store::{Store, StoreModel};
use crate::text;
use vstd::prelude::*;

verus! {

/// What hands an event over to an agent.
pub trait WakeDispatcher {
    fn deliver(&self, endpoint: &AgentEndpoint, event: &WakeEvent) -> Result<(), String>;
}

/// What is to be done to hand an event over.
#[derive(Debug, Clone)]
pub enum DeliveryStep {
    /// Start a program with the arguments `--wake-event` and the event's id: no shell, and no other
    /// text of the event on the command line.
    LocalProcess { program: String, event_id: String },
    /// Post the event to a URL, with the token where there is one.
    LoopbackHttp { url: String, bearer: Option<String> },
}

pub enum DeliveryStepModel {
    LocalProcess { program: Seq<char>, event_id: Seq<char> },
    LoopbackHttp { url: Seq<char>, bearer: Option<Seq<char>> },
}

impl View for DeliveryStep {
    type V = DeliveryStepModel;

    open spec fn view(&self) -> DeliveryStepModel {
        match *self {
            DeliveryStep::LocalProcess { program, event_id } => DeliveryStepModel::LocalProcess {
                program: program@,
                event_id: event_id@,
            },
            DeliveryStep::LoopbackHttp { url, bearer } => DeliveryStepModel::LoopbackHttp {
                url: url@,
                bearer: text::opt(bearer),
            },
        }
    }
}

/// What is to be done to hand an event over, or why it cannot be.
pub open spec fn delivery_step(endpoint: EndpointModel, event: WakeEventModel) -> Result<
    DeliveryStepModel,
    Seq<char>,
> {
    if endpoint.transport == "local_process"@ {
        Ok(
            DeliveryStepModel::LocalProcess {
                program: endpoint.endpoint,
                event_id: event.event_id,
            },
        )
    } else if endpoint.transport == "loopback_http"@ {
        Ok(
            DeliveryStepModel::LoopbackHttp {
                url: endpoint.endpoint,
                bearer: match endpoint.auth_ref {
                    Some(token) => Some("Bearer "@ + token),
                    None => None,
                },
            },
        )
    } else {
        Err(
            "LOCAL_PROCESS_NOT_ALLOWLISTED: unsupported transport '"@ + endpoint.transport
                + "' for agent endpoint "@ + endpoint.agent_id,
        )
    }
}

/// The dispatcher of the application: it starts a program, or posts to a URL on this device.
#[derive(Debug, Clone, Copy)]
pub struct RealWakeDispatcher;

impl RealWakeDispatcher {
    /// What is to be done to hand an event over.
    pub fn plan(&self, endpoint: &AgentEndpoint, event: &WakeEvent) -> (r: Result<
        DeliveryStep,
        String,
    >)
        ensures
            (match r {
                Ok(step) => delivery_step(endpoint@, event@) == Ok::<DeliveryStepModel, Seq<char>>(
                    step@,
                ),
                Err(e) => delivery_step(endpoint@, event@) == Err::<DeliveryStepModel, Seq<char>>(
                    e@,
                ),
            }),
    {
        let transport: &str = endpoint.transport.as_str();
        if text::same(transport, "local_process") {
            Ok(
                DeliveryStep::LocalProcess {
                    program: endpoint.endpoint.clone(),
                    event_id: event.event_id.clone(),
                },
            )
        } else if text::same(transport, "loopback_http") {
            Ok(
                DeliveryStep::LoopbackHttp {
                    url: endpoint.endpoint.clone(),
                    bearer: match &endpoint.auth_ref {
                        Some(token) => Some(text::join("Bearer ", token.as_str())),
                        None => None,
                    },
                },
            )
        } else {
            let head = text::join3(
                "LOCAL_PROCESS_NOT_ALLOWLISTED: unsupported transport '",
                transport,
                "' for agent endpoint ",
            );
            Err(text::join(head.as_str(), endpoint.agent_id.as_str()))
        }
    }

    /// What an agent's answer means: only 202 says that it took the event.
    pub fn judge(&self, status: u16) -> (r: Result<(), String>)
        ensures
            r is Ok <==> status == 202,
            r matches Err(e) ==> e@ == "agent endpoint responded "@ + numeral::numeral(status as int)
                + " (expected 202 Accepted)"@,
    {
        if status == 202 {
            Ok(())
        } else {
            let code = numeral::u128_text(status as u128);
            Err(
                text::join3("agent endpoint responded ", code.as_str(), " (expected 202 Accepted)"),
            )
        }
    }
}

/// How many events one pass hands over at most.
pub const MAX_PER_TICK: u32 = 5;

/// What is different at every attempt: what came of it, and the times.
pub struct AttemptModel {
    pub result: Result<(), Seq<char>>,
    pub now: Seq<char>,
    pub now_ns: int,
}

impl StoreModel {
    /// The events that a pass is to hand over: those that are due, where the capability for it is
    /// granted.
    pub open spec fn open_pass(self, token: Seq<char>, now: Seq<char>) -> (
        StoreModel,
        Seq<WakeEventModel>,
    ) {
        let (s, settings) = self.get_settings(token);
        (
            s,
            if settings is Ok && settings->Ok_0.grants("agent_wake.dispatch"@) {
                s.due_for_delivery(now, MAX_PER_TICK as nat)
            } else {
                Seq::empty()
            },
        )
    }

    /// Claims an event for an attempt: the event as it then stands, and the endpoint of its agent.
    pub open spec fn claim(self, event_id: Seq<char>) -> (
        StoreModel,
        Option<(WakeEventModel, EndpointModel)>,
    ) {
        let (s, claimed) = self.mark_wake_event_delivering(event_id);
        (
            s,
            match claimed {
                Err(_) => None,
                Ok(m) => match s.get_agent_endpoint(m.agent_id) {
                    Err(_) => None,
                    Ok(e) => Some((m, e)),
                },
            },
        )
    }

    /// Records what came of an attempt at an event that was claimed. The event, where it was handed
    /// over.
    pub open spec fn settle_delivery(
        self,
        event_id: Seq<char>,
        policy: DeliveryPolicy,
        a: AttemptModel,
    ) -> (StoreModel, Option<WakeEventModel>) {
        let (t, outcome) = match a.result {
            Ok(()) => self.record_delivery_success(event_id, a.now),
            Err(e) => self.record_delivery_failure(event_id, e, policy, a.now_ns),
        };
        (
            t,
            match outcome {
                Ok(x) => if x.status == WakeEventStatus::Delivered {
                    Some(x)
                } else {
                    None
                },
                Err(_) => None,
            },
        )
    }

    /// Attempts to hand an event over: it is claimed, and what came of the attempt is recorded. The
    /// event, where it was handed over.
    pub open spec fn attempt(self, event: WakeEventModel, policy: DeliveryPolicy, a: AttemptModel) -> (
        StoreModel,
        Option<WakeEventModel>,
    ) {
        let (s, claimed) = self.claim(event.event_id);
        match claimed {
            None => (s, None),
            Some((m, _)) => s.settle_delivery(m.event_id, policy, a),
        }
    }

    /// Attempts to hand events over one after the other: the registry afterwards, and the events that
    /// were handed over.
    pub open spec fn attempt_all(
        self,
        due: Seq<WakeEventModel>,
        policy: DeliveryPolicy,
        attempts: Seq<AttemptModel>,
    ) -> (StoreModel, Seq<WakeEventModel>)
        decreases due.len(),
    {
        if due.len() == 0 {
            (self, Seq::empty())
        } else {
            let (s, delivered) = self.attempt_all(due.drop_last(), policy, attempts.drop_last());
            let (t, x) = s.attempt(due.last(), policy, attempts.last());
            (
                t,
                match x {
                    Some(m) => delivered.push(m),
                    None => delivered,
                },
            )
        }
    }

    /// One pass, at a time: the registry afterwards, and the events that were handed over.
    pub open spec fn deliver_due(
        self,
        token: Seq<char>,
        now: Seq<char>,
        policy: DeliveryPolicy,
        attempts: Seq<AttemptModel>,
    ) -> (StoreModel, Seq<WakeEventModel>) {
        let (s, due) = self.open_pass(token, now);
        s.attempt_all(due, policy, attempts)
    }
}

impl AttemptModel {
    /// What the device's clock can come to.
    pub open spec fn is_possible(self) -> bool {
        clock::is_utc_stamp(self.now) && -(clock::MAX_DURATION_NS as int) <= self.now_ns
            <= clock::MAX_DURATION_NS
    }
}

/// Whether a dispatcher, handed an event that was claimed and the endpoint of its agent, can have
/// answered what an attempt says. Where nothing is handed to it, there is nothing to answer.
pub open spec fn is_answer_of<D: WakeDispatcher>(
    dispatcher: &D,
    s: StoreModel,
    event: WakeEventModel,
    a: AttemptModel,
) -> bool {
    s.claim(event.event_id).1 matches Some((m, e)) ==> {
        &&& a.is_possible()
        &&& exists|endpoint: AgentEndpoint, handed: WakeEvent, r: Result<(), String>|
            endpoint@ == e && handed@ == m && #[trigger] call_ensures(
                D::deliver,
                (dispatcher, &endpoint, &handed),
                r,
            ) && a.result == attempt_result(r)
    }
}

/// Whether a dispatcher can have answered what attempts at one event after the other say.
pub open spec fn are_answers_of<D: WakeDispatcher>(
    dispatcher: &D,
    s: StoreModel,
    due: Seq<WakeEventModel>,
    policy: DeliveryPolicy,
    attempts: Seq<AttemptModel>,
) -> bool
    decreases due.len(),
{
    due.len() == 0 || {
        &&& are_answers_of(dispatcher, s, due.drop_last(), policy, attempts.drop_last())
        &&& is_answer_of(
            dispatcher,
            s.attempt_all(due.drop_last(), policy, attempts.drop_last()).0,
            due.last(),
            attempts.last(),
        )
    }
}

/// What came of an attempt, with its text as characters.
pub open spec fn attempt_result(r: Result<(), String>) -> Result<(), Seq<char>> {
    match r {
        Ok(()) => Ok(()),
        Err(e) => Err(e@),
    }
}

/// The event that was handed over, if one was.
pub open spec fn handed_over(r: Option<WakeEvent>) -> Option<WakeEventModel> {
    match r {
        Some(x) => Some(x@),
        None => None,
    }
}

/// The event that was claimed and the endpoint of its agent, if both are there.
pub open spec fn claimed_pair(r: Option<(WakeEvent, AgentEndpoint)>) -> Option<
    (WakeEventModel, EndpointModel),
> {
    match r {
        Some((m, e)) => Some((m@, e@)),
        None => None,
    }
}

impl Store {
    /// The events that a pass is to hand over at a time: those that are due, where the capability for
    /// it is granted. `token` is the token of the first settings, where none were saved.
    pub fn open_pass_with(&mut self, token: &str, now: &str) -> (r: Vec<WakeEvent>)
        ensures
            (final(self)@, table::models(r@)) == old(self)@.open_pass(token@, now@),
    {
        let granted: bool = match self.get_settings_with(token) {
            Ok(settings) => settings.is_granted("agent_wake.dispatch"),
            Err(_) => false,
        };
        if granted {
            self.due_for_delivery(now, MAX_PER_TICK)
        } else {
            let none: Vec<WakeEvent> = Vec::new();
            assert(table::models(none@) =~= Seq::<WakeEventModel>::empty());
            none
        }
    }

    /// The events that a pass is to hand over at a time.
    pub fn open_pass(&mut self, now: &str) -> (r: Vec<WakeEvent>)
        ensures
            exists|token: Seq<char>|
                clock::is_token(token) && (final(self)@, table::models(r@))
                    == #[trigger] old(self)@.open_pass(token, now@),
    {
        let token = clock::fresh_token();
        self.open_pass_with(token.as_str(), now)
    }

    /// Claims an event for an attempt: the event as it then stands, and the endpoint of its agent.
    pub fn claim(&mut self, event_id: &str) -> (r: Option<(WakeEvent, AgentEndpoint)>)
        ensures
            (final(self)@, claimed_pair(r)) == old(self)@.claim(event_id@),
    {
        match self.mark_wake_event_delivering(event_id) {
            Ok(m) => match self.get_agent_endpoint(m.agent_id.as_str()) {
                Ok(e) => Some((m, e)),
                Err(_) => None,
            },
            Err(_) => None,
        }
    }

    /// Records at a given time what came of an attempt at an event that was claimed: the event, where
    /// it was handed over.
    pub fn settle_delivery_at(
        &mut self,
        event_id: &str,
        result: &Result<(), String>,
        policy: DeliveryPolicy,
        now: &str,
        now_ns: i128,
    ) -> (r: Option<WakeEvent>)
        requires
            -(clock::MAX_DURATION_NS as int) <= now_ns <= clock::MAX_DURATION_NS,
        ensures
            (final(self)@, handed_over(r)) == old(self)@.settle_delivery(
                event_id@,
                policy,
                (AttemptModel {
                    result: attempt_result(*result),
                    now: now@,
                    now_ns: now_ns as int,
                }),
            ),
    {
        let outcome = match result {
            Ok(()) => self.record_delivery_success_at(event_id, now),
            Err(e) => self.record_delivery_failure_at(event_id, e.as_str(), policy, now_ns),
        };
        match outcome {
            Ok(x) => if x.status == WakeEventStatus::Delivered {
                Some(x)
            } else {
                None
            },
            Err(_) => None,
        }
    }

    /// Records what came of an attempt at an event that was claimed: the event, where it was handed
    /// over.
    pub fn settle_delivery(
        &mut self,
        event_id: &str,
        result: &Result<(), String>,
        policy: DeliveryPolicy,
    ) -> (r: Option<WakeEvent>)
        ensures
            exists|a: AttemptModel|
                a.is_possible() && a.result == attempt_result(*result) && (
                final(self)@,
                handed_over(r),
                ) == #[trigger] old(self)@.settle_delivery(event_id@, policy, a),
    {
        let now = clock::now_text();
        let now_ns: i128 = clock::now_ns();
        self.settle_delivery_at(event_id, result, policy, now.as_str(), now_ns)
    }
}

/// Attempts to hand one event over.
fn attempt_one<D: WakeDispatcher>(
    store: &mut Store,
    dispatcher: &D,
    event: &WakeEvent,
    policy: DeliveryPolicy,
) -> (r: Option<WakeEvent>)
    ensures
        exists|a: AttemptModel|
            (final(store)@, handed_over(r)) == #[trigger] old(store)@.attempt(event@, policy, a)
                && is_answer_of(dispatcher, old(store)@, event@, a),
{
    let ghost start = store@;
    match store.claim(event.event_id.as_str()) {
        None => {
            let ghost a = AttemptModel { result: Ok(()), now: Seq::empty(), now_ns: 0 };
            assert((store@, None::<WakeEventModel>) == start.attempt(event@, policy, a));
            None
        },
        Some((claimed, endpoint)) => {
            let result: Result<(), String> = dispatcher.deliver(&endpoint, &claimed);
            assert(call_ensures(D::deliver, (dispatcher, &endpoint, &claimed), result));
            let ghost between = store@;
            let r = store.settle_delivery(claimed.event_id.as_str(), &result, policy);
            let ghost a = choose|a: AttemptModel|
                a.is_possible() && a.result == attempt_result(result) && (store@, handed_over(r))
                    == #[trigger] between.settle_delivery(claimed.event_id@, policy, a);
            assert((store@, handed_over(r)) == start.attempt(event@, policy, a));
            r
        },
    }
}

/// One pass at a time: the first events that are due are given to the dispatcher in turn, with the
/// endpoints of their agents, and those that it handed over are returned. Without the capability
/// `agent_wake.dispatch` nothing is done.
pub fn evaluate_once<D: WakeDispatcher>(
    store: &mut Store,
    dispatcher: &D,
    now: &str,
    policy: DeliveryPolicy,
) -> (r: Vec<WakeEvent>)
    ensures
        exists|token: Seq<char>, attempts: Seq<AttemptModel>|
            {
                let (s, due) = old(store)@.open_pass(token, now@);
                &&& clock::is_token(token)
                &&& (final(store)@, table::models(r@)) == #[trigger] old(store)@.deliver_due(
                    token,
                    now@,
                    policy,
                    attempts,
                )
                &&& are_answers_of(dispatcher, s, due, policy, attempts)
            },
{
    let ghost first = store@;
    let token = clock::fresh_token();
    let events = store.open_pass_with(token.as_str(), now);
    let ghost start = store@;
    let mut delivered: Vec<WakeEvent> = Vec::new();
    assert(table::models(delivered@) =~= Seq::<WakeEventModel>::empty());
    let ghost mut attempts: Seq<AttemptModel> = Seq::empty();
    let ghost due = table::models(events@);
    let mut i: usize = 0;
    assert(due.take(0) =~= Seq::<WakeEventModel>::empty());
    while i < events.len()
        invariant
            i <= events.len(),
            due == table::models(events@),
            attempts.len() == i,
            are_answers_of(dispatcher, start, due.take(i as int), policy, attempts),
            (store@, table::models(delivered@)) == start.attempt_all(
                due.take(i as int),
                policy,
                attempts,
            ),
        decreases events.len() - i,
    {
        let event: &WakeEvent = &events[i];
        let ghost before_store = store@;
        let ghost before = table::models(delivered@);
        let one: Option<WakeEvent> = attempt_one(store, dispatcher, event, policy);
        let ghost outcome = handed_over(one);
        let ghost a = choose|a: AttemptModel|
            (store@, outcome) == #[trigger] before_store.attempt(event@, policy, a)
                && is_answer_of(dispatcher, before_store, event@, a);
        match one {
            Some(m) => {
                delivered.push(m);
                assert(table::models(delivered@) =~= before.push(m@));
            },
            None => {},
        }
        proof {
            assert(due.take(i + 1).drop_last() =~= due.take(i as int));
            assert(due.take(i + 1).last() == event@);
            assert(attempts.push(a).drop_last() =~= attempts);
            attempts = attempts.push(a);
        }
        i = i + 1;
    }
    assert(due.take(i as int) =~= due);
    assert((store@, table::models(delivered@)) == first.deliver_due(token@, now@, policy, attempts));
    delivered
}

/// Without the capability, or settings that can be read, nothing is handed over, and nothing changes but that settings are there.
pub proof fn law_no_scope_no_delivery(
    s: StoreModel,
    token: Seq<char>,
    now: Seq<char>,
    policy: DeliveryPolicy,
    attempts: Seq<AttemptModel>,
)
    requires
        s.get_settings(token).1 matches Ok(settings) ==> !settings.grants("agent_wake.dispatch"@),
    ensures
        s.deliver_due(token, now, policy, attempts) == (
            s.get_settings(token).0,
            Seq::<WakeEventModel>::empty(),
        ),
{
}

/// An attempt that fails leaves the event waiting or given up, with the reason, and hands nothing over;
/// one that succeeds hands it over.
pub proof fn law_attempt_is_recorded(
    s: StoreModel,
    event: WakeEventModel,
    policy: DeliveryPolicy,
    a: AttemptModel,
)
    requires
        s.get_wake_event(event.event_id) == Ok::<WakeEventModel, StoreErrorModel>(event),
        event.status == WakeEventStatus::Pending || event.status == WakeEventStatus::RetryWait,
        s.get_agent_endpoint(event.agent_id) is Ok,
    ensures
        ({
            let (t, delivered) = s.attempt(event, policy, a);
            &&& delivered is Some <==> a.result is Ok
            &&& t.get_wake_event(event.event_id) matches Ok(m) && (match a.result {
                Ok(()) => m.status == WakeEventStatus::Delivered && m.delivered_at == Some(a.now),
                Err(e) => (m.status == WakeEventStatus::RetryWait || m.status
                    == WakeEventStatus::DeadLetter) && m.last_error == Some(e),
            })
        }),
{
    let id = event.event_id;
    table::lemma_place::<WakeEvent>(s.wake_events, id);
    let (u, claimed) = s.mark_wake_event_delivering(id);
    let m = claimed->Ok_0;
    table::lemma_put_then_row::<WakeEvent>(s.wake_events, m);
    assert(u.agent_endpoints == s.agent_endpoints);
    let (t, outcome) = match a.result {
        Ok(()) => u.record_delivery_success(id, a.now),
        Err(e) => u.record_delivery_failure(id, e, policy, a.now_ns),
    };
    table::lemma_put_then_row::<WakeEvent>(u.wake_events, outcome->Ok_0);
}

/// An event is handed over as its endpoint says: a program of this device is started with the event's
/// id, or the event is posted to the URL, with the token as a bearer token where there is one. Nothing
/// else is done.
pub proof fn law_event_goes_where_its_endpoint_says(endpoint: EndpointModel, event: WakeEventModel)
    ensures
        delivery_step(endpoint, event) is Ok <==> endpoint.transport == "local_process"@
            || endpoint.transport == "loopback_http"@,
        endpoint.transport == "local_process"@ ==> delivery_step(endpoint, event) == Ok::<
            DeliveryStepModel,
            Seq<char>,
        >(
            DeliveryStepModel::LocalProcess {
                program: endpoint.endpoint,
                event_id: event.event_id,
            },
        ),
        endpoint.transport == "loopback_http"@ ==> (delivery_step(endpoint, event) matches Ok(
            DeliveryStepModel::LoopbackHttp { url, bearer },
        ) && url == endpoint.endpoint && (endpoint.auth_ref matches Some(token) ==> bearer == Some(
            "Bearer "@ + token,
        )) && (endpoint.auth_ref is None ==> bearer is None)),
{
    reveal_strlit("local_process");
    reveal_strlit("loopback_http");
    assert("local_process"@[2] == 'c' && "loopback_http"@[2] == 'o');
}

/// A pass hands over the events that are due, five at most, if and only if the capability for it is
/// granted; opening it changes nothing but that settings are there.
pub proof fn law_pass_takes_what_is_due(s: StoreModel, token: Seq<char>, now: Seq<char>)
    ensures
        ({
            let (t, due) = s.open_pass(token, now);
            let (read, settings) = s.get_settings(token);
            &&& t == read
            &&& (settings matches Ok(x) && x.grants("agent_wake.dispatch"@)) ==> due
                == read.due_for_delivery(now, 5)
            &&& !(settings matches Ok(x) && x.grants("agent_wake.dispatch"@)) ==> due.len() == 0
            &&& due.len() <= 5
        }),
{
}

/// An attempt is made at an event that can be claimed and whose agent has an endpoint, and what came of
/// it is recorded; where it cannot be made nothing is handed over. An event is returned if and only if
/// it was handed over, and then as it is on record.
pub proof fn law_attempt_is_claimed_and_recorded(
    s: StoreModel,
    event: WakeEventModel,
    policy: DeliveryPolicy,
    a: AttemptModel,
)
    ensures
        ({
            let (c, claimed) = s.mark_wake_event_delivering(event.event_id);
            let (t, handed) = s.attempt(event, policy, a);
            &&& claimed is Err ==> t == s && handed is None
            &&& claimed matches Ok(m) ==> {
                &&& c.get_agent_endpoint(m.agent_id) is Err ==> t == c && handed is None
                &&& c.get_agent_endpoint(m.agent_id) is Ok ==> (match a.result {
                    Ok(()) => t == c.record_delivery_success(m.event_id, a.now).0 && (
                    c.record_delivery_success(m.event_id, a.now).1 matches Ok(x) ==> handed == Some(x)),
                    Err(reason) => handed is None && t == c.record_delivery_failure(
                        m.event_id,
                        reason,
                        policy,
                        a.now_ns,
                    ).0,
                })
            }
        }),
{
}

} // verus!

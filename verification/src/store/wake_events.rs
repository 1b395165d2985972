//! Wake events: what is left on record for an agent when a trigger of its fires, and what became of it.
//! That an event was recorded, that it was handed over, that it was acknowledged and that it was dealt
//! with are four different things.
use crate::clock;
use crate::number::{Float, Number};
use crate::store::error;
use crate::store::error::{StoreError, StoreErrorModel};
use crate::store::systems;
use crate::store::table;
use crate::store::table::{Record, Row};
use crate::store::triggers::{ActionKind, Operator, Trigger, TriggerKind, TriggerModel};
use crate::store::{Store, StoreModel};
use crate::text;
use vstd::prelude::*;

verus! {

/// Where a wake event stands.
#[derive(Debug, Clone, Copy, PartialEq, Eq, Structural)]
pub enum WakeEventStatus {
    Pending,
    Delivering,
    Delivered,
    Acknowledged,
    DecidedNoAction,
    DecidedAction,
    Completed,
    RetryWait,
    DeadLetter,
}

impl WakeEventStatus {
    /// The status' name.
    pub open spec fn name(self) -> Seq<char> {
        match self {
            WakeEventStatus::Pending => "pending"@,
            WakeEventStatus::Delivering => "delivering"@,
            WakeEventStatus::Delivered => "delivered"@,
            WakeEventStatus::Acknowledged => "acknowledged"@,
            WakeEventStatus::DecidedNoAction => "decided_no_action"@,
            WakeEventStatus::DecidedAction => "decided_action"@,
            WakeEventStatus::Completed => "completed"@,
            WakeEventStatus::RetryWait => "retry_wait"@,
            WakeEventStatus::DeadLetter => "dead_letter"@,
        }
    }

    /// The status' name.
    pub fn as_str(&self) -> (r: &'static str)
        ensures
            r@ == self.name(),
    {
        match self {
            WakeEventStatus::Pending => "pending",
            WakeEventStatus::Delivering => "delivering",
            WakeEventStatus::Delivered => "delivered",
            WakeEventStatus::Acknowledged => "acknowledged",
            WakeEventStatus::DecidedNoAction => "decided_no_action",
            WakeEventStatus::DecidedAction => "decided_action",
            WakeEventStatus::Completed => "completed",
            WakeEventStatus::RetryWait => "retry_wait",
            WakeEventStatus::DeadLetter => "dead_letter",
        }
    }

    /// The status that a name on record stands for.
    pub fn from_str(s: &str) -> (r: WakeEventStatus)
        ensures
            r == status_of(s@),
    {
        if text::same(s, "delivering") {
            WakeEventStatus::Delivering
        } else if text::same(s, "delivered") {
            WakeEventStatus::Delivered
        } else if text::same(s, "acknowledged") {
            WakeEventStatus::Acknowledged
        } else if text::same(s, "decided_no_action") {
            WakeEventStatus::DecidedNoAction
        } else if text::same(s, "decided_action") {
            WakeEventStatus::DecidedAction
        } else if text::same(s, "completed") {
            WakeEventStatus::Completed
        } else if text::same(s, "retry_wait") {
            WakeEventStatus::RetryWait
        } else if text::same(s, "dead_letter") {
            WakeEventStatus::DeadLetter
        } else {
            WakeEventStatus::Pending
        }
    }
}

/// The status that a name on record stands for: one that is not known is pending.
pub open spec fn status_of(s: Seq<char>) -> WakeEventStatus {
    if s == "delivering"@ {
        WakeEventStatus::Delivering
    } else if s == "delivered"@ {
        WakeEventStatus::Delivered
    } else if s == "acknowledged"@ {
        WakeEventStatus::Acknowledged
    } else if s == "decided_no_action"@ {
        WakeEventStatus::DecidedNoAction
    } else if s == "decided_action"@ {
        WakeEventStatus::DecidedAction
    } else if s == "completed"@ {
        WakeEventStatus::Completed
    } else if s == "retry_wait"@ {
        WakeEventStatus::RetryWait
    } else if s == "dead_letter"@ {
        WakeEventStatus::DeadLetter
    } else {
        WakeEventStatus::Pending
    }
}

/// A status reads back from its name.
pub proof fn law_status_name_reads_back(status: WakeEventStatus)
    ensures
        status_of(status.name()) == status,
{
    reveal_strlit("pending");
    reveal_strlit("delivering");
    reveal_strlit("delivered");
    reveal_strlit("acknowledged");
    reveal_strlit("decided_no_action");
    reveal_strlit("decided_action");
    reveal_strlit("completed");
    reveal_strlit("retry_wait");
    reveal_strlit("dead_letter");
    let n = status.name();
    assert(n.len() > 0);
    assert("delivering"@[8] == 'n');
    assert("retry_wait"@[0] == 'r');
    assert("delivered"@[0] == 'd');
    assert("completed"@[0] == 'c');
}

/// A detail of a wake event.
#[derive(Debug, Clone)]
pub enum Detail {
    /// Whatever the creator gave, as JSON text.
    Json(String),
    /// When a trigger's condition was found met, and by what.
    Fired { unix_s: Number, source: String },
    /// The condition, and the value that met it.
    Observed { operator: Operator, target_value: Number, observed_value: Number },
}

pub enum DetailModel {
    Json(Seq<char>),
    Fired { unix_s: Float, source: Seq<char> },
    Observed { operator: Operator, target_value: Float, observed_value: Float },
}

impl View for Detail {
    type V = DetailModel;

    open spec fn view(&self) -> DetailModel {
        match *self {
            Detail::Json(s) => DetailModel::Json(s@),
            Detail::Fired { unix_s, source } => DetailModel::Fired {
                unix_s: unix_s@,
                source: source@,
            },
            Detail::Observed { operator, target_value, observed_value } => DetailModel::Observed {
                operator,
                target_value: target_value@,
                observed_value: observed_value@,
            },
        }
    }
}

impl Detail {
    /// A copy of the detail.
    pub fn copy(&self) -> (r: Detail)
        ensures
            r@ == self@,
    {
        match self {
            Detail::Json(s) => Detail::Json(s.clone()),
            Detail::Fired { unix_s, source } => Detail::Fired {
                unix_s: *unix_s,
                source: source.clone(),
            },
            Detail::Observed { operator, target_value, observed_value } => Detail::Observed {
                operator: *operator,
                target_value: *target_value,
                observed_value: *observed_value,
            },
        }
    }
}

/// A wake event.
#[derive(Debug, Clone)]
pub struct WakeEvent {
    pub event_id: String,
    pub trigger_id: Option<String>,
    pub agent_id: String,
    pub reason: String,
    pub fired: Detail,
    pub observed: Detail,
    /// What the creator wants the agent to know: references, by convention, not contents.
    pub payload: Detail,
    pub status: WakeEventStatus,
    pub attempt_count: i64,
    pub created_at: String,
    pub acknowledged_at: Option<String>,
    pub completed_at: Option<String>,
    pub delivered_at: Option<String>,
    pub next_attempt_at: Option<String>,
    pub last_error: Option<String>,
    pub idempotency_key: String,
}

#[verifier::ext_equal]
pub struct WakeEventModel {
    pub event_id: Seq<char>,
    pub trigger_id: Option<Seq<char>>,
    pub agent_id: Seq<char>,
    pub reason: Seq<char>,
    pub fired: DetailModel,
    pub observed: DetailModel,
    pub payload: DetailModel,
    pub status: WakeEventStatus,
    pub attempt_count: i64,
    pub created_at: Seq<char>,
    pub acknowledged_at: Option<Seq<char>>,
    pub completed_at: Option<Seq<char>>,
    pub delivered_at: Option<Seq<char>>,
    pub next_attempt_at: Option<Seq<char>>,
    pub last_error: Option<Seq<char>>,
    pub idempotency_key: Seq<char>,
}

impl View for WakeEvent {
    type V = WakeEventModel;

    open spec fn view(&self) -> WakeEventModel {
        WakeEventModel {
            event_id: self.event_id@,
            trigger_id: text::opt(self.trigger_id),
            agent_id: self.agent_id@,
            reason: self.reason@,
            fired: self.fired@,
            observed: self.observed@,
            payload: self.payload@,
            status: self.status,
            attempt_count: self.attempt_count,
            created_at: self.created_at@,
            acknowledged_at: text::opt(self.acknowledged_at),
            completed_at: text::opt(self.completed_at),
            delivered_at: text::opt(self.delivered_at),
            next_attempt_at: text::opt(self.next_attempt_at),
            last_error: text::opt(self.last_error),
            idempotency_key: self.idempotency_key@,
        }
    }
}

impl Record for WakeEvent {
    fn copy(&self) -> (r: WakeEvent) {
        WakeEvent {
            event_id: self.event_id.clone(),
            trigger_id: text::copy_opt(&self.trigger_id),
            agent_id: self.agent_id.clone(),
            reason: self.reason.clone(),
            fired: self.fired.copy(),
            observed: self.observed.copy(),
            payload: self.payload.copy(),
            status: self.status,
            attempt_count: self.attempt_count,
            created_at: self.created_at.clone(),
            acknowledged_at: text::copy_opt(&self.acknowledged_at),
            completed_at: text::copy_opt(&self.completed_at),
            delivered_at: text::copy_opt(&self.delivered_at),
            next_attempt_at: text::copy_opt(&self.next_attempt_at),
            last_error: text::copy_opt(&self.last_error),
            idempotency_key: self.idempotency_key.clone(),
        }
    }
}

impl Row for WakeEvent {
    open spec fn key_of(m: WakeEventModel) -> Seq<char> {
        m.event_id
    }

    open spec fn stamp_of(m: WakeEventModel) -> Seq<char> {
        m.created_at
    }

    fn key(&self) -> (r: &str) {
        self.event_id.as_str()
    }

    fn stamp(&self) -> (r: &str) {
        self.created_at.as_str()
    }
}

impl WakeEvent {
    /// The event that a record describes: its details as JSON text, its status by name.
    pub fn from_parts(
        event_id: String,
        trigger_id: Option<String>,
        agent_id: String,
        reason: String,
        fired_json: String,
        observed_json: String,
        payload_json: String,
        status: &str,
        attempt_count: i64,
        created_at: String,
        acknowledged_at: Option<String>,
        completed_at: Option<String>,
        delivered_at: Option<String>,
        next_attempt_at: Option<String>,
        last_error: Option<String>,
        idempotency_key: String,
    ) -> (r: WakeEvent)
        ensures
            r@ == (WakeEventModel {
                event_id: event_id@,
                trigger_id: text::opt(trigger_id),
                agent_id: agent_id@,
                reason: reason@,
                fired: DetailModel::Json(fired_json@),
                observed: DetailModel::Json(observed_json@),
                payload: DetailModel::Json(payload_json@),
                status: status_of(status@),
                attempt_count,
                created_at: created_at@,
                acknowledged_at: text::opt(acknowledged_at),
                completed_at: text::opt(completed_at),
                delivered_at: text::opt(delivered_at),
                next_attempt_at: text::opt(next_attempt_at),
                last_error: text::opt(last_error),
                idempotency_key: idempotency_key@,
            }),
    {
        WakeEvent {
            event_id,
            trigger_id,
            agent_id,
            reason,
            fired: Detail::Json(fired_json),
            observed: Detail::Json(observed_json),
            payload: Detail::Json(payload_json),
            status: WakeEventStatus::from_str(status),
            attempt_count,
            created_at,
            acknowledged_at,
            completed_at,
            delivered_at,
            next_attempt_at,
            last_error,
            idempotency_key,
        }
    }
}

/// Why an event is not on record.
pub open spec fn unknown_event(id: Seq<char>) -> StoreErrorModel {
    StoreErrorModel::InvalidInput("unknown wake event: "@ + id)
}

/// The first event with an idempotency key.
pub open spec fn with_idempotency_key(s: Seq<WakeEventModel>, key: Seq<char>) -> Option<
    WakeEventModel,
>
    decreases s.len(),
{
    if s.len() == 0 {
        None
    } else {
        match with_idempotency_key(s.drop_last(), key) {
            Some(m) => Some(m),
            None => if s.last().idempotency_key == key {
                Some(s.last())
            } else {
                None
            },
        }
    }
}

/// Whether an event passes the filters.
pub open spec fn passes(
    m: WakeEventModel,
    agent_id: Option<Seq<char>>,
    status: Option<WakeEventStatus>,
) -> bool {
    (agent_id matches Some(a) ==> m.agent_id == a) && (status matches Some(s) ==> m.status == s)
}

/// Those of the events that pass the filters, in their order.
pub open spec fn passing(
    s: Seq<WakeEventModel>,
    agent_id: Option<Seq<char>>,
    status: Option<WakeEventStatus>,
) -> Seq<WakeEventModel>
    decreases s.len(),
{
    if s.len() == 0 {
        Seq::empty()
    } else {
        let rest = passing(s.drop_last(), agent_id, status);
        if passes(s.last(), agent_id, status) {
            rest.push(s.last())
        } else {
            rest
        }
    }
}

/// The name of an action's kind in messages.
pub open spec fn kind_label(kind: ActionKind) -> Seq<char> {
    match kind {
        ActionKind::Notification => "Notification"@,
        ActionKind::Callback => "Callback"@,
        ActionKind::AgentWake => "AgentWake"@,
    }
}

/// The idempotency key of a trigger's firing: the same for every attempt at one arming, and another
/// after the trigger was armed again.
pub open spec fn firing_key(t: TriggerModel) -> Seq<char> {
    "trigger-fire:"@ + t.id + ":"@ + t.created_at
}

impl StoreModel {
    /// The event with an id.
    pub open spec fn get_wake_event(self, id: Seq<char>) -> Result<WakeEventModel, StoreErrorModel> {
        match table::row::<WakeEvent>(self.wake_events, id) {
            Some(m) => Ok(m),
            None => Err(unknown_event(id)),
        }
    }

    /// Records an event. Where one with the same idempotency key is on record, that one is returned and
    /// nothing is added.
    pub open spec fn create_wake_event(
        self,
        agent_id: Seq<char>,
        trigger_id: Option<Seq<char>>,
        reason: Seq<char>,
        fired: DetailModel,
        observed: DetailModel,
        payload: DetailModel,
        key: Seq<char>,
        uuid: Seq<char>,
        now: Seq<char>,
    ) -> (StoreModel, Result<WakeEventModel, StoreErrorModel>) {
        if systems::is_blank(agent_id) {
            (self, Err(StoreErrorModel::InvalidInput("wake event agent_id must not be empty"@)))
        } else if with_idempotency_key(self.wake_events, key) is Some {
            (self, Ok(with_idempotency_key(self.wake_events, key)->0))
        } else if table::row::<WakeEvent>(self.wake_events, "wake:"@ + uuid) is Some {
            (
                self,
                Err(StoreErrorModel::Sqlite("UNIQUE constraint failed: wake_events.event_id"@)),
            )
        } else {
            let event = WakeEventModel {
                event_id: "wake:"@ + uuid,
                trigger_id,
                agent_id,
                reason,
                fired,
                observed,
                payload,
                status: WakeEventStatus::Pending,
                attempt_count: 0,
                created_at: now,
                acknowledged_at: None,
                completed_at: None,
                delivered_at: None,
                next_attempt_at: None,
                last_error: None,
                idempotency_key: key,
            };
            (StoreModel { wake_events: self.wake_events.push(event), ..self }, Ok(event))
        }
    }

    /// The events that pass the filters, the latest first.
    pub open spec fn list_wake_events(
        self,
        agent_id: Option<Seq<char>>,
        status: Option<WakeEventStatus>,
    ) -> Seq<WakeEventModel> {
        passing(table::newest_first::<WakeEvent>(self.wake_events), agent_id, status)
    }

    /// The registry with an event changed.
    pub open spec fn with_event(self, m: WakeEventModel) -> StoreModel {
        StoreModel { wake_events: table::put::<WakeEvent>(self.wake_events, m), ..self }
    }

    /// Acknowledges an event, from pending only.
    pub open spec fn ack_wake_event(self, id: Seq<char>, now: Seq<char>) -> (
        StoreModel,
        Result<WakeEventModel, StoreErrorModel>,
    ) {
        match table::row::<WakeEvent>(self.wake_events, id) {
            None => (self, Err(unknown_event(id))),
            Some(m) => if m.status == WakeEventStatus::Pending {
                let after = WakeEventModel {
                    status: WakeEventStatus::Acknowledged,
                    acknowledged_at: Some(now),
                    ..m
                };
                (self.with_event(after), Ok(after))
            } else {
                (
                    self,
                    Err(
                        StoreErrorModel::InvalidInput(
                            "cannot acknowledge wake event "@ + id + ": status is '"@
                                + m.status.name() + "', not 'pending'"@,
                        ),
                    ),
                )
            },
        }
    }

    /// Completes an event, from acknowledged only.
    pub open spec fn complete_wake_event(self, id: Seq<char>, now: Seq<char>) -> (
        StoreModel,
        Result<WakeEventModel, StoreErrorModel>,
    ) {
        match table::row::<WakeEvent>(self.wake_events, id) {
            None => (self, Err(unknown_event(id))),
            Some(m) => if m.status == WakeEventStatus::Acknowledged {
                let after = WakeEventModel {
                    status: WakeEventStatus::Completed,
                    completed_at: Some(now),
                    ..m
                };
                (self.with_event(after), Ok(after))
            } else {
                (
                    self,
                    Err(
                        StoreErrorModel::InvalidInput(
                            "cannot complete wake event "@ + id + ": status is '"@ + m.status.name()
                                + "', not 'acknowledged'"@,
                        ),
                    ),
                )
            },
        }
    }

    /// What is observed of a trigger at a time: the value that it watches, or why there is none.
    pub open spec fn observed_value(self, t: TriggerModel, now: Float) -> Result<
        Float,
        StoreErrorModel,
    > {
        match t.kind {
            TriggerKind::CommonInstant => Ok(now),
            TriggerKind::CustomTime => match t.system_id {
                None => Err(
                    StoreErrorModel::InvalidInput(
                        "custom_time trigger "@ + t.id + " is missing system_id"@,
                    ),
                ),
                Some(id) => match self.system_now(id, now) {
                    Ok((local, _)) => Ok(local),
                    Err(e) => Err(e),
                },
            },
        }
    }

    /// Records the event of a trigger that wakes an agent.
    pub open spec fn create_wake_event_from_trigger(
        self,
        t: TriggerModel,
        now_s: Float,
        uuid: Seq<char>,
        now: Seq<char>,
    ) -> (StoreModel, Result<WakeEventModel, StoreErrorModel>) {
        if t.action.kind != ActionKind::AgentWake {
            (
                self,
                Err(
                    StoreErrorModel::InvalidInput(
                        "trigger "@ + t.id + " is not an agent_wake trigger (action.kind = "@
                            + kind_label(t.action.kind) + ")"@,
                    ),
                ),
            )
        } else {
            match self.observed_value(t, now_s) {
                Err(e) => (self, Err(e)),
                Ok(value) => self.create_wake_event(
                    t.action.target,
                    Some(t.id),
                    "trigger_condition_satisfied"@,
                    DetailModel::Fired { unix_s: now_s, source: "ctcl_trigger_engine"@ },
                    DetailModel::Observed {
                        operator: t.operator,
                        target_value: t.target_value,
                        observed_value: value,
                    },
                    DetailModel::Json("{}"@),
                    firing_key(t),
                    uuid,
                    now,
                ),
            }
        }
    }
}

/// The first event with an idempotency key.
fn find_idempotency_key(rows: &Vec<WakeEvent>, key: &str) -> (r: Option<WakeEvent>)
    ensures
        (match r {
            Some(m) => with_idempotency_key(table::models(rows@), key@) == Some(m@),
            None => with_idempotency_key(table::models(rows@), key@) is None,
        }),
{
    let ghost s = table::models(rows@);
    let mut i: usize = 0;
    let mut found: Option<WakeEvent> = None;
    assert(s.take(0) =~= Seq::<WakeEventModel>::empty());
    while i < rows.len()
        invariant
            i <= rows.len(),
            s == table::models(rows@),
            (match found {
                Some(m) => with_idempotency_key(s.take(i as int), key@) == Some(m@),
                None => with_idempotency_key(s.take(i as int), key@) is None,
            }),
        decreases rows.len() - i,
    {
        assert(s.take(i + 1).drop_last() =~= s.take(i as int));
        assert(s.take(i + 1).last() == rows@[i as int]@);
        if found.is_none() && text::same(rows[i].idempotency_key.as_str(), key) {
            found = Some(rows[i].copy());
        }
        i = i + 1;
    }
    assert(s.take(i as int) =~= s);
    found
}

/// The name of an action's kind in messages.
fn kind_word(kind: ActionKind) -> (r: &'static str)
    ensures
        r@ == kind_label(kind),
{
    match kind {
        ActionKind::Notification => "Notification",
        ActionKind::Callback => "Callback",
        ActionKind::AgentWake => "AgentWake",
    }
}

impl Store {
    /// Records an event under a given uuid at a given time.
    pub fn create_wake_event_at(
        &mut self,
        agent_id: &str,
        trigger_id: Option<&str>,
        reason: &str,
        fired: Detail,
        observed: Detail,
        payload: Detail,
        idempotency_key: &str,
        uuid: &str,
        now: &str,
    ) -> (r: Result<WakeEvent, StoreError>)
        ensures
            (final(self)@, error::outcome(r)) == old(self)@.create_wake_event(
                agent_id@,
                text::opt_str(trigger_id),
                reason@,
                fired@,
                observed@,
                payload@,
                idempotency_key@,
                uuid@,
                now@,
            ),
    {
        if systems::blank(agent_id) {
            return Err(
                StoreError::InvalidInput("wake event agent_id must not be empty".to_owned()),
            );
        }
        match find_idempotency_key(&self.wake_events, idempotency_key) {
            Some(m) => {
                return Ok(m);
            },
            None => {},
        }
        let event_id = text::join("wake:", uuid);
        if table::find(&self.wake_events, event_id.as_str()).is_some() {
            return Err(
                StoreError::Sqlite("UNIQUE constraint failed: wake_events.event_id".to_owned()),
            );
        }
        let event = WakeEvent {
            event_id,
            trigger_id: text::own_opt(trigger_id),
            agent_id: agent_id.to_owned(),
            reason: reason.to_owned(),
            fired,
            observed,
            payload,
            status: WakeEventStatus::Pending,
            attempt_count: 0,
            created_at: now.to_owned(),
            acknowledged_at: None,
            completed_at: None,
            delivered_at: None,
            next_attempt_at: None,
            last_error: None,
            idempotency_key: idempotency_key.to_owned(),
        };
        let stored: WakeEvent = event.copy();
        self.wake_events.push(stored);
        assert(table::models(self.wake_events@) =~= table::models(old(self).wake_events@).push(
            event@,
        ));
        Ok(event)
    }

    /// Records an event, under a fresh id, at the time of the device's clock.
    pub fn create_wake_event(
        &mut self,
        agent_id: &str,
        trigger_id: Option<&str>,
        reason: &str,
        fired: Detail,
        observed: Detail,
        payload: Detail,
        idempotency_key: &str,
    ) -> (r: Result<WakeEvent, StoreError>)
        ensures
            exists|uuid: Seq<char>, now: Seq<char>|
                clock::is_uuid(uuid) && clock::is_utc_stamp(now) && (
                final(self)@,
                error::outcome(r),
                ) == #[trigger] old(self)@.create_wake_event(
                    agent_id@,
                    text::opt_str(trigger_id),
                    reason@,
                    fired@,
                    observed@,
                    payload@,
                    idempotency_key@,
                    uuid,
                    now,
                ),
    {
        let uuid = clock::fresh_uuid();
        let now = clock::now_text();
        self.create_wake_event_at(
            agent_id,
            trigger_id,
            reason,
            fired,
            observed,
            payload,
            idempotency_key,
            uuid.as_str(),
            now.as_str(),
        )
    }

    /// The event with an id.
    pub fn get_wake_event(&self, event_id: &str) -> (r: Result<WakeEvent, StoreError>)
        ensures
            error::outcome(r) == self@.get_wake_event(event_id@),
    {
        match table::get(&self.wake_events, event_id) {
            Some(m) => Ok(m),
            None => Err(StoreError::InvalidInput(text::join("unknown wake event: ", event_id))),
        }
    }

    /// The events, the latest first; those of one agent, or in one status, where that is asked for.
    pub fn list_wake_events(
        &self,
        agent_id: Option<&str>,
        status: Option<WakeEventStatus>,
    ) -> (r: Vec<WakeEvent>)
        ensures
            table::models(r@) == self@.list_wake_events(text::opt_str(agent_id), status),
    {
        let events = table::list_newest(&self.wake_events);
        let ghost listed = table::models(events@);
        let ghost agent = text::opt_str(agent_id);
        let mut out: Vec<WakeEvent> = Vec::new();
        let mut i: usize = 0;
        assert(table::models(out@) =~= passing(listed.take(0), agent, status));
        while i < events.len()
            invariant
                i <= events.len(),
                listed == table::models(events@),
                agent == text::opt_str(agent_id),
                table::models(out@) == passing(listed.take(i as int), agent, status),
            decreases events.len() - i,
        {
            let m: &WakeEvent = &events[i];
            let ghost before = out@;
            assert(listed.take(i + 1).drop_last() =~= listed.take(i as int));
            assert(listed.take(i + 1).last() == m@);
            let by_agent: bool = match agent_id {
                Some(a) => text::same(m.agent_id.as_str(), a),
                None => true,
            };
            let by_status: bool = match status {
                Some(s) => m.status == s,
                None => true,
            };
            if by_agent && by_status {
                out.push(m.copy());
                assert(table::models(out@) =~= table::models(before).push(m@));
            }
            i = i + 1;
        }
        assert(listed.take(i as int) =~= listed);
        out
    }

    /// Acknowledges an event at a given time, from pending only.
    pub fn ack_wake_event_at(&mut self, event_id: &str, now: &str) -> (r: Result<
        WakeEvent,
        StoreError,
    >)
        ensures
            (final(self)@, error::outcome(r)) == old(self)@.ack_wake_event(event_id@, now@),
    {
        let mut m: WakeEvent = match table::get(&self.wake_events, event_id) {
            Some(m) => m,
            None => {
                return Err(
                    StoreError::InvalidInput(text::join("unknown wake event: ", event_id)),
                );
            },
        };
        if m.status != WakeEventStatus::Pending {
            let head = text::join3("cannot acknowledge wake event ", event_id, ": status is '");
            return Err(
                StoreError::InvalidInput(
                    text::join3(head.as_str(), m.status.as_str(), "', not 'pending'"),
                ),
            );
        }
        m.status = WakeEventStatus::Acknowledged;
        m.acknowledged_at = Some(now.to_owned());
        let stored: WakeEvent = m.copy();
        table::put_row(&mut self.wake_events, stored);
        Ok(m)
    }

    /// Acknowledges an event, from pending only: once, by whoever picked it up.
    pub fn ack_wake_event(&mut self, event_id: &str) -> (r: Result<WakeEvent, StoreError>)
        ensures
            exists|now: Seq<char>|
                clock::is_utc_stamp(now) && (final(self)@, error::outcome(r))
                    == #[trigger] old(self)@.ack_wake_event(event_id@, now),
    {
        let now = clock::now_text();
        self.ack_wake_event_at(event_id, now.as_str())
    }

    /// Completes an event at a given time, from acknowledged only.
    pub fn complete_wake_event_at(&mut self, event_id: &str, now: &str) -> (r: Result<
        WakeEvent,
        StoreError,
    >)
        ensures
            (final(self)@, error::outcome(r)) == old(self)@.complete_wake_event(event_id@, now@),
    {
        let mut m: WakeEvent = match table::get(&self.wake_events, event_id) {
            Some(m) => m,
            None => {
                return Err(
                    StoreError::InvalidInput(text::join("unknown wake event: ", event_id)),
                );
            },
        };
        if m.status != WakeEventStatus::Acknowledged {
            let head = text::join3("cannot complete wake event ", event_id, ": status is '");
            return Err(
                StoreError::InvalidInput(
                    text::join3(head.as_str(), m.status.as_str(), "', not 'acknowledged'"),
                ),
            );
        }
        m.status = WakeEventStatus::Completed;
        m.completed_at = Some(now.to_owned());
        let stored: WakeEvent = m.copy();
        table::put_row(&mut self.wake_events, stored);
        Ok(m)
    }

    /// Completes an event, from acknowledged only.
    pub fn complete_wake_event(&mut self, event_id: &str) -> (r: Result<WakeEvent, StoreError>)
        ensures
            exists|now: Seq<char>|
                clock::is_utc_stamp(now) && (final(self)@, error::outcome(r))
                    == #[trigger] old(self)@.complete_wake_event(event_id@, now),
    {
        let now = clock::now_text();
        self.complete_wake_event_at(event_id, now.as_str())
    }

    /// What is observed of a trigger at a time.
    fn observe(&self, t: &Trigger, now: Number) -> (r: Result<Number, StoreError>)
        ensures
            error::outcome(r) == self@.observed_value(t@, now@),
    {
        match t.kind {
            TriggerKind::CommonInstant => Ok(now),
            TriggerKind::CustomTime => match &t.system_id {
                None => Err(
                    StoreError::InvalidInput(
                        text::join3(
                            "custom_time trigger ",
                            t.id.as_str(),
                            " is missing system_id",
                        ),
                    ),
                ),
                Some(id) => match self.system_now(id.as_str(), now) {
                    Ok((local, _)) => Ok(local),
                    Err(e) => Err(e),
                },
            },
        }
    }

    /// Records the event of a trigger that wakes an agent, under a given uuid at a given time.
    pub fn create_wake_event_from_trigger_at(
        &mut self,
        t: &Trigger,
        now_unix_s: Number,
        uuid: &str,
        now: &str,
    ) -> (r: Result<WakeEvent, StoreError>)
        ensures
            (final(self)@, error::outcome(r)) == old(self)@.create_wake_event_from_trigger(
                t@,
                now_unix_s@,
                uuid@,
                now@,
            ),
    {
        if t.action.kind != ActionKind::AgentWake {
            let head = text::join3(
                "trigger ",
                t.id.as_str(),
                " is not an agent_wake trigger (action.kind = ",
            );
            return Err(
                StoreError::InvalidInput(text::join3(head.as_str(), kind_word(t.action.kind), ")")),
            );
        }
        let value: Number = match self.observe(t, now_unix_s) {
            Ok(v) => v,
            Err(e) => {
                return Err(e);
            },
        };
        let head = text::join3("trigger-fire:", t.id.as_str(), ":");
        let key = text::join(head.as_str(), t.created_at.as_str());
        self.create_wake_event_at(
            t.action.target.as_str(),
            Some(t.id.as_str()),
            "trigger_condition_satisfied",
            Detail::Fired { unix_s: now_unix_s, source: "ctcl_trigger_engine".to_owned() },
            Detail::Observed {
                operator: t.operator,
                target_value: t.target_value,
                observed_value: value,
            },
            Detail::Json("{}".to_owned()),
            key.as_str(),
            uuid,
            now,
        )
    }

    /// Records the event of a trigger that wakes an agent. `now_unix_s` is the time at which the trigger
    /// was found due, so that what is on record is what was evaluated.
    pub fn create_wake_event_from_trigger(&mut self, t: &Trigger, now_unix_s: Number) -> (r: Result<
        WakeEvent,
        StoreError,
    >)
        ensures
            exists|uuid: Seq<char>, now: Seq<char>|
                clock::is_uuid(uuid) && clock::is_utc_stamp(now) && (
                final(self)@,
                error::outcome(r),
                ) == #[trigger] old(self)@.create_wake_event_from_trigger(
                    t@,
                    now_unix_s@,
                    uuid,
                    now,
                ),
    {
        let uuid = clock::fresh_uuid();
        let now = clock::now_text();
        self.create_wake_event_from_trigger_at(t, now_unix_s, uuid.as_str(), now.as_str())
    }
}

/// An event that was recorded is found under its id, pending, and under its idempotency key.
pub proof fn law_recorded_event_is_found(
    s: StoreModel,
    agent_id: Seq<char>,
    trigger_id: Option<Seq<char>>,
    reason: Seq<char>,
    fired: DetailModel,
    observed: DetailModel,
    payload: DetailModel,
    key: Seq<char>,
    uuid: Seq<char>,
    now: Seq<char>,
)
    requires
        !systems::is_blank(agent_id),
        with_idempotency_key(s.wake_events, key) is None,
        s.get_wake_event("wake:"@ + uuid) is Err,
    ensures
        ({
            let (t, r) = s.create_wake_event(
                agent_id,
                trigger_id,
                reason,
                fired,
                observed,
                payload,
                key,
                uuid,
                now,
            );
            &&& r matches Ok(event) && event.status == WakeEventStatus::Pending
                && event.attempt_count == 0 && event.payload == payload && t.get_wake_event(
                event.event_id,
            ) == Ok::<WakeEventModel, StoreErrorModel>(event) && with_idempotency_key(
                t.wake_events,
                key,
            ) == Some(event)
        }),
{
    let (t, r) = s.create_wake_event(
        agent_id,
        trigger_id,
        reason,
        fired,
        observed,
        payload,
        key,
        uuid,
        now,
    );
    table::lemma_put_then_row::<WakeEvent>(s.wake_events, r->Ok_0);
    assert(t.wake_events.drop_last() =~= s.wake_events);
}

/// Recording an event a second time under the same idempotency key adds nothing, and returns the first
/// one, whatever else is given.
pub proof fn law_same_key_same_event(
    s: StoreModel,
    agent_id: Seq<char>,
    trigger_id: Option<Seq<char>>,
    reason: Seq<char>,
    fired: DetailModel,
    observed: DetailModel,
    payload: DetailModel,
    key: Seq<char>,
    uuid: Seq<char>,
    now: Seq<char>,
    agent_id2: Seq<char>,
    trigger_id2: Option<Seq<char>>,
    reason2: Seq<char>,
    fired2: DetailModel,
    observed2: DetailModel,
    payload2: DetailModel,
    uuid2: Seq<char>,
    now2: Seq<char>,
)
    requires
        !systems::is_blank(agent_id2),
    ensures
        ({
            let (t, r) = s.create_wake_event(
                agent_id,
                trigger_id,
                reason,
                fired,
                observed,
                payload,
                key,
                uuid,
                now,
            );
            r is Ok ==> t.create_wake_event(
                agent_id2,
                trigger_id2,
                reason2,
                fired2,
                observed2,
                payload2,
                key,
                uuid2,
                now2,
            ) == (t, r)
        }),
{
    let (t, r) = s.create_wake_event(
        agent_id,
        trigger_id,
        reason,
        fired,
        observed,
        payload,
        key,
        uuid,
        now,
    );
    if with_idempotency_key(s.wake_events, key) is None && r is Ok {
        assert(t.wake_events.drop_last() =~= s.wake_events);
    }
}

/// A trigger that is found due again before it was marked as fired leaves no second event.
pub proof fn law_one_event_per_arming(
    s: StoreModel,
    t: TriggerModel,
    now_s: Float,
    uuid: Seq<char>,
    now: Seq<char>,
    later_s: Float,
    uuid2: Seq<char>,
    later: Seq<char>,
)
    ensures
        ({
            let (after, r) = s.create_wake_event_from_trigger(t, now_s, uuid, now);
            r is Ok ==> {
                let (again, r2) = after.create_wake_event_from_trigger(t, later_s, uuid2, later);
                again == after && r2 == r
            }
        }),
{
    let (after, r) = s.create_wake_event_from_trigger(t, now_s, uuid, now);
    if r is Ok {
        let value = s.observed_value(t, now_s)->Ok_0;
        let value2 = after.observed_value(t, later_s)->Ok_0;
        law_same_key_same_event(
            s,
            t.action.target,
            Some(t.id),
            "trigger_condition_satisfied"@,
            DetailModel::Fired { unix_s: now_s, source: "ctcl_trigger_engine"@ },
            DetailModel::Observed {
                operator: t.operator,
                target_value: t.target_value,
                observed_value: value,
            },
            DetailModel::Json("{}"@),
            firing_key(t),
            uuid,
            now,
            t.action.target,
            Some(t.id),
            "trigger_condition_satisfied"@,
            DetailModel::Fired { unix_s: later_s, source: "ctcl_trigger_engine"@ },
            DetailModel::Observed {
                operator: t.operator,
                target_value: t.target_value,
                observed_value: value2,
            },
            DetailModel::Json("{}"@),
            uuid2,
            later,
        );
    }
}

/// A trigger that was armed again at another time has another idempotency key, and so leaves an event
/// of its own.
pub proof fn law_rearmed_trigger_has_another_key(a: TriggerModel, b: TriggerModel)
    requires
        a.id == b.id,
        a.created_at != b.created_at,
    ensures
        firing_key(a) != firing_key(b),
{
    let head = "trigger-fire:"@ + a.id + ":"@;
    let n = head.len() as int;
    if firing_key(a) == firing_key(b) {
        assert(a.created_at =~= firing_key(a).skip(n));
        assert(b.created_at =~= firing_key(b).skip(n));
    }
}

/// An event is acknowledged once, from pending, and completed once, from acknowledged; an attempt out
/// of turn is refused and changes nothing.
pub proof fn law_event_runs_one_way(s: StoreModel, id: Seq<char>, now: Seq<char>, later: Seq<char>)
    ensures
        s.ack_wake_event(id, now).1 is Ok <==> (s.get_wake_event(id) matches Ok(m) && m.status
            == WakeEventStatus::Pending),
        s.ack_wake_event(id, now).1 is Err ==> s.ack_wake_event(id, now).0 == s,
        s.complete_wake_event(id, now).1 is Ok <==> (s.get_wake_event(id) matches Ok(m) && m.status
            == WakeEventStatus::Acknowledged),
        s.complete_wake_event(id, now).1 is Err ==> s.complete_wake_event(id, now).0 == s,
        s.ack_wake_event(id, now).1 is Ok ==> {
            let t = s.ack_wake_event(id, now).0;
            &&& t.ack_wake_event(id, later).1 is Err
            &&& t.complete_wake_event(id, later).1 is Ok
        },
        s.complete_wake_event(id, now).1 is Ok ==> {
            let t = s.complete_wake_event(id, now).0;
            &&& t.complete_wake_event(id, later).1 is Err
            &&& t.ack_wake_event(id, later).1 is Err
        },
{
    table::lemma_place::<WakeEvent>(s.wake_events, id);
    let (t, r) = s.ack_wake_event(id, now);
    if r is Ok {
        table::lemma_put_then_row::<WakeEvent>(s.wake_events, r->Ok_0);
    }
    let (u, q) = s.complete_wake_event(id, now);
    if q is Ok {
        table::lemma_put_then_row::<WakeEvent>(s.wake_events, q->Ok_0);
    }
}

/// Picking by filters is filtering.
proof fn lemma_passing_is_filter(
    s: Seq<WakeEventModel>,
    agent_id: Option<Seq<char>>,
    status: Option<WakeEventStatus>,
    keep: spec_fn(WakeEventModel) -> bool,
)
    requires
        forall|m: WakeEventModel| #[trigger] keep(m) == passes(m, agent_id, status),
    ensures
        passing(s, agent_id, status) == s.filter(keep),
    decreases s.len(),
{
    reveal(Seq::filter);
    if s.len() > 0 {
        lemma_passing_is_filter(s.drop_last(), agent_id, status, keep);
    }
}

/// Filtering twice is filtering by both.
proof fn lemma_filter_twice(
    s: Seq<WakeEventModel>,
    first: spec_fn(WakeEventModel) -> bool,
    second: spec_fn(WakeEventModel) -> bool,
    both: spec_fn(WakeEventModel) -> bool,
)
    requires
        forall|m: WakeEventModel| #[trigger] both(m) == (first(m) && second(m)),
    ensures
        s.filter(first).filter(second) == s.filter(both),
    decreases s.len(),
{
    reveal(Seq::filter);
    if s.len() > 0 {
        let rest = s.drop_last();
        lemma_filter_twice(rest, first, second, both);
        assert(rest.filter(first).push(s.last()).drop_last() =~= rest.filter(first));
    }
}

/// An event is listed if and only if it is on record, belongs to the agent that is asked for, if one
/// is, and has the status that is asked for, if one is: each filter holds on its own, whether the other
/// is there or not. Asking for both gives what asking for the agent gives, picked by the status, in the
/// same order, and asking for neither gives every event, none before one of a later time.
pub proof fn law_both_filters_count(
    s: StoreModel,
    agent_id: Seq<char>,
    status: WakeEventStatus,
    m: WakeEventModel,
)
    ensures
        s.list_wake_events(None, None).to_multiset() == s.wake_events.to_multiset(),
        forall|i: int, j: int|
            0 <= i < j < s.list_wake_events(None, None).len() ==> !text::before(
                (#[trigger] s.list_wake_events(None, None)[i]).created_at,
                (#[trigger] s.list_wake_events(None, None)[j]).created_at,
            ),
        s.list_wake_events(Some(agent_id), None) == s.list_wake_events(None, None).filter(
            |x: WakeEventModel| x.agent_id == agent_id,
        ),
        s.list_wake_events(None, Some(status)) == s.list_wake_events(None, None).filter(
            |x: WakeEventModel| x.status == status,
        ),
        s.list_wake_events(Some(agent_id), Some(status)) == s.list_wake_events(
            Some(agent_id),
            None,
        ).filter(|x: WakeEventModel| x.status == status),
        s.list_wake_events(None, None).contains(m) <==> s.wake_events.contains(m),
        s.list_wake_events(Some(agent_id), None).contains(m) <==> s.wake_events.contains(m)
            && m.agent_id == agent_id,
        s.list_wake_events(None, Some(status)).contains(m) <==> s.wake_events.contains(m) && m.status
            == status,
        s.list_wake_events(Some(agent_id), Some(status)).contains(m) <==> s.wake_events.contains(m)
            && m.agent_id == agent_id && m.status == status,
{
    broadcast use vstd::seq_lib::group_to_multiset_ensures;

    let all = table::newest_first::<WakeEvent>(s.wake_events);
    let any = |x: WakeEventModel| true;
    let of_agent = |x: WakeEventModel| x.agent_id == agent_id;
    let in_status = |x: WakeEventModel| x.status == status;
    let both = |x: WakeEventModel| x.agent_id == agent_id && x.status == status;
    lemma_passing_is_filter(all, None, None, any);
    lemma_passing_is_filter(all, Some(agent_id), None, of_agent);
    lemma_passing_is_filter(all, None, Some(status), in_status);
    lemma_passing_is_filter(all, Some(agent_id), Some(status), both);
    lemma_filter_all(all, any);
    lemma_filter_twice(all, of_agent, in_status, both);
    table::law_listing_is_complete::<WakeEvent>(s.wake_events);
    table::lemma_listing_contains::<WakeEvent>(s.wake_events, m);
    lemma_filtered_contains(all, any, m);
    lemma_filtered_contains(all, of_agent, m);
    lemma_filtered_contains(all, in_status, m);
    lemma_filtered_contains(all, both, m);
}

/// Filtering nothing out keeps everything.
proof fn lemma_filter_all(s: Seq<WakeEventModel>, keep: spec_fn(WakeEventModel) -> bool)
    requires
        forall|m: WakeEventModel| #[trigger] keep(m),
    ensures
        s.filter(keep) == s,
    decreases s.len(),
{
    reveal(Seq::filter);
    if s.len() > 0 {
        lemma_filter_all(s.drop_last(), keep);
        assert(s.drop_last().push(s.last()) =~= s);
    }
}

/// What is kept by a filter is what was there and meets it.
proof fn lemma_filtered_contains(
    s: Seq<WakeEventModel>,
    keep: spec_fn(WakeEventModel) -> bool,
    m: WakeEventModel,
)
    ensures
        s.filter(keep).contains(m) <==> s.contains(m) && keep(m),
    decreases s.len(),
{
    reveal(Seq::filter);
    if s.len() > 0 {
        let rest = s.drop_last();
        let kept = rest.filter(keep);
        let out = s.filter(keep);
        lemma_filtered_contains(rest, keep, m);
        if out.contains(m) {
            let i = choose|i: int| 0 <= i < out.len() && out[i] == m;
            if i < kept.len() {
                assert(kept[i] == m);
                let k = choose|k: int| 0 <= k < rest.len() && rest[k] == m;
                assert(s[k] == m);
            } else {
                assert(s[s.len() - 1] == m);
            }
        }
        if s.contains(m) && keep(m) {
            let k = choose|k: int| 0 <= k < s.len() && s[k] == m;
            if k < rest.len() {
                assert(rest[k] == m);
                let i = choose|i: int| 0 <= i < kept.len() && kept[i] == m;
                assert(out[i] == m);
            } else {
                assert(out[out.len() - 1] == m);
            }
        }
    }
}

/// An event is recorded as it was asked for: pending, never attempted, under a fresh id, unless the agent
/// has no name, one of its key is there, or the id is taken; recording it changes nothing else.
pub proof fn law_event_is_recorded_as_asked(
    s: StoreModel,
    agent_id: Seq<char>,
    trigger_id: Option<Seq<char>>,
    reason: Seq<char>,
    fired: DetailModel,
    observed: DetailModel,
    payload: DetailModel,
    key: Seq<char>,
    uuid: Seq<char>,
    now: Seq<char>,
)
    ensures
        ({
            let (t, r) = s.create_wake_event(
                agent_id,
                trigger_id,
                reason,
                fired,
                observed,
                payload,
                key,
                uuid,
                now,
            );
            let taken = exists|i: int|
                0 <= i < s.wake_events.len() && (#[trigger] s.wake_events[i]).idempotency_key == key;
            &&& systems::is_blank(agent_id) ==> r is Err
            &&& r is Err ==> t == s
            &&& !systems::is_blank(agent_id) && taken ==> t == s && (r matches Ok(m)
                && m.idempotency_key == key && s.wake_events.contains(m))
            &&& !systems::is_blank(agent_id) && !taken ==> (r is Ok <==> s.get_wake_event(
                "wake:"@ + uuid,
            ) is Err)
            &&& !taken && r is Ok ==> {
                let m = r->Ok_0;
                &&& t == (StoreModel { wake_events: s.wake_events.push(m), ..s })
                &&& m.event_id == "wake:"@ + uuid && m.agent_id == agent_id && m.trigger_id == trigger_id
                &&& m.reason == reason && m.fired == fired && m.observed == observed && m.payload
                    == payload
                &&& m.idempotency_key == key && m.created_at == now
                &&& m.status == WakeEventStatus::Pending && m.attempt_count == 0
                &&& m.acknowledged_at is None && m.completed_at is None && m.delivered_at is None
                &&& m.next_attempt_at is None && m.last_error is None
            }
        }),
{
    lemma_key_is_taken(s.wake_events, key);
}

/// An event is found under a key if and only if one on record has it.
proof fn lemma_key_is_taken(s: Seq<WakeEventModel>, key: Seq<char>)
    ensures
        with_idempotency_key(s, key) is Some <==> exists|i: int|
            0 <= i < s.len() && (#[trigger] s[i]).idempotency_key == key,
        with_idempotency_key(s, key) matches Some(m) ==> m.idempotency_key == key && s.contains(m),
    decreases s.len(),
{
    if s.len() > 0 {
        let rest = s.drop_last();
        lemma_key_is_taken(rest, key);
        if with_idempotency_key(rest, key) is Some {
            let m = with_idempotency_key(rest, key)->0;
            let k = choose|k: int| 0 <= k < rest.len() && rest[k] == m;
            assert(s[k] == m);
        } else if s.last().idempotency_key == key {
            assert(s[s.len() - 1] == s.last());
        } else {
            assert forall|i: int| 0 <= i < s.len() implies (#[trigger] s[i]).idempotency_key != key by {
                if i < rest.len() {
                    assert(rest[i] == s[i]);
                }
            }
        }
    }
}

/// Acknowledging an event, or completing it, moves it on and notes the time; all else about it, every
/// other event, and the rest of the registry stay as they are. What is returned is what is on record.
pub proof fn law_moving_an_event_changes_only_that(
    s: StoreModel,
    id: Seq<char>,
    now: Seq<char>,
    other: Seq<char>,
)
    requires
        other != id,
    ensures
        s.get_wake_event(id) is Err ==> s.ack_wake_event(id, now).1 is Err && s.complete_wake_event(
            id,
            now,
        ).1 is Err,
        s.get_wake_event(id) matches Ok(m) ==> {
            let (acked, a) = s.ack_wake_event(id, now);
            let (completed, c) = s.complete_wake_event(id, now);
            &&& m.status == WakeEventStatus::Pending ==> a == Ok::<WakeEventModel, StoreErrorModel>(
                WakeEventModel {
                    status: WakeEventStatus::Acknowledged,
                    acknowledged_at: Some(now),
                    ..m
                },
            ) && acked.get_wake_event(id) == a
            &&& m.status == WakeEventStatus::Acknowledged ==> c == Ok::<
                WakeEventModel,
                StoreErrorModel,
            >(
                WakeEventModel {
                    status: WakeEventStatus::Completed,
                    completed_at: Some(now),
                    ..m
                },
            ) && completed.get_wake_event(id) == c
            &&& m.status != WakeEventStatus::Pending ==> a is Err && acked == s
            &&& m.status != WakeEventStatus::Acknowledged ==> c is Err && completed == s
            &&& acked.get_wake_event(other) == s.get_wake_event(other)
            &&& completed.get_wake_event(other) == s.get_wake_event(other)
            &&& acked == (StoreModel { wake_events: acked.wake_events, ..s })
            &&& completed == (StoreModel { wake_events: completed.wake_events, ..s })
            &&& acked.wake_events.len() == s.wake_events.len()
            &&& completed.wake_events.len() == s.wake_events.len()
        },
{
    table::lemma_place::<WakeEvent>(s.wake_events, id);
    if s.get_wake_event(id) is Ok {
        let m = s.get_wake_event(id)->Ok_0;
        let a = WakeEventModel {
            status: WakeEventStatus::Acknowledged,
            acknowledged_at: Some(now),
            ..m
        };
        let c = WakeEventModel {
            status: WakeEventStatus::Completed,
            completed_at: Some(now),
            ..m
        };
        table::lemma_put_then_row::<WakeEvent>(s.wake_events, a);
        table::lemma_put_keeps_others::<WakeEvent>(s.wake_events, a, other);
        table::lemma_put_then_row::<WakeEvent>(s.wake_events, c);
        table::lemma_put_keeps_others::<WakeEvent>(s.wake_events, c, other);
    }
}

/// The event of a trigger says which agent to wake, which trigger was met, when and by what it was
/// found met, its condition, and the value that met it: the time itself, or the local time of its
/// system then. A trigger that wakes no agent leaves none.
pub proof fn law_event_says_what_was_met(
    s: StoreModel,
    t: TriggerModel,
    now_s: Float,
    uuid: Seq<char>,
    now: Seq<char>,
)
    ensures
        ({
            let (after, r) = s.create_wake_event_from_trigger(t, now_s, uuid, now);
            &&& t.action.kind != ActionKind::AgentWake ==> r is Err && after == s
            &&& r is Ok && after != s ==> {
                let m = r->Ok_0;
                &&& after.wake_events == s.wake_events.push(m)
                &&& m.agent_id == t.action.target
                &&& m.trigger_id == Some(t.id)
                &&& m.reason == "trigger_condition_satisfied"@
                &&& m.fired == (DetailModel::Fired { unix_s: now_s, source: "ctcl_trigger_engine"@ })
                &&& m.observed matches DetailModel::Observed { operator, target_value, observed_value }
                    && operator == t.operator && target_value == t.target_value && (match t.kind {
                    TriggerKind::CommonInstant => observed_value == now_s,
                    TriggerKind::CustomTime => t.system_id is Some && (s.system_now(
                        t.system_id->0,
                        now_s,
                    ) matches Ok((local, _)) && observed_value == local),
                })
                &&& m.payload == DetailModel::Json("{}"@)
                &&& m.idempotency_key == "trigger-fire:"@ + t.id + ":"@ + t.created_at
                &&& m.status == WakeEventStatus::Pending
                &&& m.created_at == now
            }
        }),
{
}

/// Without filters every event is listed.
pub proof fn lemma_no_filter_keeps_all(s: Seq<WakeEventModel>)
    ensures
        passing(s, None, None) == s,
{
    let any = |x: WakeEventModel| true;
    lemma_passing_is_filter(s, None, None, any);
    lemma_filter_all(s, any);
}

/// Statuses are known by their names.
pub proof fn law_statuses_have_their_names(status: WakeEventStatus)
    ensures
        status == WakeEventStatus::Pending ==> status.name() == "pending"@,
        status == WakeEventStatus::Delivering ==> status.name() == "delivering"@,
        status == WakeEventStatus::Delivered ==> status.name() == "delivered"@,
        status == WakeEventStatus::Acknowledged ==> status.name() == "acknowledged"@,
        status == WakeEventStatus::DecidedNoAction ==> status.name() == "decided_no_action"@,
        status == WakeEventStatus::DecidedAction ==> status.name() == "decided_action"@,
        status == WakeEventStatus::Completed ==> status.name() == "completed"@,
        status == WakeEventStatus::RetryWait ==> status.name() == "retry_wait"@,
        status == WakeEventStatus::DeadLetter ==> status.name() == "dead_letter"@,
{
}

} // verus!

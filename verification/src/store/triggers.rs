//! Triggers: a condition on the common instant or on a system's local time, and what to do when it is
//! met. Equality is not offered as a condition: periodic sampling steps over an exact instant, and the
//! trigger would never fire.
use crate::clock;
use crate::number::{Float, Number};
use crate::store::error;
use crate::store::error::{StoreError, StoreErrorModel};
use crate::store::systems;
use crate::store::table;
use crate::store::table::{Record, Row};
use crate::store::{Store, StoreModel};
use crate::text;
use vstd::prelude::*;

verus! {

/// What a trigger watches.
#[derive(Debug, Clone, Copy, PartialEq, Eq, Structural)]
pub enum TriggerKind {
    CommonInstant,
    CustomTime,
}

/// How the watched value is held against the target.
#[derive(Debug, Clone, Copy, PartialEq, Eq, Structural)]
pub enum Operator {
    Ge,
    Le,
}

/// What a trigger does.
#[derive(Debug, Clone, Copy, PartialEq, Eq, Structural)]
pub enum ActionKind {
    Notification,
    Callback,
    /// Leaves a wake event for an agent to pick up. No tool is called on the agent's behalf.
    AgentWake,
}

/// What a trigger does, and to what: the message to show, the URI to open, or the agent to wake.
#[derive(Debug, Clone)]
pub struct TriggerAction {
    pub kind: ActionKind,
    pub target: String,
}

/// Where a trigger stands.
#[derive(Debug, Clone, Copy, PartialEq, Eq, Structural)]
pub enum TriggerStatus {
    Active,
    Fired,
    Cancelled,
}

/// A trigger.
#[derive(Debug, Clone)]
pub struct Trigger {
    pub id: String,
    pub kind: TriggerKind,
    pub system_id: Option<String>,
    pub operator: Operator,
    pub target_value: Number,
    pub action: TriggerAction,
    pub status: TriggerStatus,
    pub created_at: String,
    pub fired_at: Option<String>,
}

#[verifier::ext_equal]
pub struct ActionModel {
    pub kind: ActionKind,
    pub target: Seq<char>,
}

#[verifier::ext_equal]
pub struct TriggerModel {
    pub id: Seq<char>,
    pub kind: TriggerKind,
    pub system_id: Option<Seq<char>>,
    pub operator: Operator,
    pub target_value: Float,
    pub action: ActionModel,
    pub status: TriggerStatus,
    pub created_at: Seq<char>,
    pub fired_at: Option<Seq<char>>,
}

impl View for TriggerAction {
    type V = ActionModel;

    open spec fn view(&self) -> ActionModel {
        ActionModel { kind: self.kind, target: self.target@ }
    }
}

impl View for Trigger {
    type V = TriggerModel;

    open spec fn view(&self) -> TriggerModel {
        TriggerModel {
            id: self.id@,
            kind: self.kind,
            system_id: text::opt(self.system_id),
            operator: self.operator,
            target_value: self.target_value@,
            action: self.action@,
            status: self.status,
            created_at: self.created_at@,
            fired_at: text::opt(self.fired_at),
        }
    }
}

impl TriggerAction {
    /// A copy of the action.
    pub fn copy(&self) -> (r: TriggerAction)
        ensures
            r@ == self@,
    {
        TriggerAction { kind: self.kind, target: self.target.clone() }
    }
}

impl Record for Trigger {
    fn copy(&self) -> (r: Trigger) {
        Trigger {
            id: self.id.clone(),
            kind: self.kind,
            system_id: text::copy_opt(&self.system_id),
            operator: self.operator,
            target_value: self.target_value,
            action: self.action.copy(),
            status: self.status,
            created_at: self.created_at.clone(),
            fired_at: text::copy_opt(&self.fired_at),
        }
    }
}

impl Row for Trigger {
    open spec fn key_of(m: TriggerModel) -> Seq<char> {
        m.id
    }

    open spec fn stamp_of(m: TriggerModel) -> Seq<char> {
        m.created_at
    }

    fn key(&self) -> (r: &str) {
        self.id.as_str()
    }

    fn stamp(&self) -> (r: &str) {
        self.created_at.as_str()
    }
}

/// The operator that a sign stands for.
pub open spec fn operator_of(s: Seq<char>) -> Option<Operator> {
    if s == ">="@ {
        Some(Operator::Ge)
    } else if s == "<="@ {
        Some(Operator::Le)
    } else {
        None
    }
}

/// Why a sign is no operator.
pub open spec fn bad_operator(s: Seq<char>) -> StoreErrorModel {
    StoreErrorModel::InvalidInput(
        "unsupported operator '"@ + s
            + "' - only >= and <= are supported (== would silently never fire under periodic sampling)"@,
    )
}

impl Operator {
    /// The operator's sign.
    pub open spec fn sign(self) -> Seq<char> {
        match self {
            Operator::Ge => ">="@,
            Operator::Le => "<="@,
        }
    }

    /// Whether the condition holds.
    pub open spec fn holds(self, current: Float, target: Float) -> bool {
        match self {
            Operator::Ge => target.at_most(current),
            Operator::Le => current.at_most(target),
        }
    }

    /// The operator that a sign stands for.
    pub fn parse(s: &str) -> (r: Result<Operator, StoreError>)
        ensures
            (match r {
                Ok(o) => operator_of(s@) == Some(o),
                Err(e) => operator_of(s@) is None && e@ == bad_operator(s@),
            }),
    {
        if text::same(s, ">=") {
            Ok(Operator::Ge)
        } else if text::same(s, "<=") {
            Ok(Operator::Le)
        } else {
            Err(
                StoreError::InvalidInput(
                    text::join3(
                        "unsupported operator '",
                        s,
                        "' - only >= and <= are supported (== would silently never fire under periodic sampling)",
                    ),
                ),
            )
        }
    }

    /// The operator's sign.
    pub fn as_str(&self) -> (r: &'static str)
        ensures
            r@ == self.sign(),
    {
        match self {
            Operator::Ge => ">=",
            Operator::Le => "<=",
        }
    }

    /// Whether the condition holds.
    pub fn satisfied(&self, current: Number, target: Number) -> (r: bool)
        ensures
            r == self.holds(current@, target@),
    {
        match self {
            Operator::Ge => target.at_most(&current),
            Operator::Le => current.at_most(&target),
        }
    }
}

impl TriggerKind {
    /// The kind's name.
    pub open spec fn name(self) -> Seq<char> {
        match self {
            TriggerKind::CommonInstant => "common_instant"@,
            TriggerKind::CustomTime => "custom_time"@,
        }
    }

    /// The kind's name.
    pub fn as_str(&self) -> (r: &'static str)
        ensures
            r@ == self.name(),
    {
        match self {
            TriggerKind::CommonInstant => "common_instant",
            TriggerKind::CustomTime => "custom_time",
        }
    }
}

/// The kind that a name on record stands for: what is not `custom_time` watches the common instant.
pub open spec fn kind_of(s: Seq<char>) -> TriggerKind {
    if s == "custom_time"@ {
        TriggerKind::CustomTime
    } else {
        TriggerKind::CommonInstant
    }
}

/// The kind that a name stands for: what is not `custom_time` watches the common instant.
pub fn kind_from_str(s: &str) -> (r: TriggerKind)
    ensures
        r == kind_of(s@),
{
    if text::same(s, "custom_time") {
        TriggerKind::CustomTime
    } else {
        TriggerKind::CommonInstant
    }
}

/// The action that a name in a call stands for: what is neither a callback nor an agent's wake is a
/// notification.
pub open spec fn action_kind_of(s: Seq<char>) -> ActionKind {
    if s == "callback"@ {
        ActionKind::Callback
    } else if s == "agent_wake"@ {
        ActionKind::AgentWake
    } else {
        ActionKind::Notification
    }
}

/// The action that a name in a call stands for.
pub fn action_kind_from_str(s: &str) -> (r: ActionKind)
    ensures
        r == action_kind_of(s@),
{
    if text::same(s, "callback") {
        ActionKind::Callback
    } else if text::same(s, "agent_wake") {
        ActionKind::AgentWake
    } else {
        ActionKind::Notification
    }
}

impl ActionKind {
    /// The kind's name.
    pub open spec fn name(self) -> Seq<char> {
        match self {
            ActionKind::Notification => "notification"@,
            ActionKind::Callback => "callback"@,
            ActionKind::AgentWake => "agent_wake"@,
        }
    }

    /// The kind's name.
    pub fn as_str(&self) -> (r: &'static str)
        ensures
            r@ == self.name(),
    {
        match self {
            ActionKind::Notification => "notification",
            ActionKind::Callback => "callback",
            ActionKind::AgentWake => "agent_wake",
        }
    }
}

impl TriggerStatus {
    /// The status' name.
    pub open spec fn name(self) -> Seq<char> {
        match self {
            TriggerStatus::Active => "active"@,
            TriggerStatus::Fired => "fired"@,
            TriggerStatus::Cancelled => "cancelled"@,
        }
    }

    /// The status' name.
    pub fn as_str(&self) -> (r: &'static str)
        ensures
            r@ == self.name(),
    {
        match self {
            TriggerStatus::Active => "active",
            TriggerStatus::Fired => "fired",
            TriggerStatus::Cancelled => "cancelled",
        }
    }
}

/// The status that a name on record stands for: what is neither fired nor cancelled is active.
pub open spec fn status_of(s: Seq<char>) -> TriggerStatus {
    if s == "fired"@ {
        TriggerStatus::Fired
    } else if s == "cancelled"@ {
        TriggerStatus::Cancelled
    } else {
        TriggerStatus::Active
    }
}

/// The status that a name on record stands for.
pub fn status_from_str(s: &str) -> (r: TriggerStatus)
    ensures
        r == status_of(s@),
{
    if text::same(s, "fired") {
        TriggerStatus::Fired
    } else if text::same(s, "cancelled") {
        TriggerStatus::Cancelled
    } else {
        TriggerStatus::Active
    }
}

impl Trigger {
    /// The trigger that a record describes.
    pub fn from_parts(
        id: String,
        kind: &str,
        system_id: Option<String>,
        operator: &str,
        target_value: Number,
        action: TriggerAction,
        status: &str,
        created_at: String,
        fired_at: Option<String>,
    ) -> (r: Result<Trigger, StoreError>)
        ensures
            error::outcome(r) == (match operator_of(operator@) {
                Some(o) => Ok::<TriggerModel, StoreErrorModel>(
                    TriggerModel {
                        id: id@,
                        kind: kind_of(kind@),
                        system_id: text::opt(system_id),
                        operator: o,
                        target_value: target_value@,
                        action: action@,
                        status: status_of(status@),
                        created_at: created_at@,
                        fired_at: text::opt(fired_at),
                    },
                ),
                None => Err(bad_operator(operator@)),
            }),
    {
        let kind: TriggerKind = kind_from_str(kind);
        match Operator::parse(operator) {
            Ok(operator) => Ok(
                Trigger {
                    id,
                    kind,
                    system_id,
                    operator,
                    target_value,
                    action,
                    status: status_from_str(status),
                    created_at,
                    fired_at,
                },
            ),
            Err(e) => Err(e),
        }
    }
}

/// What is on record of a trigger describes that trigger: its names stand for what they were made of.
pub proof fn law_trigger_names_read_back(
    kind: TriggerKind,
    action: ActionKind,
    status: TriggerStatus,
    operator: Operator,
)
    ensures
        kind_of(kind.name()) == kind,
        action_kind_of(action.name()) == action,
        status_of(status.name()) == status,
        operator_of(operator.sign()) == Some(operator),
{
    reveal_strlit("custom_time");
    reveal_strlit("common_instant");
    reveal_strlit("notification");
    reveal_strlit("callback");
    reveal_strlit("agent_wake");
    reveal_strlit("active");
    reveal_strlit("fired");
    reveal_strlit("cancelled");
    reveal_strlit(">=");
    reveal_strlit("<=");
    assert("common_instant"@.len() != "custom_time"@.len());
    assert("notification"@.len() != "callback"@.len());
    assert("notification"@.len() != "agent_wake"@.len());
    assert("callback"@.len() != "agent_wake"@.len());
    assert("active"@.len() != "fired"@.len());
    assert("active"@.len() != "cancelled"@.len());
    assert("fired"@.len() != "cancelled"@.len());
    assert(">="@[0] != "<="@[0]);
}

/// Why a trigger is not on record.
pub open spec fn unknown_trigger(id: Seq<char>) -> StoreErrorModel {
    StoreErrorModel::InvalidInput("unknown trigger: "@ + id)
}

impl StoreModel {
    /// The trigger with an id.
    pub open spec fn get_trigger(self, id: Seq<char>) -> Result<TriggerModel, StoreErrorModel> {
        match table::row::<Trigger>(self.triggers, id) {
            Some(m) => Ok(m),
            None => Err(unknown_trigger(id)),
        }
    }

    /// Sets a trigger. Setting it again under the same id arms it again.
    pub open spec fn create_trigger(
        self,
        id: Seq<char>,
        kind: TriggerKind,
        system_id: Option<Seq<char>>,
        operator: Operator,
        target_value: Float,
        action: ActionModel,
        now: Seq<char>,
    ) -> (StoreModel, Result<TriggerModel, StoreErrorModel>) {
        if systems::is_blank(id) {
            (self, Err(StoreErrorModel::InvalidInput("trigger id must not be empty"@)))
        } else if kind == TriggerKind::CustomTime && system_id is None {
            (self, Err(StoreErrorModel::InvalidInput("custom_time trigger requires system_id"@)))
        } else if target_value is Nan {
            (self, Err(StoreErrorModel::Sqlite("NOT NULL constraint failed: triggers.target_value"@)))
        } else {
            let t = TriggerModel {
                id,
                kind,
                system_id,
                operator,
                target_value,
                action,
                status: TriggerStatus::Active,
                created_at: now,
                fired_at: None,
            };
            (StoreModel { triggers: table::put::<Trigger>(self.triggers, t), ..self }, Ok(t))
        }
    }

    /// Calls a trigger off, if it is still active.
    pub open spec fn cancel_trigger(self, id: Seq<char>) -> (
        StoreModel,
        Result<TriggerModel, StoreErrorModel>,
    ) {
        match table::row::<Trigger>(self.triggers, id) {
            Some(t) => if t.status == TriggerStatus::Active {
                let u = TriggerModel { status: TriggerStatus::Cancelled, ..t };
                (StoreModel { triggers: table::put::<Trigger>(self.triggers, u), ..self }, Ok(u))
            } else {
                (self, Ok(t))
            },
            None => (self, Err(unknown_trigger(id))),
        }
    }

    /// Records that a trigger has fired, if it is still active.
    pub open spec fn mark_fired(self, id: Seq<char>, now: Seq<char>) -> StoreModel {
        match table::row::<Trigger>(self.triggers, id) {
            Some(t) => if t.status == TriggerStatus::Active {
                let u = TriggerModel { status: TriggerStatus::Fired, fired_at: Some(now), ..t };
                StoreModel { triggers: table::put::<Trigger>(self.triggers, u), ..self }
            } else {
                self
            },
            None => self,
        }
    }

    /// The value that a trigger watches, at a time in seconds; `None` where its system is missing.
    pub open spec fn watched(self, t: TriggerModel, now: Float) -> Option<Float> {
        match t.kind {
            TriggerKind::CommonInstant => Some(now),
            TriggerKind::CustomTime => match t.system_id {
                Some(id) => match self.system_now(id, now) {
                    Ok((local, _)) => Some(local),
                    Err(_) => None,
                },
                None => None,
            },
        }
    }

    /// Whether a trigger is active and its condition is met.
    pub open spec fn is_due(self, t: TriggerModel, now: Float) -> bool {
        t.status == TriggerStatus::Active && (self.watched(t, now) matches Some(current)
            && t.operator.holds(current, t.target_value))
    }

    /// Those of the triggers that are due, in their order.
    pub open spec fn due_among(self, triggers: Seq<TriggerModel>, now: Float) -> Seq<TriggerModel>
        decreases triggers.len(),
    {
        if triggers.len() == 0 {
            Seq::empty()
        } else {
            let rest = self.due_among(triggers.drop_last(), now);
            if self.is_due(triggers.last(), now) {
                rest.push(triggers.last())
            } else {
                rest
            }
        }
    }

    /// The triggers that are due.
    pub open spec fn due_triggers(self, now: Float) -> Seq<TriggerModel> {
        self.due_among(table::newest_first::<Trigger>(self.triggers), now)
    }
}

impl Store {
    /// Sets a trigger at a given time.
    pub fn create_trigger_at(
        &mut self,
        id: &str,
        kind: TriggerKind,
        system_id: Option<&str>,
        operator: Operator,
        target_value: Number,
        action: TriggerAction,
        now: &str,
    ) -> (r: Result<Trigger, StoreError>)
        ensures
            (final(self)@, error::outcome(r)) == old(self)@.create_trigger(
                id@,
                kind,
                text::opt_str(system_id),
                operator,
                target_value@,
                action@,
                now@,
            ),
    {
        if systems::blank(id) {
            return Err(StoreError::InvalidInput("trigger id must not be empty".to_owned()));
        }
        if kind == TriggerKind::CustomTime && system_id.is_none() {
            return Err(
                StoreError::InvalidInput("custom_time trigger requires system_id".to_owned()),
            );
        }
        if target_value.is_nan() {
            return Err(
                StoreError::Sqlite("NOT NULL constraint failed: triggers.target_value".to_owned()),
            );
        }
        let t = Trigger {
            id: id.to_owned(),
            kind,
            system_id: text::own_opt(system_id),
            operator,
            target_value,
            action,
            status: TriggerStatus::Active,
            created_at: now.to_owned(),
            fired_at: None,
        };
        let stored: Trigger = t.copy();
        table::put_row(&mut self.triggers, stored);
        Ok(t)
    }

    /// Sets a trigger at the time of the device's clock. Setting it again under the same id arms it
    /// again.
    pub fn create_trigger(
        &mut self,
        id: &str,
        kind: TriggerKind,
        system_id: Option<&str>,
        operator: Operator,
        target_value: Number,
        action: TriggerAction,
    ) -> (r: Result<Trigger, StoreError>)
        ensures
            exists|now: Seq<char>|
                clock::is_utc_stamp(now) && (final(self)@, error::outcome(r))
                    == #[trigger] old(self)@.create_trigger(
                    id@,
                    kind,
                    text::opt_str(system_id),
                    operator,
                    target_value@,
                    action@,
                    now,
                ),
    {
        let now = clock::now_text();
        self.create_trigger_at(id, kind, system_id, operator, target_value, action, now.as_str())
    }

    /// The trigger with an id.
    pub fn get_trigger(&self, id: &str) -> (r: Result<Trigger, StoreError>)
        ensures
            error::outcome(r) == self@.get_trigger(id@),
    {
        match table::get(&self.triggers, id) {
            Some(t) => Ok(t),
            None => Err(StoreError::InvalidInput(text::join("unknown trigger: ", id))),
        }
    }

    /// All triggers, the latest first.
    pub fn list_triggers(&self) -> (r: Vec<Trigger>)
        ensures
            table::models(r@) == table::newest_first::<Trigger>(self@.triggers),
    {
        table::list_newest(&self.triggers)
    }

    /// Calls a trigger off, if it is still active.
    pub fn cancel_trigger(&mut self, id: &str) -> (r: Result<Trigger, StoreError>)
        ensures
            (final(self)@, error::outcome(r)) == old(self)@.cancel_trigger(id@),
    {
        let mut t: Trigger = match table::get(&self.triggers, id) {
            Some(t) => t,
            None => {
                return Err(StoreError::InvalidInput(text::join("unknown trigger: ", id)));
            },
        };
        if t.status == TriggerStatus::Active {
            t.status = TriggerStatus::Cancelled;
            let stored: Trigger = t.copy();
            table::put_row(&mut self.triggers, stored);
        }
        Ok(t)
    }

    /// Records, at a given time, that a trigger has fired, if it is still active.
    pub fn mark_fired_at(&mut self, id: &str, now: &str)
        ensures
            final(self)@ == old(self)@.mark_fired(id@, now@),
    {
        match table::get(&self.triggers, id) {
            Some(t) => {
                let mut t: Trigger = t;
                if t.status == TriggerStatus::Active {
                    t.status = TriggerStatus::Fired;
                    t.fired_at = Some(now.to_owned());
                    table::put_row(&mut self.triggers, t);
                }
            },
            None => {},
        }
    }

    /// Records that a trigger has fired, if it is still active.
    pub fn mark_fired(&mut self, id: &str)
        ensures
            exists|now: Seq<char>|
                clock::is_utc_stamp(now) && final(self)@ == #[trigger] old(self)@.mark_fired(id@, now),
    {
        let now = clock::now_text();
        self.mark_fired_at(id, now.as_str());
    }

    /// The value that a trigger watches.
    fn watched(&self, t: &Trigger, now: Number) -> (r: Option<Number>)
        ensures
            (match r {
                Some(n) => self@.watched(t@, now@) == Some(n@),
                None => self@.watched(t@, now@) is None,
            }),
    {
        match t.kind {
            TriggerKind::CommonInstant => Some(now),
            TriggerKind::CustomTime => match &t.system_id {
                Some(id) => match self.system_now(id.as_str(), now) {
                    Ok((local, _)) => Some(local),
                    Err(_) => None,
                },
                None => None,
            },
        }
    }

    /// The active triggers whose condition is met at a time in seconds, the latest first. A trigger
    /// whose system is missing is passed over. Nothing is changed: a trigger is marked as fired once its
    /// action was carried out.
    pub fn due_triggers(&self, now_unix_s: Number) -> (r: Vec<Trigger>)
        ensures
            table::models(r@) == self@.due_triggers(now_unix_s@),
    {
        let triggers = self.list_triggers();
        let ghost listed = table::models(triggers@);
        let mut due: Vec<Trigger> = Vec::new();
        let mut i: usize = 0;
        assert(table::models(due@) =~= self@.due_among(listed.take(0), now_unix_s@));
        while i < triggers.len()
            invariant
                i <= triggers.len(),
                listed == table::models(triggers@),
                table::models(due@) == self@.due_among(listed.take(i as int), now_unix_s@),
            decreases triggers.len() - i,
        {
            let t: &Trigger = &triggers[i];
            let ghost before = due@;
            assert(listed.take(i + 1).drop_last() =~= listed.take(i as int));
            assert(listed.take(i + 1).last() == t@);
            if t.status == TriggerStatus::Active {
                match self.watched(t, now_unix_s) {
                    Some(current) => {
                        if t.operator.satisfied(current, t.target_value) {
                            due.push(t.copy());
                            assert(table::models(due@) =~= table::models(before).push(t@));
                        }
                    },
                    None => {},
                }
            }
            i = i + 1;
        }
        assert(listed.take(i as int) =~= listed);
        due
    }
}

proof fn lemma_due_among(s: StoreModel, triggers: Seq<TriggerModel>, now: Float, t: TriggerModel)
    ensures
        s.due_among(triggers, now).contains(t) <==> triggers.contains(t) && s.is_due(t, now),
    decreases triggers.len(),
{
    let due = s.due_among(triggers, now);
    if triggers.len() > 0 {
        let rest = triggers.drop_last();
        let inner = s.due_among(rest, now);
        lemma_due_among(s, rest, now, t);
        if due.contains(t) {
            let i = choose|i: int| 0 <= i < due.len() && due[i] == t;
            if i < inner.len() {
                assert(inner[i] == t);
                let k = choose|k: int| 0 <= k < rest.len() && rest[k] == t;
                assert(triggers[k] == t);
            } else {
                assert(triggers[triggers.len() - 1] == t);
            }
        }
        if triggers.contains(t) && s.is_due(t, now) {
            let k = choose|k: int| 0 <= k < triggers.len() && triggers[k] == t;
            if k < rest.len() {
                assert(rest[k] == t);
                let i = choose|i: int| 0 <= i < inner.len() && inner[i] == t;
                assert(due[i] == t);
            } else {
                assert(due[due.len() - 1] == t);
            }
        }
    }
}

/// A trigger is due if and only if it is on record, active, and its condition is met.
pub proof fn law_due_is_active_and_met(s: StoreModel, now: Float, t: TriggerModel)
    ensures
        s.due_triggers(now).contains(t) <==> s.triggers.contains(t) && s.is_due(t, now),
{
    lemma_due_among(s, table::newest_first::<Trigger>(s.triggers), now, t);
    table::lemma_listing_contains::<Trigger>(s.triggers, t);
}

/// A trigger that fired stays fired: it is not due again, and neither cancelling it nor marking it
/// again changes it.
pub proof fn law_fired_stays_fired(s: StoreModel, id: Seq<char>, now: Seq<char>, later: Seq<char>, at: Float)
    requires
        s.get_trigger(id) is Ok,
        s.get_trigger(id)->Ok_0.status == TriggerStatus::Active,
    ensures
        ({
            let t = s.mark_fired(id, now);
            &&& t.get_trigger(id) matches Ok(m) && m.status == TriggerStatus::Fired && m.fired_at
                == Some(now) && !t.is_due(m, at)
            &&& t.mark_fired(id, later) == t
            &&& t.cancel_trigger(id).0 == t
        }),
{
    let u = TriggerModel {
        status: TriggerStatus::Fired,
        fired_at: Some(now),
        ..s.get_trigger(id)->Ok_0
    };
    table::lemma_place::<Trigger>(s.triggers, id);
    table::lemma_put_then_row::<Trigger>(s.triggers, u);
}

/// A trigger that was cancelled is not due, and does not fire.
pub proof fn law_cancelled_does_not_fire(s: StoreModel, id: Seq<char>, later: Seq<char>, at: Float)
    requires
        s.get_trigger(id) is Ok,
        s.get_trigger(id)->Ok_0.status == TriggerStatus::Active,
    ensures
        ({
            let t = s.cancel_trigger(id).0;
            &&& t.get_trigger(id) matches Ok(m) && m.status == TriggerStatus::Cancelled && !t.is_due(
                m,
                at,
            )
            &&& t.mark_fired(id, later) == t
        }),
{
    let u = TriggerModel { status: TriggerStatus::Cancelled, ..s.get_trigger(id)->Ok_0 };
    table::lemma_place::<Trigger>(s.triggers, id);
    table::lemma_put_then_row::<Trigger>(s.triggers, u);
}

/// Setting a trigger under an id that is already taken arms it, whatever became of it before.
pub proof fn law_setting_arms(
    s: StoreModel,
    id: Seq<char>,
    kind: TriggerKind,
    system_id: Option<Seq<char>>,
    operator: Operator,
    target_value: Float,
    action: ActionModel,
    now: Seq<char>,
)
    ensures
        ({
            let (t, r) = s.create_trigger(id, kind, system_id, operator, target_value, action, now);
            r is Ok ==> (t.get_trigger(id) matches Ok(m) && m.status == TriggerStatus::Active
                && m.fired_at is None && m.target_value == target_value && m.created_at == now)
        }),
{
    let (t, r) = s.create_trigger(id, kind, system_id, operator, target_value, action, now);
    if r is Ok {
        table::lemma_put_then_row::<Trigger>(s.triggers, r->Ok_0);
    }
}

/// A trigger is due if and only if it is on record and active, and what it watches stands in its
/// operator to its target: the time itself, or the local time that its system shows at that time, for
/// every kind of rate. A trigger whose system cannot be read is not due. What is compared is what the
/// event of a trigger records as observed.
pub proof fn law_due_compares_what_is_watched(s: StoreModel, now: Float, t: TriggerModel)
    ensures
        s.due_triggers(now).contains(t) ==> s.triggers.contains(t) && t.status
            == TriggerStatus::Active,
        s.triggers.contains(t) && t.status == TriggerStatus::Active && t.kind
            == TriggerKind::CommonInstant ==> (s.due_triggers(now).contains(t) <==> match t.operator {
            Operator::Ge => t.target_value.less(now) || t.target_value.same(now),
            Operator::Le => now.less(t.target_value) || now.same(t.target_value),
        }),
        s.triggers.contains(t) && t.status == TriggerStatus::Active && t.kind
            == TriggerKind::CustomTime ==> (s.due_triggers(now).contains(t) <==> {
            &&& t.system_id is Some
            &&& s.system_now(t.system_id->0, now) matches Ok((local, _)) && match t.operator {
                Operator::Ge => t.target_value.less(local) || t.target_value.same(local),
                Operator::Le => local.less(t.target_value) || local.same(t.target_value),
            }
        }),
        s.due_triggers(now).contains(t) ==> (s.observed_value(t, now) matches Ok(seen)
            && match t.operator {
            Operator::Ge => t.target_value.less(seen) || t.target_value.same(seen),
            Operator::Le => seen.less(t.target_value) || seen.same(t.target_value),
        }),
        t.kind == TriggerKind::CommonInstant ==> s.observed_value(t, now) == Ok::<
            Float,
            StoreErrorModel,
        >(now),
        t.kind == TriggerKind::CustomTime && t.system_id is Some ==> match s.system_now(
            t.system_id->0,
            now,
        ) {
            Ok((local, _)) => s.observed_value(t, now) == Ok::<Float, StoreErrorModel>(local),
            Err(e) => s.observed_value(t, now) == Err::<Float, StoreErrorModel>(e),
        },
{
    law_due_is_active_and_met(s, now, t);
}

/// A trigger is set if and only if it has a name, a number to wait for, and, where it watches a system,
/// the system's id. It is then on record as it was asked for, armed since that time, and nothing else
/// changes; what is refused changes nothing.
pub proof fn law_trigger_is_set_as_asked(
    s: StoreModel,
    id: Seq<char>,
    kind: TriggerKind,
    system_id: Option<Seq<char>>,
    operator: Operator,
    target_value: Float,
    action: ActionModel,
    now: Seq<char>,
    other: Seq<char>,
)
    requires
        other != id,
    ensures
        ({
            let (t, r) = s.create_trigger(id, kind, system_id, operator, target_value, action, now);
            &&& r is Ok <==> !systems::is_blank(id) && target_value !is Nan && (kind
                == TriggerKind::CustomTime ==> system_id is Some)
            &&& r is Err ==> t == s
            &&& r matches Ok(m) ==> {
                &&& t.get_trigger(id) == r
                &&& m.id == id && m.kind == kind && m.system_id == system_id && m.operator == operator
                &&& m.target_value == target_value && m.action == action
                &&& m.status == TriggerStatus::Active && m.created_at == now && m.fired_at is None
            }
            &&& t.get_trigger(other) == s.get_trigger(other)
            &&& t == (StoreModel { triggers: t.triggers, ..s })
        }),
{
    let (t, r) = s.create_trigger(id, kind, system_id, operator, target_value, action, now);
    if r is Ok {
        table::lemma_put_then_row::<Trigger>(s.triggers, r->Ok_0);
        table::lemma_put_keeps_others::<Trigger>(s.triggers, r->Ok_0, other);
    }
}

/// Calling a trigger off, or recording that it fired, changes its status and with the latter the time at
/// which it fired, from active only; all else about it, every other trigger, and the rest of the
/// registry stay as they are.
pub proof fn law_ending_a_trigger_changes_only_that(
    s: StoreModel,
    id: Seq<char>,
    now: Seq<char>,
    other: Seq<char>,
)
    requires
        other != id,
    ensures
        s.get_trigger(id) is Err ==> s.mark_fired(id, now) == s && s.cancel_trigger(id).0 == s
            && s.cancel_trigger(id).1 is Err,
        s.get_trigger(id) matches Ok(m) ==> {
            let fired = s.mark_fired(id, now);
            let (called_off, r) = s.cancel_trigger(id);
            &&& r is Ok && r == called_off.get_trigger(id)
            &&& m.status != TriggerStatus::Active ==> fired == s && called_off == s
            &&& m.status == TriggerStatus::Active ==> {
                &&& fired.get_trigger(id) == Ok::<TriggerModel, StoreErrorModel>(
                    TriggerModel { status: TriggerStatus::Fired, fired_at: Some(now), ..m },
                )
                &&& called_off.get_trigger(id) == Ok::<TriggerModel, StoreErrorModel>(
                    TriggerModel { status: TriggerStatus::Cancelled, ..m },
                )
            }
            &&& fired.get_trigger(other) == s.get_trigger(other)
            &&& called_off.get_trigger(other) == s.get_trigger(other)
            &&& fired == (StoreModel { triggers: fired.triggers, ..s })
            &&& called_off == (StoreModel { triggers: called_off.triggers, ..s })
        },
{
    table::lemma_place::<Trigger>(s.triggers, id);
    if s.get_trigger(id) is Ok {
        let m = s.get_trigger(id)->Ok_0;
        let f = TriggerModel { status: TriggerStatus::Fired, fired_at: Some(now), ..m };
        let c = TriggerModel { status: TriggerStatus::Cancelled, ..m };
        table::lemma_put_then_row::<Trigger>(s.triggers, f);
        table::lemma_put_keeps_others::<Trigger>(s.triggers, f, other);
        table::lemma_put_then_row::<Trigger>(s.triggers, c);
        table::lemma_put_keeps_others::<Trigger>(s.triggers, c, other);
    }
}

/// The triggers that are due come in the order of the listing: none before one that was armed later.
pub proof fn law_due_come_latest_first(s: StoreModel, now: Float)
    ensures
        forall|i: int, j: int|
            0 <= i < j < s.due_triggers(now).len() ==> !text::before(
                (#[trigger] s.due_triggers(now)[i]).created_at,
                (#[trigger] s.due_triggers(now)[j]).created_at,
            ),
{
    let listed = table::newest_first::<Trigger>(s.triggers);
    table::law_listing_is_complete::<Trigger>(s.triggers);
    lemma_due_in_order(s, listed, now);
}

proof fn lemma_due_in_order(s: StoreModel, listed: Seq<TriggerModel>, now: Float)
    requires
        table::is_newest_first::<Trigger>(listed),
    ensures
        table::is_newest_first::<Trigger>(s.due_among(listed, now)),
    decreases listed.len(),
{
    if listed.len() > 0 {
        let rest = listed.drop_last();
        assert(table::is_newest_first::<Trigger>(rest)) by {
            assert forall|i: int, j: int| 0 <= i < j < rest.len() implies !text::before(
                Trigger::stamp_of(#[trigger] rest[i]),
                Trigger::stamp_of(#[trigger] rest[j]),
            ) by {
                assert(rest[i] == listed[i] && rest[j] == listed[j]);
            }
        }
        lemma_due_in_order(s, rest, now);
        let inner = s.due_among(rest, now);
        let due = s.due_among(listed, now);
        assert forall|i: int, j: int| 0 <= i < j < due.len() implies !text::before(
            Trigger::stamp_of(#[trigger] due[i]),
            Trigger::stamp_of(#[trigger] due[j]),
        ) by {
            if j < inner.len() {
                assert(due[i] == inner[i] && due[j] == inner[j]);
            } else {
                assert(due[i] == inner[i]);
                lemma_due_among(s, rest, now, inner[i]);
                assert(inner.contains(inner[i]));
                let k = choose|k: int| 0 <= k < rest.len() && rest[k] == inner[i];
                assert(rest[k] == listed[k]);
                assert(listed[listed.len() - 1] == due[j]);
            }
        }
    }
}

} // verus!

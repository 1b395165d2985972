//! The tools that an agent on this device can call. Whoever can start the tool server already acts on
//! this device, so no token is asked for. Each tool still needs a capability, and each call goes on
//! record beside the calls of the other interface.
use crate::api::handler::{Moment, MomentModel};
use crate::api::request;
use crate::api::request::status_filter;
use crate::encoding;
use crate::encoding::{convert, Conversion, ConversionModel};
use crate::error::CtclError;
use crate::instant;
use crate::instant::{now_view_at, InstantView, InstantViewModel};
use crate::number::{Float, Number};
use crate::numeral;
use crate::store::error;
use crate::store::error::{StoreError, StoreErrorModel};
use crate::store::groups;
use crate::store::groups::{seconds_of, ExpansionModel, GroupExpansion};
use crate::store::instants::{InstantRecord, InstantRecordModel};
use crate::store::settings::Settings;
use crate::store::settings;
use crate::store::systems::{SystemRecord, SystemRecordModel};
use crate::store::table;
use crate::store::triggers;
use crate::store::triggers::{
    action_kind_from_str, kind_from_str, ActionKind, ActionModel, Operator, Trigger, TriggerAction,
    TriggerKind, TriggerModel,
};
use crate::store::wake_events::{WakeEvent, WakeEventModel};
use crate::store::{Store, StoreModel};
use crate::system;
use crate::system::{ExtraModel, LocalTimeExtra, Rate, RateModel};
use crate::text;
use vstd::prelude::*;

verus! {

/// A trigger as a call describes it.
#[derive(Debug, Clone)]
pub struct TriggerInput {
    pub id: String,
    /// `common_instant` or `custom_time`.
    pub kind: String,
    /// Needed where the kind is `custom_time`.
    pub system_id: Option<String>,
    /// `>=` or `<=`.
    pub operator: String,
    pub target_value: Number,
    /// `notification`, `callback` or `agent_wake`.
    pub action_kind: String,
    /// The message, the URI or the agent.
    pub action_target: String,
}

pub struct TriggerInputModel {
    pub id: Seq<char>,
    pub kind: Seq<char>,
    pub system_id: Option<Seq<char>>,
    pub operator: Seq<char>,
    pub target_value: Float,
    pub action_kind: Seq<char>,
    pub action_target: Seq<char>,
}

impl View for TriggerInput {
    type V = TriggerInputModel;

    open spec fn view(&self) -> TriggerInputModel {
        TriggerInputModel {
            id: self.id@,
            kind: self.kind@,
            system_id: text::opt(self.system_id),
            operator: self.operator@,
            target_value: self.target_value@,
            action_kind: self.action_kind@,
            action_target: self.action_target@,
        }
    }
}

/// A call of a tool, with its arguments.
#[derive(Debug, Clone)]
pub enum ToolCall {
    Now,
    Convert { value: String, from: String, to: String, tz: Option<String> },
    /// Without `unix_ns`, the present instant is registered.
    RegisterInstant { unix_ns: Option<String>, label: Option<String> },
    GetInstant { id: String },
    ListSystems,
    SystemNow { id: String },
    CreateSystem { id: String, epoch_parent_sec: Number, rate: Number, offset: Number },
    ExpandGroup { id: String },
    CreateTrigger(TriggerInput),
    ListTriggers,
    CancelTrigger { id: String },
    ListWakeEvents { agent_id: Option<String>, status: Option<String> },
    AckWakeEvent { event_id: String },
    CompleteWakeEvent { event_id: String },
    /// Without `id`, the trigger gets one of its own.
    SchedulePulse { agent_id: String, after_seconds: Number, id: Option<String> },
}

pub enum ToolCallModel {
    Now,
    Convert { value: Seq<char>, from: Seq<char>, to: Seq<char>, tz: Option<Seq<char>> },
    RegisterInstant { unix_ns: Option<Seq<char>>, label: Option<Seq<char>> },
    GetInstant { id: Seq<char> },
    ListSystems,
    SystemNow { id: Seq<char> },
    CreateSystem { id: Seq<char>, epoch_parent_sec: Float, rate: Float, offset: Float },
    ExpandGroup { id: Seq<char> },
    CreateTrigger(TriggerInputModel),
    ListTriggers,
    CancelTrigger { id: Seq<char> },
    ListWakeEvents { agent_id: Option<Seq<char>>, status: Option<Seq<char>> },
    AckWakeEvent { event_id: Seq<char> },
    CompleteWakeEvent { event_id: Seq<char> },
    SchedulePulse { agent_id: Seq<char>, after_seconds: Float, id: Option<Seq<char>> },
}

impl View for ToolCall {
    type V = ToolCallModel;

    open spec fn view(&self) -> ToolCallModel {
        match *self {
            ToolCall::Now => ToolCallModel::Now,
            ToolCall::Convert { value, from, to, tz } => ToolCallModel::Convert {
                value: value@,
                from: from@,
                to: to@,
                tz: text::opt(tz),
            },
            ToolCall::RegisterInstant { unix_ns, label } => ToolCallModel::RegisterInstant {
                unix_ns: text::opt(unix_ns),
                label: text::opt(label),
            },
            ToolCall::GetInstant { id } => ToolCallModel::GetInstant { id: id@ },
            ToolCall::ListSystems => ToolCallModel::ListSystems,
            ToolCall::SystemNow { id } => ToolCallModel::SystemNow { id: id@ },
            ToolCall::CreateSystem { id, epoch_parent_sec, rate, offset } =>
                ToolCallModel::CreateSystem {
                id: id@,
                epoch_parent_sec: epoch_parent_sec@,
                rate: rate@,
                offset: offset@,
            },
            ToolCall::ExpandGroup { id } => ToolCallModel::ExpandGroup { id: id@ },
            ToolCall::CreateTrigger(input) => ToolCallModel::CreateTrigger(input@),
            ToolCall::ListTriggers => ToolCallModel::ListTriggers,
            ToolCall::CancelTrigger { id } => ToolCallModel::CancelTrigger { id: id@ },
            ToolCall::ListWakeEvents { agent_id, status } => ToolCallModel::ListWakeEvents {
                agent_id: text::opt(agent_id),
                status: text::opt(status),
            },
            ToolCall::AckWakeEvent { event_id } => ToolCallModel::AckWakeEvent {
                event_id: event_id@,
            },
            ToolCall::CompleteWakeEvent { event_id } => ToolCallModel::CompleteWakeEvent {
                event_id: event_id@,
            },
            ToolCall::SchedulePulse { agent_id, after_seconds, id } => ToolCallModel::SchedulePulse {
                agent_id: agent_id@,
                after_seconds: after_seconds@,
                id: text::opt(id),
            },
        }
    }
}

impl ToolCallModel {
    /// The name of the tool.
    pub open spec fn name(self) -> Seq<char> {
        match self {
            ToolCallModel::Now => "ctcl.now"@,
            ToolCallModel::Convert { .. } => "ctcl.convert"@,
            ToolCallModel::RegisterInstant { .. } => "ctcl.register_instant"@,
            ToolCallModel::GetInstant { .. } => "ctcl.get_instant"@,
            ToolCallModel::ListSystems => "ctcl.list_systems"@,
            ToolCallModel::SystemNow { .. } => "ctcl.system_now"@,
            ToolCallModel::CreateSystem { .. } => "ctcl.create_system"@,
            ToolCallModel::ExpandGroup { .. } => "ctcl.expand_group"@,
            ToolCallModel::CreateTrigger(_) => "ctcl.create_trigger"@,
            ToolCallModel::ListTriggers => "ctcl.list_triggers"@,
            ToolCallModel::CancelTrigger { .. } => "ctcl.cancel_trigger"@,
            ToolCallModel::ListWakeEvents { .. } => "ctcl.list_wake_events"@,
            ToolCallModel::AckWakeEvent { .. } => "ctcl.ack_wake_event"@,
            ToolCallModel::CompleteWakeEvent { .. } => "ctcl.complete_wake_event"@,
            ToolCallModel::SchedulePulse { .. } => "ctcl.schedule_pulse"@,
        }
    }

    /// The capability that the tool needs.
    pub open spec fn scope(self) -> Seq<char> {
        match self {
            ToolCallModel::Now => "instant.read"@,
            ToolCallModel::Convert { .. } => "convert.execute"@,
            ToolCallModel::RegisterInstant { .. } => "instant.create"@,
            ToolCallModel::GetInstant { .. } => "instant.read"@,
            ToolCallModel::ListSystems => "systems.read"@,
            ToolCallModel::SystemNow { .. } => "systems.read"@,
            ToolCallModel::CreateSystem { .. } => "systems.write"@,
            ToolCallModel::ExpandGroup { .. } => "groups.read"@,
            ToolCallModel::CreateTrigger(_) => "triggers.write"@,
            ToolCallModel::ListTriggers => "triggers.read"@,
            ToolCallModel::CancelTrigger { .. } => "triggers.cancel"@,
            ToolCallModel::ListWakeEvents { .. } => "wake_events.read"@,
            ToolCallModel::AckWakeEvent { .. } => "wake_events.ack"@,
            ToolCallModel::CompleteWakeEvent { .. } => "wake_events.complete"@,
            ToolCallModel::SchedulePulse { .. } => "triggers.write"@,
        }
    }

    /// Whether the tool changes what the registry holds.
    pub open spec fn writes(self) -> bool {
        match self {
            ToolCallModel::RegisterInstant { .. } => true,
            ToolCallModel::CreateSystem { .. } => true,
            ToolCallModel::CreateTrigger(_) => true,
            ToolCallModel::CancelTrigger { .. } => true,
            ToolCallModel::AckWakeEvent { .. } => true,
            ToolCallModel::CompleteWakeEvent { .. } => true,
            ToolCallModel::SchedulePulse { .. } => true,
            _ => false,
        }
    }
}

impl ToolCall {
    /// The name of the tool.
    pub fn name(&self) -> (r: &'static str)
        ensures
            r@ == self@.name(),
    {
        match self {
            ToolCall::Now => "ctcl.now",
            ToolCall::Convert { .. } => "ctcl.convert",
            ToolCall::RegisterInstant { .. } => "ctcl.register_instant",
            ToolCall::GetInstant { .. } => "ctcl.get_instant",
            ToolCall::ListSystems => "ctcl.list_systems",
            ToolCall::SystemNow { .. } => "ctcl.system_now",
            ToolCall::CreateSystem { .. } => "ctcl.create_system",
            ToolCall::ExpandGroup { .. } => "ctcl.expand_group",
            ToolCall::CreateTrigger(_) => "ctcl.create_trigger",
            ToolCall::ListTriggers => "ctcl.list_triggers",
            ToolCall::CancelTrigger { .. } => "ctcl.cancel_trigger",
            ToolCall::ListWakeEvents { .. } => "ctcl.list_wake_events",
            ToolCall::AckWakeEvent { .. } => "ctcl.ack_wake_event",
            ToolCall::CompleteWakeEvent { .. } => "ctcl.complete_wake_event",
            ToolCall::SchedulePulse { .. } => "ctcl.schedule_pulse",
        }
    }

    /// The capability that the tool needs.
    pub fn scope(&self) -> (r: &'static str)
        ensures
            r@ == self@.scope(),
    {
        match self {
            ToolCall::Now => "instant.read",
            ToolCall::Convert { .. } => "convert.execute",
            ToolCall::RegisterInstant { .. } => "instant.create",
            ToolCall::GetInstant { .. } => "instant.read",
            ToolCall::ListSystems => "systems.read",
            ToolCall::SystemNow { .. } => "systems.read",
            ToolCall::CreateSystem { .. } => "systems.write",
            ToolCall::ExpandGroup { .. } => "groups.read",
            ToolCall::CreateTrigger(_) => "triggers.write",
            ToolCall::ListTriggers => "triggers.read",
            ToolCall::CancelTrigger { .. } => "triggers.cancel",
            ToolCall::ListWakeEvents { .. } => "wake_events.read",
            ToolCall::AckWakeEvent { .. } => "wake_events.ack",
            ToolCall::CompleteWakeEvent { .. } => "wake_events.complete",
            ToolCall::SchedulePulse { .. } => "triggers.write",
        }
    }
}

/// What a tool yields.
#[derive(Debug, Clone)]
pub enum ToolOutput {
    Now(InstantView),
    Converted(Conversion),
    Instant(InstantRecord),
    Systems(Vec<String>),
    LocalTime { current_local_seconds: Number, extra: LocalTimeExtra },
    System(SystemRecord),
    Expansion(GroupExpansion),
    Trigger(Trigger),
    Triggers(Vec<Trigger>),
    WakeEvents(Vec<WakeEvent>),
    WakeEvent(WakeEvent),
}

pub enum OutputModel {
    Now(InstantViewModel),
    Converted(ConversionModel),
    Instant(InstantRecordModel),
    Systems(Seq<Seq<char>>),
    LocalTime { current_local_seconds: Float, extra: ExtraModel },
    System(SystemRecordModel),
    Expansion(ExpansionModel),
    Trigger(TriggerModel),
    Triggers(Seq<TriggerModel>),
    WakeEvents(Seq<WakeEventModel>),
    WakeEvent(WakeEventModel),
}

impl View for ToolOutput {
    type V = OutputModel;

    open spec fn view(&self) -> OutputModel {
        match *self {
            ToolOutput::Now(v) => OutputModel::Now(v@),
            ToolOutput::Converted(v) => OutputModel::Converted(v@),
            ToolOutput::Instant(v) => OutputModel::Instant(v@),
            ToolOutput::Systems(v) => OutputModel::Systems(text::all(v@)),
            ToolOutput::LocalTime { current_local_seconds, extra } => OutputModel::LocalTime {
                current_local_seconds: current_local_seconds@,
                extra: extra@,
            },
            ToolOutput::System(v) => OutputModel::System(v@),
            ToolOutput::Expansion(v) => OutputModel::Expansion(v@),
            ToolOutput::Trigger(v) => OutputModel::Trigger(v@),
            ToolOutput::Triggers(v) => OutputModel::Triggers(table::models(v@)),
            ToolOutput::WakeEvents(v) => OutputModel::WakeEvents(table::models(v@)),
            ToolOutput::WakeEvent(v) => OutputModel::WakeEvent(v@),
        }
    }
}

/// What came of a call: the output, or the line that says what went wrong.
pub open spec fn said(r: Result<ToolOutput, String>) -> Result<OutputModel, Seq<char>> {
    match r {
        Ok(v) => Ok(v@),
        Err(e) => Err(e@),
    }
}

/// A code and a message as one line.
pub open spec fn coded(code: Seq<char>, message: Seq<char>) -> Seq<char> {
    code + ": "@ + message
}

/// The line that an error of the registry is told by.
pub fn fmt_store_err(e: StoreError) -> (r: String)
    ensures
        r@ == coded(e@.code(), e@.message()),
{
    let message = e.message();
    text::join3(e.code(), ": ", message.as_str())
}

/// The line that an error of a conversion is told by.
pub fn fmt_core_err(e: CtclError) -> (r: String)
    ensures
        r@ == coded(e@.code(), e@.message()),
{
    let message = e.message();
    text::join3(e.code(), ": ", message.as_str())
}

/// What came of a lookup of a trigger.
pub open spec fn trigger_output(r: Result<TriggerModel, StoreErrorModel>) -> Result<
    OutputModel,
    Seq<char>,
> {
    match r {
        Ok(m) => Ok(OutputModel::Trigger(m)),
        Err(e) => Err(coded(e.code(), e.message())),
    }
}

/// What came of a lookup of a wake event.
pub open spec fn event_output(r: Result<WakeEventModel, StoreErrorModel>) -> Result<
    OutputModel,
    Seq<char>,
> {
    match r {
        Ok(m) => Ok(OutputModel::WakeEvent(m)),
        Err(e) => Err(coded(e.code(), e.message())),
    }
}

/// What came of a lookup of a registered instant.
pub open spec fn instant_output(r: Result<InstantRecordModel, StoreErrorModel>) -> Result<
    OutputModel,
    Seq<char>,
> {
    match r {
        Ok(m) => Ok(OutputModel::Instant(m)),
        Err(e) => Err(coded(e.code(), e.message())),
    }
}

/// The instant to register, and whether it was read off the clock: the one that is named, or the present
/// one.
pub open spec fn instant_to_register(unix_ns: Option<Seq<char>>, now_ns: int) -> Result<
    (int, bool),
    Seq<char>,
> {
    match unix_ns {
        Some(s) => match numeral::i128_value(s) {
            Some(n) => Ok((n, false)),
            None => Err(coded("INVALID_TIME_VALUE"@, numeral::failure(s))),
        },
        None => Ok((now_ns, true)),
    }
}

/// The time in seconds at which a pulse is due.
pub open spec fn pulse_target(after_seconds: Float, now_ns: int) -> Float {
    groups::seconds_number(now_ns).plus(after_seconds)
}

impl StoreModel {
    /// Whether a tool may be used, which goes on record either way.
    pub open spec fn require_scope(
        self,
        tool_name: Seq<char>,
        scope: Seq<char>,
        token: Seq<char>,
        audited_at: Seq<char>,
    ) -> (StoreModel, Result<(), Seq<char>>) {
        let (s, read) = self.get_settings(token);
        match read {
            Err(e) => (s, Err(coded(e.code(), e.message()))),
            Ok(settings) => {
                let granted = settings.grants(scope);
                let reason = if granted {
                    None
                } else {
                    Some("scope not granted"@)
                };
                (
                    if settings.audit_log_enabled {
                        s.log_audit("MCP"@, tool_name, Some(scope), granted, reason, audited_at).0
                    } else {
                        s
                    },
                    if granted {
                        Ok(())
                    } else {
                        Err("SCOPE_NOT_GRANTED: this MCP caller lacks the '"@ + scope + "' scope"@)
                    },
                )
            },
        }
    }

    /// Sets the trigger that a call describes.
    pub open spec fn create_described_trigger(self, input: TriggerInputModel, now: Seq<char>) -> (
        StoreModel,
        Result<TriggerModel, StoreErrorModel>,
    ) {
        match triggers::operator_of(input.operator) {
            None => (self, Err(triggers::bad_operator(input.operator))),
            Some(operator) => self.create_trigger(
                input.id,
                triggers::kind_of(input.kind),
                input.system_id,
                operator,
                input.target_value,
                ActionModel {
                    kind: triggers::action_kind_of(input.action_kind),
                    target: input.action_target,
                },
                now,
            ),
        }
    }

    /// Sets a trigger that wakes an agent a number of seconds from now.
    pub open spec fn schedule_pulse(
        self,
        agent_id: Seq<char>,
        after_seconds: Float,
        id: Option<Seq<char>>,
        m: MomentModel,
    ) -> (StoreModel, Result<OutputModel, Seq<char>>) {
        if after_seconds.at_most(system::zero()) {
            (self, Err("INVALID_TIME_VALUE: after_seconds must be positive"@))
        } else {
            let (s, r) = self.create_trigger(
                match id {
                    Some(id) => id,
                    None => "trigger:pulse:"@ + m.uuid,
                },
                TriggerKind::CommonInstant,
                None,
                Operator::Ge,
                pulse_target(after_seconds, m.now_ns),
                ActionModel { kind: ActionKind::AgentWake, target: agent_id },
                m.now,
            );
            (s, trigger_output(r))
        }
    }

    /// What a tool that only reads yields.
    pub open spec fn read_tool(self, call: ToolCallModel, m: MomentModel) -> Result<
        OutputModel,
        Seq<char>,
    > {
        match call {
            ToolCallModel::Convert { value, from, to, tz } => match encoding::conversion(
                value,
                from,
                to,
                tz,
            ) {
                Ok(c) => Ok(OutputModel::Converted(c)),
                Err(e) => Err(coded(e.code(), e.message())),
            },
            ToolCallModel::GetInstant { id } => instant_output(self.get_instant(id)),
            ToolCallModel::ListSystems => Ok(
                OutputModel::Systems(text::sorted(table::keys::<SystemRecord>(self.systems))),
            ),
            ToolCallModel::SystemNow { id } => match self.system_now(
                id,
                groups::seconds_number(m.now_ns),
            ) {
                Ok((local, extra)) => Ok(
                    OutputModel::LocalTime { current_local_seconds: local, extra },
                ),
                Err(e) => Err(coded(e.code(), e.message())),
            },
            ToolCallModel::ExpandGroup { id } => match self.expand_group(id, m.now_ns) {
                Ok(x) => Ok(OutputModel::Expansion(x)),
                Err(e) => Err(coded(e.code(), e.message())),
            },
            ToolCallModel::ListTriggers => Ok(
                OutputModel::Triggers(table::newest_first::<Trigger>(self.triggers)),
            ),
            ToolCallModel::ListWakeEvents { agent_id, status } => Ok(
                OutputModel::WakeEvents(
                    self.list_wake_events(
                        agent_id,
                        match status {
                            Some(s) => request::status_in(s),
                            None => None,
                        },
                    ),
                ),
            ),
            _ => match instant::view_of(instant::to_milliseconds(m.now_ns)) {
                Ok(v) => Ok(OutputModel::Now(v)),
                Err(e) => Err(coded(e.code(), e.message())),
            },
        }
    }

    /// What a tool does, once it may be used.
    pub open spec fn run_tool(self, call: ToolCallModel, m: MomentModel) -> (
        StoreModel,
        Result<OutputModel, Seq<char>>,
    ) {
        match call {
            ToolCallModel::RegisterInstant { unix_ns, label } => match instant_to_register(
                unix_ns,
                m.now_ns,
            ) {
                Ok((ns, from_wall_clock)) => {
                    let (s, r) = self.register_instant(ns, label, from_wall_clock, m.uuid, m.now);
                    (s, instant_output(r))
                },
                Err(e) => (self, Err(e)),
            },
            ToolCallModel::CreateSystem { id, epoch_parent_sec, rate, offset } => {
                let (s, r) = self.create_system(
                    id,
                    None,
                    epoch_parent_sec,
                    RateModel::Constant { value: rate },
                    offset,
                    m.now,
                );
                (
                    s,
                    match r {
                        Ok(x) => Ok(OutputModel::System(x)),
                        Err(e) => Err(coded(e.code(), e.message())),
                    },
                )
            },
            ToolCallModel::CreateTrigger(input) => {
                let (s, r) = self.create_described_trigger(input, m.now);
                (s, trigger_output(r))
            },
            ToolCallModel::CancelTrigger { id } => {
                let (s, r) = self.cancel_trigger(id);
                (s, trigger_output(r))
            },
            ToolCallModel::AckWakeEvent { event_id } => {
                let (s, r) = self.ack_wake_event(event_id, m.now);
                (s, event_output(r))
            },
            ToolCallModel::CompleteWakeEvent { event_id } => {
                let (s, r) = self.complete_wake_event(event_id, m.now);
                (s, event_output(r))
            },
            ToolCallModel::SchedulePulse { agent_id, after_seconds, id } => self.schedule_pulse(
                agent_id,
                after_seconds,
                id,
                m,
            ),
            _ => (self, self.read_tool(call, m)),
        }
    }

    /// How a call of a tool is dealt with.
    pub open spec fn call_tool(self, call: ToolCallModel, m: MomentModel) -> (
        StoreModel,
        Result<OutputModel, Seq<char>>,
    ) {
        let (s, gate) = self.require_scope(call.name(), call.scope(), m.token, m.audited_at);
        match gate {
            Ok(_) => s.run_tool(call, m),
            Err(e) => (s, Err(e)),
        }
    }
}

/// What came of a lookup of a trigger.
fn output_trigger(r: Result<Trigger, StoreError>) -> (x: Result<ToolOutput, String>)
    ensures
        said(x) == trigger_output(error::outcome(r)),
{
    match r {
        Ok(t) => Ok(ToolOutput::Trigger(t)),
        Err(e) => Err(fmt_store_err(e)),
    }
}

/// What came of a lookup of a wake event.
fn output_event(r: Result<WakeEvent, StoreError>) -> (x: Result<ToolOutput, String>)
    ensures
        said(x) == event_output(error::outcome(r)),
{
    match r {
        Ok(t) => Ok(ToolOutput::WakeEvent(t)),
        Err(e) => Err(fmt_store_err(e)),
    }
}

/// What came of a lookup of a registered instant.
fn output_instant(r: Result<InstantRecord, StoreError>) -> (x: Result<ToolOutput, String>)
    ensures
        said(x) == instant_output(error::outcome(r)),
{
    match r {
        Ok(t) => Ok(ToolOutput::Instant(t)),
        Err(e) => Err(fmt_store_err(e)),
    }
}

/// The instant to register, and whether it was read off the clock.
pub fn choose_instant(unix_ns: Option<&str>, now_ns: i128) -> (r: Result<(i128, bool), String>)
    ensures
        (match r {
            Ok((ns, from_wall_clock)) => instant_to_register(text::opt_str(unix_ns), now_ns as int)
                == Ok::<(int, bool), Seq<char>>((ns as int, from_wall_clock)),
            Err(e) => instant_to_register(text::opt_str(unix_ns), now_ns as int) == Err::<
                (int, bool),
                Seq<char>,
            >(e@),
        }),
{
    match unix_ns {
        Some(s) => match numeral::parse_i128(s) {
            Some(n) => Ok((n, false)),
            None => Err(text::join3("INVALID_TIME_VALUE", ": ", numeral::explain_failure(s))),
        },
        None => Ok((now_ns, true)),
    }
}

impl Store {
    /// Whether a tool may be used, which goes on record either way, where calls do.
    pub fn require_scope_at(
        &mut self,
        tool_name: &str,
        scope: &str,
        token: &str,
        audited_at: &str,
    ) -> (r: Result<(), String>)
        ensures
            (final(self)@, (match r {
                Ok(_) => Ok::<(), Seq<char>>(()),
                Err(e) => Err(e@),
            })) == old(self)@.require_scope(tool_name@, scope@, token@, audited_at@),
    {
        let settings: Settings = match self.get_settings_with(token) {
            Ok(s) => s,
            Err(e) => {
                return Err(fmt_store_err(e));
            },
        };
        if !settings.is_granted(scope) {
            if settings.audit_log_enabled {
                let _ = self.log_audit_at(
                    "MCP",
                    tool_name,
                    Some(scope),
                    false,
                    Some("scope not granted"),
                    audited_at,
                );
            }
            return Err(
                text::join3("SCOPE_NOT_GRANTED: this MCP caller lacks the '", scope, "' scope"),
            );
        }
        if settings.audit_log_enabled {
            let _ = self.log_audit_at("MCP", tool_name, Some(scope), true, None, audited_at);
        }
        Ok(())
    }

    /// Sets the trigger that a call describes, at a given time.
    pub fn create_described_trigger_at(&mut self, input: &TriggerInput, now: &str) -> (r: Result<
        Trigger,
        StoreError,
    >)
        ensures
            (final(self)@, error::outcome(r)) == old(self)@.create_described_trigger(input@, now@),
    {
        let operator: Operator = match Operator::parse(input.operator.as_str()) {
            Ok(o) => o,
            Err(e) => {
                return Err(e);
            },
        };
        let action = TriggerAction {
            kind: action_kind_from_str(input.action_kind.as_str()),
            target: input.action_target.clone(),
        };
        self.create_trigger_at(
            input.id.as_str(),
            kind_from_str(input.kind.as_str()),
            text::borrow_opt(&input.system_id),
            operator,
            input.target_value,
            action,
            now,
        )
    }

    /// Sets a trigger that wakes an agent a number of seconds from now.
    pub fn schedule_pulse_at(
        &mut self,
        agent_id: &str,
        after_seconds: Number,
        id: Option<&str>,
        m: &Moment,
    ) -> (r: Result<ToolOutput, String>)
        ensures
            (final(self)@, said(r)) == old(self)@.schedule_pulse(
                agent_id@,
                after_seconds@,
                text::opt_str(id),
                m@,
            ),
    {
        if after_seconds.at_most(&Number::zero(false)) {
            return Err("INVALID_TIME_VALUE: after_seconds must be positive".to_owned());
        }
        let id: String = match id {
            Some(id) => id.to_owned(),
            None => text::join("trigger:pulse:", m.uuid.as_str()),
        };
        let target: Number = seconds_of(m.now_ns).plus(&after_seconds);
        let action = TriggerAction { kind: ActionKind::AgentWake, target: agent_id.to_owned() };
        output_trigger(
            self.create_trigger_at(
                id.as_str(),
                TriggerKind::CommonInstant,
                None,
                Operator::Ge,
                target,
                action,
                m.now.as_str(),
            ),
        )
    }

    /// What a tool that only reads yields.
    fn read_tool(&self, call: &ToolCall, m: &Moment) -> (r: Result<ToolOutput, String>)
        requires
            m@.is_possible(),
        ensures
            said(r) == self@.read_tool(call@, m@),
    {
        match call {
            ToolCall::Convert { value, from, to, tz } => match convert(
                value.as_str(),
                from.as_str(),
                to.as_str(),
                text::borrow_opt(tz),
            ) {
                Ok(c) => Ok(ToolOutput::Converted(c)),
                Err(e) => Err(fmt_core_err(e)),
            },
            ToolCall::GetInstant { id } => output_instant(self.get_instant(id.as_str())),
            ToolCall::ListSystems => Ok(ToolOutput::Systems(self.list_systems())),
            ToolCall::SystemNow { id } => match self.system_now(id.as_str(), seconds_of(m.now_ns)) {
                Ok((current_local_seconds, extra)) => Ok(
                    ToolOutput::LocalTime { current_local_seconds, extra },
                ),
                Err(e) => Err(fmt_store_err(e)),
            },
            ToolCall::ExpandGroup { id } => match self.expand_group(id.as_str(), m.now_ns) {
                Ok(x) => Ok(ToolOutput::Expansion(x)),
                Err(e) => Err(fmt_store_err(e)),
            },
            ToolCall::ListTriggers => Ok(ToolOutput::Triggers(self.list_triggers())),
            ToolCall::ListWakeEvents { agent_id, status } => {
                let status = match status {
                    Some(s) => status_filter(s.as_str()),
                    None => None,
                };
                Ok(
                    ToolOutput::WakeEvents(
                        self.list_wake_events(text::borrow_opt(agent_id), status),
                    ),
                )
            },
            _ => match now_view_at(m.now_ns) {
                Ok(v) => Ok(ToolOutput::Now(v)),
                Err(e) => Err(fmt_core_err(e)),
            },
        }
    }

    /// What a tool does, once it may be used.
    pub fn run_tool(&mut self, call: &ToolCall, m: &Moment) -> (r: Result<ToolOutput, String>)
        requires
            m@.is_possible(),
        ensures
            (final(self)@, said(r)) == old(self)@.run_tool(call@, m@),
    {
        let now: &str = m.now.as_str();
        match call {
            ToolCall::RegisterInstant { unix_ns, label } => {
                match choose_instant(text::borrow_opt(unix_ns), m.now_ns) {
                    Ok((ns, from_wall_clock)) => output_instant(
                        self.register_instant_at(
                            ns,
                            text::borrow_opt(label),
                            from_wall_clock,
                            m.uuid.as_str(),
                            now,
                        ),
                    ),
                    Err(e) => Err(e),
                }
            },
            ToolCall::CreateSystem { id, epoch_parent_sec, rate, offset } => {
                match self.create_system_at(
                    id.as_str(),
                    None,
                    *epoch_parent_sec,
                    Rate::Constant { value: *rate },
                    *offset,
                    now,
                ) {
                    Ok(x) => Ok(ToolOutput::System(x)),
                    Err(e) => Err(fmt_store_err(e)),
                }
            },
            ToolCall::CreateTrigger(input) => output_trigger(
                self.create_described_trigger_at(input, now),
            ),
            ToolCall::CancelTrigger { id } => output_trigger(self.cancel_trigger(id.as_str())),
            ToolCall::AckWakeEvent { event_id } => output_event(
                self.ack_wake_event_at(event_id.as_str(), now),
            ),
            ToolCall::CompleteWakeEvent { event_id } => output_event(
                self.complete_wake_event_at(event_id.as_str(), now),
            ),
            ToolCall::SchedulePulse { agent_id, after_seconds, id } => self.schedule_pulse_at(
                agent_id.as_str(),
                *after_seconds,
                text::borrow_opt(id),
                m,
            ),
            _ => self.read_tool(call, m),
        }
    }

    /// How a call of a tool is dealt with at a given moment.
    pub fn call_tool_at(&mut self, call: &ToolCall, m: &Moment) -> (r: Result<ToolOutput, String>)
        requires
            m@.is_possible(),
        ensures
            (final(self)@, said(r)) == old(self)@.call_tool(call@, m@),
    {
        match self.require_scope_at(
            call.name(),
            call.scope(),
            m.token.as_str(),
            m.audited_at.as_str(),
        ) {
            Ok(_) => self.run_tool(call, m),
            Err(e) => Err(e),
        }
    }

    /// How a call of a tool is dealt with.
    pub fn call_tool(&mut self, call: &ToolCall) -> (r: Result<ToolOutput, String>)
        ensures
            exists|m: MomentModel|
                m.is_possible() && (final(self)@, said(r)) == #[trigger] old(self)@.call_tool(
                    call@,
                    m,
                ),
    {
        let m = Moment::present();
        self.call_tool_at(call, &m)
    }
}

/// A tool whose capability is not granted is refused, whatever its arguments, and changes nothing but
/// the record of calls.
pub proof fn law_tool_needs_its_scope(s: StoreModel, call: ToolCallModel, m: MomentModel)
    requires
        s.get_settings(m.token).1 matches Ok(settings) && !settings.grants(call.scope()),
    ensures
        ({
            let (t, r) = s.call_tool(call, m);
            &&& r == Err::<OutputModel, Seq<char>>(
                "SCOPE_NOT_GRANTED: this MCP caller lacks the '"@ + call.scope() + "' scope"@,
            )
            &&& t == (StoreModel { audit_log: t.audit_log, settings: t.settings, ..s })
        }),
{
}

/// Where calls are put on record, a call of a tool is, allowed or refused, under the tool's name and
/// with the capability that it needs.
pub proof fn law_tool_call_is_recorded(s: StoreModel, call: ToolCallModel, m: MomentModel)
    requires
        s.get_settings(m.token).1 matches Ok(settings) && settings.audit_log_enabled,
        s.last_audit_id() < i64::MAX,
    ensures
        ({
            let t = s.require_scope(call.name(), call.scope(), m.token, m.audited_at).0;
            &&& t.audit_log.drop_last() == s.audit_log
            &&& t.audit_log.last().method == "MCP"@
            &&& t.audit_log.last().path == call.name()
            &&& t.audit_log.last().scope == Some(call.scope())
            &&& t.audit_log.last().allowed == s.get_settings(m.token).1->Ok_0.grants(call.scope())
            &&& s.call_tool(call, m).0.audit_log == t.audit_log
        }),
{
    let t = s.require_scope(call.name(), call.scope(), m.token, m.audited_at).0;
    assert(t.audit_log.drop_last() =~= s.audit_log);
}

/// A tool that is there to read changes nothing but the record of calls.
pub proof fn law_reading_tool_changes_nothing(s: StoreModel, call: ToolCallModel, m: MomentModel)
    requires
        !call.writes(),
    ensures
        ({
            let t = s.call_tool(call, m).0;
            &&& s.run_tool(call, m).0 == s
            &&& t == (StoreModel { audit_log: t.audit_log, settings: t.settings, ..s })
        }),
{
}

/// Each tool needs the capability for what it does.
pub proof fn law_tools_need_their_scopes(call: ToolCallModel)
    ensures
        call is Now || call is GetInstant ==> call.scope() == "instant.read"@,
        call is RegisterInstant ==> call.scope() == "instant.create"@,
        call is Convert ==> call.scope() == "convert.execute"@,
        call is ListSystems || call is SystemNow ==> call.scope() == "systems.read"@,
        call is CreateSystem ==> call.scope() == "systems.write"@,
        call is ExpandGroup ==> call.scope() == "groups.read"@,
        call is ListTriggers ==> call.scope() == "triggers.read"@,
        call is CreateTrigger || call is SchedulePulse ==> call.scope() == "triggers.write"@,
        call is CancelTrigger ==> call.scope() == "triggers.cancel"@,
        call is ListWakeEvents ==> call.scope() == "wake_events.read"@,
        call is AckWakeEvent ==> call.scope() == "wake_events.ack"@,
        call is CompleteWakeEvent ==> call.scope() == "wake_events.complete"@,
{
}

/// A tool whose capability is granted does what it is there for, in the registry as it stands once the
/// call was put on record; a call is refused where the settings cannot be read or do not grant it.
pub proof fn law_granted_tool_is_run(s: StoreModel, call: ToolCallModel, m: MomentModel)
    ensures
        ({
            let (read, settings) = s.get_settings(m.token);
            let (t, gate) = s.require_scope(call.name(), call.scope(), m.token, m.audited_at);
            &&& gate is Ok <==> settings is Ok && settings->Ok_0.grants(call.scope())
            &&& gate is Ok ==> s.call_tool(call, m) == t.run_tool(call, m)
            &&& gate matches Err(e) ==> s.call_tool(call, m) == (t, Err::<OutputModel, Seq<char>>(e))
            &&& t == (StoreModel { audit_log: t.audit_log, ..read })
        }),
{
}

/// Whether a tool yields what an operation gave, or tells its error by code and message.
pub open spec fn yields<T>(
    r: Result<OutputModel, Seq<char>>,
    came: Result<T, StoreErrorModel>,
    output: spec_fn(T) -> OutputModel,
) -> bool {
    match came {
        Ok(x) => r == Ok::<OutputModel, Seq<char>>(output(x)),
        Err(e) => r == Err::<OutputModel, Seq<char>>(e.code() + ": "@ + e.message()),
    }
}

/// A tool does what it is there for, to what it names, at the time of the call.
pub proof fn law_tool_does_what_it_names(s: StoreModel, call: ToolCallModel, m: MomentModel)
    ensures
        ({
            let (t, r) = s.run_tool(call, m);
            match call {
                ToolCallModel::CancelTrigger { id } => t == s.cancel_trigger(id).0 && yields(
                    r,
                    s.cancel_trigger(id).1,
                    |x: TriggerModel| OutputModel::Trigger(x),
                ),
                ToolCallModel::AckWakeEvent { event_id } => t == s.ack_wake_event(event_id, m.now).0
                    && yields(
                    r,
                    s.ack_wake_event(event_id, m.now).1,
                    |x: WakeEventModel| OutputModel::WakeEvent(x),
                ),
                ToolCallModel::CompleteWakeEvent { event_id } => t == s.complete_wake_event(
                    event_id,
                    m.now,
                ).0 && yields(
                    r,
                    s.complete_wake_event(event_id, m.now).1,
                    |x: WakeEventModel| OutputModel::WakeEvent(x),
                ),
                ToolCallModel::CreateSystem { id, epoch_parent_sec, rate, offset } => {
                    let (u, came) = s.create_system(
                        id,
                        None,
                        epoch_parent_sec,
                        RateModel::Constant { value: rate },
                        offset,
                        m.now,
                    );
                    t == u && yields(r, came, |x: SystemRecordModel| OutputModel::System(x))
                },
                ToolCallModel::RegisterInstant { unix_ns: Some(n), label } => match numeral::i128_value(
                    n,
                ) {
                    Some(ns) => {
                        let (u, came) = s.register_instant(ns, label, false, m.uuid, m.now);
                        t == u && yields(r, came, |x: InstantRecordModel| OutputModel::Instant(x))
                    },
                    None => t == s && r is Err,
                },
                ToolCallModel::RegisterInstant { unix_ns: None, label } => {
                    let (u, came) = s.register_instant(m.now_ns, label, true, m.uuid, m.now);
                    t == u && yields(r, came, |x: InstantRecordModel| OutputModel::Instant(x))
                },
                _ => true,
            }
        }),
{
}

/// A tool that reads yields what is on record, at the present where a time matters.
pub proof fn law_tool_reads_what_it_names(s: StoreModel, call: ToolCallModel, m: MomentModel)
    ensures
        ({
            let (t, r) = s.run_tool(call, m);
            match call {
                ToolCallModel::Now => t == s && (match instant::view_of(
                    instant::to_milliseconds(m.now_ns),
                ) {
                    Ok(v) => r == Ok::<OutputModel, Seq<char>>(OutputModel::Now(v)),
                    Err(e) => r is Err,
                }),
                ToolCallModel::Convert { value, from, to, tz } => t == s && (
                match encoding::conversion(value, from, to, tz) {
                    Ok(c) => r == Ok::<OutputModel, Seq<char>>(OutputModel::Converted(c)),
                    Err(e) => r == Err::<OutputModel, Seq<char>>(e.code() + ": "@ + e.message()),
                }),
                ToolCallModel::GetInstant { id } => t == s && yields(
                    r,
                    s.get_instant(id),
                    |x: InstantRecordModel| OutputModel::Instant(x),
                ),
                ToolCallModel::ListSystems => t == s && r == Ok::<OutputModel, Seq<char>>(
                    OutputModel::Systems(
                        text::sorted(s.systems.map_values(|x: SystemRecordModel| x.id)),
                    ),
                ),
                ToolCallModel::SystemNow { id } => t == s && yields(
                    r,
                    s.system_now(id, groups::seconds_number(m.now_ns)),
                    |x: (Float, ExtraModel)|
                        OutputModel::LocalTime { current_local_seconds: x.0, extra: x.1 },
                ),
                ToolCallModel::ExpandGroup { id } => t == s && yields(
                    r,
                    s.expand_group(id, m.now_ns),
                    |x: ExpansionModel| OutputModel::Expansion(x),
                ),
                ToolCallModel::ListTriggers => t == s && r == Ok::<OutputModel, Seq<char>>(
                    OutputModel::Triggers(table::newest_first::<Trigger>(s.triggers)),
                ),
                ToolCallModel::ListWakeEvents { agent_id, status } => t == s && r == Ok::<
                    OutputModel,
                    Seq<char>,
                >(
                    OutputModel::WakeEvents(
                        s.list_wake_events(
                            agent_id,
                            match status {
                                Some(name) => request::status_in(name),
                                None => None,
                            },
                        ),
                    ),
                ),
                _ => true,
            }
        }),
{
    assert(table::keys::<SystemRecord>(s.systems) =~= s.systems.map_values(
        |x: SystemRecordModel| x.id,
    ));
}

/// A trigger that a tool sets is the one that its input describes; an operator that is none is refused.
pub proof fn law_tool_sets_the_trigger_it_describes(
    s: StoreModel,
    input: TriggerInputModel,
    m: MomentModel,
)
    ensures
        ({
            let (t, r) = s.run_tool(ToolCallModel::CreateTrigger(input), m);
            &&& r is Err ==> t == s
            &&& input.operator != ">="@ && input.operator != "<="@ ==> r is Err
            &&& r is Ok ==> (r matches Ok(OutputModel::Trigger(x)) && {
                &&& t.get_trigger(input.id) == Ok::<TriggerModel, StoreErrorModel>(x)
                &&& x.id == input.id && x.system_id == input.system_id
                &&& x.target_value == input.target_value && x.action.target == input.action_target
                &&& (x.operator == Operator::Ge <==> input.operator == ">="@)
                &&& (x.operator == Operator::Le <==> input.operator == "<="@)
                &&& (x.kind == TriggerKind::CustomTime <==> input.kind == "custom_time"@)
                &&& (x.action.kind == ActionKind::AgentWake <==> input.action_kind == "agent_wake"@)
                &&& (x.action.kind == ActionKind::Callback <==> input.action_kind == "callback"@)
                &&& x.created_at == m.now
            })
        }),
{
    reveal_strlit(">=");
    reveal_strlit("<=");
    assert(">="@[0] == '>' && "<="@[0] == '<');
    reveal_strlit("agent_wake");
    reveal_strlit("callback");
    assert("agent_wake"@[0] == 'a' && "callback"@[0] == 'c');
    let (t, r) = s.run_tool(ToolCallModel::CreateTrigger(input), m);
    if r is Ok {
        let x = r->Ok_0->Trigger_0;
        table::lemma_put_then_row::<Trigger>(s.triggers, x);
    }
}

/// A pulse wakes its agent once the common time has reached the present and the seconds that were asked
/// for, added to it; a wait that is none is refused, and then nothing changes.
pub proof fn law_pulse_wakes_after_its_wait(
    s: StoreModel,
    agent_id: Seq<char>,
    after_seconds: Float,
    id: Option<Seq<char>>,
    m: MomentModel,
)
    ensures
        ({
            let (t, r) = s.run_tool(
                ToolCallModel::SchedulePulse { agent_id, after_seconds, id },
                m,
            );
            &&& r is Err ==> t == s
            &&& (after_seconds is Finite && after_seconds.signed_ticks() <= 0) ==> r is Err
            &&& after_seconds == (Float::Infinite { negative: true }) ==> r is Err
            &&& r is Ok ==> (r matches Ok(OutputModel::Trigger(x)) && {
                &&& t.get_trigger(x.id) == Ok::<TriggerModel, StoreErrorModel>(x)
                &&& x.kind == TriggerKind::CommonInstant && x.operator == Operator::Ge
                &&& x.system_id is None
                &&& x.action.kind == ActionKind::AgentWake && x.action.target == agent_id
                &&& x.target_value == groups::seconds_number(m.now_ns).plus(after_seconds)
                &&& id matches Some(name) ==> x.id == name
                &&& id is None ==> x.id == "trigger:pulse:"@ + m.uuid
                &&& x.created_at == m.now
            })
        }),
{
    let (t, r) = s.run_tool(ToolCallModel::SchedulePulse { agent_id, after_seconds, id }, m);
    if r is Ok {
        let x = r->Ok_0->Trigger_0;
        table::lemma_put_then_row::<Trigger>(s.triggers, x);
    }
}

/// What goes on record of a call of a tool carries the time of the call, and a reason if and only if it
/// was refused.
pub proof fn law_tool_refusal_is_recorded(s: StoreModel, call: ToolCallModel, m: MomentModel)
    requires
        s.get_settings(m.token).1 matches Ok(settings) && settings.audit_log_enabled,
        s.last_audit_id() < i64::MAX,
    ensures
        ({
            let (t, gate) = s.require_scope(call.name(), call.scope(), m.token, m.audited_at);
            let x = t.audit_log[t.audit_log.len() - 1];
            &&& x.at == m.audited_at
            &&& gate is Ok ==> x.allowed && x.reason is None
            &&& gate is Err ==> !x.allowed && x.reason == Some("scope not granted"@)
        }),
        s.get_settings(m.token).1 matches Ok(settings) ==> (!settings.audit_log_enabled
            ==> s.require_scope(call.name(), call.scope(), m.token, m.audited_at).0.audit_log
            == s.audit_log),
{
}

/// Tools are known by their names.
pub proof fn law_tools_have_their_names(call: ToolCallModel)
    ensures
        call is Now ==> call.name() == "ctcl.now"@,
        call is Convert ==> call.name() == "ctcl.convert"@,
        call is RegisterInstant ==> call.name() == "ctcl.register_instant"@,
        call is GetInstant ==> call.name() == "ctcl.get_instant"@,
        call is ListSystems ==> call.name() == "ctcl.list_systems"@,
        call is SystemNow ==> call.name() == "ctcl.system_now"@,
        call is CreateSystem ==> call.name() == "ctcl.create_system"@,
        call is ExpandGroup ==> call.name() == "ctcl.expand_group"@,
        call is CreateTrigger ==> call.name() == "ctcl.create_trigger"@,
        call is ListTriggers ==> call.name() == "ctcl.list_triggers"@,
        call is CancelTrigger ==> call.name() == "ctcl.cancel_trigger"@,
        call is ListWakeEvents ==> call.name() == "ctcl.list_wake_events"@,
        call is AckWakeEvent ==> call.name() == "ctcl.ack_wake_event"@,
        call is CompleteWakeEvent ==> call.name() == "ctcl.complete_wake_event"@,
        call is SchedulePulse ==> call.name() == "ctcl.schedule_pulse"@,
{
}

/// Every capability that a tool needs is one that can be granted.
pub proof fn law_tools_need_scopes_that_there_are(call: ToolCallModel)
    ensures
        settings::scope_names().contains(call.scope()),
{
    settings::lemma_scope_names();
}

} // verus!

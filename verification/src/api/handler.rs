//! How a call is dealt with: whether the caller is let in, what is put on record, and what is answered.
use crate::api::reply;
use crate::api::reply::{Data, DataModel, Reply, ReplyModel};
use crate::api::request;
use crate::api::request::{query_param, status_filter, Body, FieldModel, Request, RequestModel};
use crate::api::routes;
use crate::api::routes::{required_scope, route, Route, RouteModel};
use crate::clock;
use crate::encoding;
use crate::encoding::convert;
use crate::instant;
use crate::instant::now_view_at;
use crate::number::{Float, Number};
use crate::store::endpoints;
use crate::store::endpoints::{AgentEndpoint, EndpointModel};
use crate::store::error::{StoreError, StoreErrorModel};
use crate::store::groups::{ExpansionModel, GroupModel, GroupRecord};
use crate::store::receipts::ReceiptModel;
use crate::store::settings::{Settings, SettingsModel};
use crate::store::systems;
use crate::store::systems::{SystemRecord, SystemRecordModel};
use crate::store::table;
use crate::store::triggers;
use crate::store::triggers::{
    action_kind_from_str, kind_from_str, ActionKind, ActionModel, Operator, Trigger, TriggerAction,
    TriggerKind, TriggerModel, TriggerStatus,
};
use crate::store::wake_events::{WakeEvent, WakeEventModel};
use crate::store::{Store, StoreModel};
use crate::system;
use crate::text;
use vstd::prelude::*;

verus! {

/// What is different at every call: the time, and fresh identifiers.
pub struct Moment {
    /// The token that the first settings get.
    pub token: String,
    /// When the call is put on record.
    pub audited_at: String,
    /// When the call is carried out.
    pub now: String,
    pub now_ns: i128,
    pub uuid: String,
}

pub struct MomentModel {
    pub token: Seq<char>,
    pub audited_at: Seq<char>,
    pub now: Seq<char>,
    pub now_ns: int,
    pub uuid: Seq<char>,
}

impl View for Moment {
    type V = MomentModel;

    open spec fn view(&self) -> MomentModel {
        MomentModel {
            token: self.token@,
            audited_at: self.audited_at@,
            now: self.now@,
            now_ns: self.now_ns as int,
            uuid: self.uuid@,
        }
    }
}

impl MomentModel {
    /// What the device's clock and its random numbers can come to.
    pub open spec fn is_possible(self) -> bool {
        &&& clock::is_token(self.token)
        &&& clock::is_utc_stamp(self.audited_at)
        &&& clock::is_utc_stamp(self.now)
        &&& clock::is_uuid(self.uuid)
        &&& -(clock::MAX_DURATION_NS as int) <= self.now_ns <= clock::MAX_DURATION_NS
    }
}

impl Moment {
    /// The present moment.
    pub fn present() -> (r: Moment)
        ensures
            r@.is_possible(),
    {
        Moment {
            token: clock::fresh_token(),
            audited_at: clock::now_text(),
            now: clock::now_text(),
            now_ns: clock::now_ns(),
            uuid: clock::fresh_uuid(),
        }
    }
}

/// The condition that a body names.
pub open spec fn trigger_kind_in(body: Seq<FieldModel>) -> TriggerKind {
    match request::field_text(body, "kind"@) {
        Some(name) => triggers::kind_of(name),
        None => TriggerKind::CommonInstant,
    }
}

/// The action that a body names.
pub open spec fn action_in(body: Seq<FieldModel>) -> ActionModel {
    ActionModel {
        kind: match request::field_text(body, "action_kind"@) {
            Some(name) => triggers::action_kind_of(name),
            None => ActionKind::Notification,
        },
        target: request::text_or(body, "action_target"@, Seq::empty()),
    }
}

/// The answer with a trigger, or the refusal.
pub open spec fn with_trigger(r: Result<TriggerModel, StoreErrorModel>) -> ReplyModel {
    match r {
        Ok(t) => ReplyModel::Done(DataModel::Trigger(t)),
        Err(e) => reply::refusal(e),
    }
}

/// The answer with a wake event, or the refusal.
pub open spec fn with_event(r: Result<WakeEventModel, StoreErrorModel>) -> ReplyModel {
    match r {
        Ok(m) => ReplyModel::Done(DataModel::WakeEvent(m)),
        Err(e) => reply::refusal(e),
    }
}

/// The answer with an endpoint, or the refusal.
pub open spec fn with_agent(r: Result<EndpointModel, StoreErrorModel>) -> ReplyModel {
    match r {
        Ok(m) => ReplyModel::Done(DataModel::Agent(m)),
        Err(e) => reply::refusal(e),
    }
}

/// The answer to a conversion.
pub open spec fn converted(body: Seq<FieldModel>) -> ReplyModel {
    match encoding::conversion(
        request::text_or(body, "value"@, Seq::empty()),
        request::text_or(body, "from"@, "rfc3339"@),
        request::text_or(body, "to"@, "rfc3339"@),
        request::field_text(body, "tz"@),
    ) {
        Err(e) => reply::bad_value(e),
        Ok(c) => ReplyModel::Done(DataModel::Converted(c)),
    }
}

impl StoreModel {
    /// The registry after a call was put on record, where calls are.
    pub open spec fn audited(
        self,
        settings: SettingsModel,
        req: RequestModel,
        scope: Option<Seq<char>>,
        allowed: bool,
        reason: Option<Seq<char>>,
        at: Seq<char>,
    ) -> StoreModel {
        if settings.audit_log_enabled {
            self.log_audit(req.method_name, req.url, scope, allowed, reason, at).0
        } else {
            self
        }
    }

    /// Whether a caller is let in: `None` if so, and else the refusal. Either way the call is put on
    /// record; but where the settings cannot be read nobody is let in, and nothing goes on record.
    pub open spec fn let_in(self, req: RequestModel, m: MomentModel) -> (
        StoreModel,
        Option<ReplyModel>,
    ) {
        let scope = routes::scope_of(req.method, req.path());
        let (s, read) = self.get_settings(m.token);
        match read {
            Err(_) => (
                s,
                Some(
                    ReplyModel::Refused {
                        status: 500,
                        code: "STORE_ERROR"@,
                        message: "failed to read settings"@,
                    },
                ),
            ),
            Ok(settings) => if !req.is_authorized(settings.local_api_token) {
                (
                    s.audited(
                        settings,
                        req,
                        scope,
                        false,
                        Some("missing or invalid bearer token"@),
                        m.audited_at,
                    ),
                    Some(
                        ReplyModel::Refused {
                            status: 401,
                            code: "UNAUTHORIZED"@,
                            message: "missing or invalid bearer token"@,
                        },
                    ),
                )
            } else if scope is Some && !settings.grants(scope->0) {
                (
                    s.audited(settings, req, scope, false, Some("scope not granted"@), m.audited_at),
                    Some(
                        ReplyModel::Refused {
                            status: 403,
                            code: "SCOPE_NOT_GRANTED"@,
                            message: "this caller lacks the '"@ + scope->0 + "' scope"@,
                        },
                    ),
                )
            } else {
                (s.audited(settings, req, scope, true, None, m.audited_at), None)
            },
        }
    }

    /// Sets the trigger that a body describes.
    pub open spec fn set_trigger(self, body: Seq<FieldModel>, now: Seq<char>) -> (
        StoreModel,
        ReplyModel,
    ) {
        let sign = request::text_or(body, "operator"@, ">="@);
        match triggers::operator_of(sign) {
            None => (self, reply::refusal(triggers::bad_operator(sign))),
            Some(operator) => {
                let (s, r) = self.create_trigger(
                    request::text_or(body, "id"@, Seq::empty()),
                    trigger_kind_in(body),
                    request::field_text(body, "system_id"@),
                    operator,
                    match request::field_number(body, "target_value"@) {
                        Some(n) => n,
                        None => system::zero(),
                    },
                    action_in(body),
                    now,
                );
                (s, with_trigger(r))
            },
        }
    }

    /// Files the receipt that a body describes.
    pub open spec fn file_decision(
        self,
        event_id: Seq<char>,
        body: Seq<FieldModel>,
        uuid: Seq<char>,
        now: Seq<char>,
    ) -> (StoreModel, ReplyModel) {
        let (s, r) = self.create_decision_receipt(
            event_id,
            request::text_or(body, "agent_id"@, Seq::empty()),
            request::text_or(body, "run_id"@, Seq::empty()),
            request::text_or(body, "decision"@, Seq::empty()),
            request::field_text(body, "summary"@),
            request::field_json(body, "tool_calls"@),
            request::field_json(body, "next_wake"@),
            request::field_json(body, "cost"@),
            uuid,
            now,
        );
        (
            s,
            match r {
                Ok(m) => ReplyModel::Done(DataModel::Receipt(m)),
                Err(e) => reply::refusal(e),
            },
        )
    }

    /// Registers the endpoint that a body describes.
    pub open spec fn register_agent(
        self,
        body: Seq<FieldModel>,
        resolved: Result<Seq<char>, Seq<char>>,
        now: Seq<char>,
    ) -> (StoreModel, ReplyModel) {
        let (s, r) = self.create_agent_endpoint(
            request::text_or(body, "agent_id"@, Seq::empty()),
            request::text_or(body, "transport"@, Seq::empty()),
            request::text_or(body, "endpoint"@, Seq::empty()),
            request::field_text(body, "auth_ref"@),
            Seq::empty(),
            resolved,
            now,
        );
        (s, with_agent(r))
    }

    /// What a call that only reads is answered.
    pub open spec fn look_up(self, route: RouteModel, req: RequestModel, m: MomentModel) -> ReplyModel {
        match route {
            RouteModel::Now => match instant::view_of(instant::to_milliseconds(m.now_ns)) {
                Ok(v) => ReplyModel::Done(DataModel::Now(v)),
                Err(e) => reply::bad_value(e),
            },
            RouteModel::Convert => converted(req.body),
            RouteModel::ListSystems => ReplyModel::Done(
                DataModel::Systems(text::sorted(table::keys::<SystemRecord>(self.systems))),
            ),
            RouteModel::ListGroups => ReplyModel::Done(
                DataModel::Groups(text::sorted(table::keys::<GroupRecord>(self.groups))),
            ),
            RouteModel::ExpandGroup(id) => match self.expand_group(id, m.now_ns) {
                Ok(x) => ReplyModel::Done(DataModel::Expansion(x)),
                Err(e) => reply::refusal(e),
            },
            RouteModel::ListAudit => ReplyModel::Done(
                DataModel::Audit(table::latest(self.audit_log, 50)),
            ),
            RouteModel::ListDeviceEvents => ReplyModel::Done(
                DataModel::DeviceEvents(table::latest(self.device_events, 50)),
            ),
            RouteModel::ListTriggers => ReplyModel::Done(
                DataModel::Triggers(table::newest_first::<Trigger>(self.triggers)),
            ),
            RouteModel::GetTrigger(id) => with_trigger(self.get_trigger(id)),
            RouteModel::ListWakeEvents => ReplyModel::Done(
                DataModel::WakeEvents(
                    self.list_wake_events(
                        request::param(req.query(), "agent_id"@),
                        match request::param(req.query(), "status"@) {
                            Some(s) => request::status_in(s),
                            None => None,
                        },
                    ),
                ),
            ),
            RouteModel::GetDecision(id) => match self.latest_receipt(id) {
                Some(x) => ReplyModel::Done(DataModel::Receipt(x)),
                None => ReplyModel::Refused {
                    status: 404,
                    code: "NOT_FOUND"@,
                    message: "no decision receipt filed yet for this wake event"@,
                },
            },
            RouteModel::GetWakeEvent(id) => with_event(self.get_wake_event(id)),
            RouteModel::ListAgents => ReplyModel::Done(
                DataModel::Agents(table::newest_first::<AgentEndpoint>(self.agent_endpoints)),
            ),
            RouteModel::GetAgent(id) => with_agent(self.get_agent_endpoint(id)),
            _ => ReplyModel::Refused {
                status: 404,
                code: "NOT_FOUND"@,
                message: "no route: "@ + req.method_name + " "@ + req.url,
            },
        }
    }

    /// What comes of a call, by what it asks for.
    pub open spec fn carry_out(
        self,
        route: RouteModel,
        req: RequestModel,
        m: MomentModel,
        resolved: Result<Seq<char>, Seq<char>>,
    ) -> (StoreModel, ReplyModel) {
        match route {
            RouteModel::CreateTrigger => self.set_trigger(req.body, m.now),
            RouteModel::CancelTrigger(id) => {
                let (s, r) = self.cancel_trigger(id);
                (s, with_trigger(r))
            },
            RouteModel::AckWakeEvent(id) => {
                let (s, r) = self.ack_wake_event(id, m.now);
                (s, with_event(r))
            },
            RouteModel::CompleteWakeEvent(id) => {
                let (s, r) = self.complete_wake_event(id, m.now);
                (s, with_event(r))
            },
            RouteModel::FileDecision(id) => self.file_decision(id, req.body, m.uuid, m.now),
            RouteModel::CreateAgent => self.register_agent(req.body, resolved, m.now),
            RouteModel::EnableAgent(id) => {
                let (s, r) = self.set_agent_endpoint_enabled(id, true, m.now);
                (s, with_agent(r))
            },
            RouteModel::DisableAgent(id) => {
                let (s, r) = self.set_agent_endpoint_enabled(id, false, m.now);
                (s, with_agent(r))
            },
            _ => (self, self.look_up(route, req, m)),
        }
    }

    /// What a call that was let in is answered. `resolved` is what came of looking up the path that it
    /// names, if it names one.
    pub open spec fn answer(
        self,
        req: RequestModel,
        m: MomentModel,
        resolved: Result<Seq<char>, Seq<char>>,
    ) -> (StoreModel, ReplyModel) {
        self.carry_out(routes::route_of(req.method, req.path()), req, m, resolved)
    }

    /// How a call is dealt with.
    pub open spec fn handle_request(
        self,
        req: RequestModel,
        m: MomentModel,
        resolved: Result<Seq<char>, Seq<char>>,
    ) -> (StoreModel, ReplyModel) {
        let (s, refused) = self.let_in(req, m);
        match refused {
            Some(r) => (s, r),
            None => s.answer(req, m, resolved),
        }
    }
}

/// The answer with a trigger, or the refusal.
fn trigger_reply(r: Result<Trigger, StoreError>) -> (reply: Reply)
    ensures
        reply@ == with_trigger(crate::store::error::outcome(r)),
{
    match r {
        Ok(t) => Reply::Done(Data::Trigger(t)),
        Err(e) => Reply::from_store_error(e),
    }
}

/// The answer with a wake event, or the refusal.
fn event_reply(r: Result<WakeEvent, StoreError>) -> (reply: Reply)
    ensures
        reply@ == with_event(crate::store::error::outcome(r)),
{
    match r {
        Ok(m) => Reply::Done(Data::WakeEvent(m)),
        Err(e) => Reply::from_store_error(e),
    }
}

/// The answer with an endpoint, or the refusal.
fn agent_reply(r: Result<AgentEndpoint, StoreError>) -> (reply: Reply)
    ensures
        reply@ == with_agent(crate::store::error::outcome(r)),
{
    match r {
        Ok(m) => Reply::Done(Data::Agent(m)),
        Err(e) => Reply::from_store_error(e),
    }
}

/// The answer to a conversion.
pub fn answer_conversion(body: &Body) -> (r: Reply)
    ensures
        r@ == converted(body@),
{
    let value = body.text_or("value", "");
    let from = body.text_or("from", "rfc3339");
    let to = body.text_or("to", "rfc3339");
    let tz = body.text("tz");
    proof {
        reveal_strlit("");
        assert(""@ =~= Seq::<char>::empty());
    }
    match convert(value.as_str(), from.as_str(), to.as_str(), text::borrow_opt(&tz)) {
        Err(e) => Reply::from_core_error(e),
        Ok(c) => Reply::Done(Data::Converted(c)),
    }
}

/// The condition that a body names.
fn read_trigger_kind(body: &Body) -> (r: TriggerKind)
    ensures
        r == trigger_kind_in(body@),
{
    match body.text("kind") {
        Some(name) => kind_from_str(name.as_str()),
        None => TriggerKind::CommonInstant,
    }
}

/// The action that a body names.
fn read_action(body: &Body) -> (r: TriggerAction)
    ensures
        r@ == action_in(body@),
{
    proof {
        reveal_strlit("");
        assert(""@ =~= Seq::<char>::empty());
    }
    let kind: ActionKind = match body.text("action_kind") {
        Some(name) => action_kind_from_str(name.as_str()),
        None => ActionKind::Notification,
    };
    TriggerAction { kind, target: body.text_or("action_target", "") }
}

impl Store {
    /// Puts a call on record, where calls are.
    fn audit_call(
        &mut self,
        settings: &Settings,
        req: &Request,
        scope: Option<&'static str>,
        allowed: bool,
        reason: Option<&str>,
        at: &str,
    )
        ensures
            final(self)@ == old(self)@.audited(
                settings@,
                req@,
                routes::opt_name(scope),
                allowed,
                text::opt_str(reason),
                at@,
            ),
    {
        if settings.audit_log_enabled {
            let _ = self.log_audit_at(
                req.method_name.as_str(),
                req.url.as_str(),
                scope,
                allowed,
                reason,
                at,
            );
        }
    }

    /// Whether a caller is let in: `None` if so, and else the refusal. Either way the call is put on
    /// record, where calls are.
    pub fn let_in(&mut self, req: &Request, m: &Moment) -> (r: Option<Reply>)
        ensures
            (final(self)@, (match r {
                Some(x) => Some(x@),
                None => None::<ReplyModel>,
            })) == old(self)@.let_in(req@, m@),
    {
        let (path, _) = req.split_url();
        let scope: Option<&'static str> = required_scope(req.method, path.as_str());
        let settings: Settings = match self.get_settings_with(m.token.as_str()) {
            Ok(s) => s,
            Err(_) => {
                return Some(Reply::refused(500, "STORE_ERROR", "failed to read settings"));
            },
        };
        if !req.is_authorized(settings.local_api_token.as_str()) {
            self.audit_call(
                &settings,
                req,
                scope,
                false,
                Some("missing or invalid bearer token"),
                m.audited_at.as_str(),
            );
            return Some(
                Reply::refused(401, "UNAUTHORIZED", "missing or invalid bearer token"),
            );
        }
        match scope {
            Some(name) => {
                if !settings.is_granted(name) {
                    self.audit_call(
                        &settings,
                        req,
                        scope,
                        false,
                        Some("scope not granted"),
                        m.audited_at.as_str(),
                    );
                    let message = text::join3("this caller lacks the '", name, "' scope");
                    return Some(Reply::refused(403, "SCOPE_NOT_GRANTED", message.as_str()));
                }
            },
            None => {},
        }
        self.audit_call(&settings, req, scope, true, None, m.audited_at.as_str());
        None
    }

    /// Sets the trigger that a body describes.
    fn set_trigger(&mut self, body: &Body, now: &str) -> (r: Reply)
        ensures
            (final(self)@, r@) == old(self)@.set_trigger(body@, now@),
    {
        proof {
            reveal_strlit("");
            assert(""@ =~= Seq::<char>::empty());
        }
        let sign = body.text_or("operator", ">=");
        let operator: Operator = match Operator::parse(sign.as_str()) {
            Ok(o) => o,
            Err(e) => {
                return Reply::from_store_error(e);
            },
        };
        let id = body.text_or("id", "");
        let system_id = body.text("system_id");
        let target: Number = match body.number("target_value") {
            Some(n) => n,
            None => Number::zero(false),
        };
        let r = self.create_trigger_at(
            id.as_str(),
            read_trigger_kind(body),
            text::borrow_opt(&system_id),
            operator,
            target,
            read_action(body),
            now,
        );
        trigger_reply(r)
    }

    /// Files the receipt that a body describes.
    fn file_decision(&mut self, event_id: &str, body: &Body, uuid: &str, now: &str) -> (r: Reply)
        ensures
            (final(self)@, r@) == old(self)@.file_decision(event_id@, body@, uuid@, now@),
    {
        proof {
            reveal_strlit("");
            assert(""@ =~= Seq::<char>::empty());
        }
        let agent_id = body.text_or("agent_id", "");
        let run_id = body.text_or("run_id", "");
        let decision = body.text_or("decision", "");
        let summary = body.text("summary");
        let tool_calls = body.json("tool_calls");
        let next_wake = body.json("next_wake");
        let cost = body.json("cost");
        let r = self.create_decision_receipt_at(
            event_id,
            agent_id.as_str(),
            run_id.as_str(),
            decision.as_str(),
            text::borrow_opt(&summary),
            text::borrow_opt(&tool_calls),
            text::borrow_opt(&next_wake),
            text::borrow_opt(&cost),
            uuid,
            now,
        );
        match r {
            Ok(x) => Reply::Done(Data::Receipt(x)),
            Err(e) => Reply::from_store_error(e),
        }
    }

    /// Registers the endpoint that a body describes.
    fn register_agent(&mut self, body: &Body, resolved: &Result<String, String>, now: &str) -> (r:
        Reply)
        ensures
            (final(self)@, r@) == old(self)@.register_agent(
                body@,
                endpoints::resolution(*resolved),
                now@,
            ),
    {
        proof {
            reveal_strlit("");
            assert(""@ =~= Seq::<char>::empty());
        }
        let agent_id = body.text_or("agent_id", "");
        let transport = body.text_or("transport", "");
        let endpoint = body.text_or("endpoint", "");
        let auth_ref = body.text("auth_ref");
        let kinds: Vec<String> = Vec::new();
        assert(text::all(kinds@) =~= Seq::<Seq<char>>::empty());
        let r = self.create_agent_endpoint_at(
            agent_id.as_str(),
            transport.as_str(),
            endpoint.as_str(),
            text::borrow_opt(&auth_ref),
            &kinds,
            resolved,
            now,
        );
        agent_reply(r)
    }

    /// What a call that only reads is answered.
    fn look_up(&self, route: &Route, req: &Request, query: &str, m: &Moment) -> (r: Reply)
        requires
            m@.is_possible(),
            query@ == req@.query(),
        ensures
            r@ == self@.look_up(route@, req@, m@),
    {
        match route {
            Route::Now => match now_view_at(m.now_ns) {
                Ok(v) => Reply::Done(Data::Now(v)),
                Err(e) => Reply::from_core_error(e),
            },
            Route::Convert => answer_conversion(&req.body),
            Route::ListSystems => Reply::Done(Data::Systems(self.list_systems())),
            Route::ListGroups => Reply::Done(Data::Groups(self.list_groups())),
            Route::ExpandGroup(id) => match self.expand_group(id.as_str(), m.now_ns) {
                Ok(x) => Reply::Done(Data::Expansion(x)),
                Err(e) => Reply::from_store_error(e),
            },
            Route::ListAudit => Reply::Done(Data::Audit(self.list_audit_log(50))),
            Route::ListDeviceEvents => Reply::Done(
                Data::DeviceEvents(self.list_device_events(50)),
            ),
            Route::ListTriggers => Reply::Done(Data::Triggers(self.list_triggers())),
            Route::GetTrigger(id) => trigger_reply(self.get_trigger(id.as_str())),
            Route::ListWakeEvents => {
                let agent_id = query_param(query, "agent_id");
                let status = match query_param(query, "status") {
                    Some(s) => status_filter(s.as_str()),
                    None => None,
                };
                Reply::Done(
                    Data::WakeEvents(self.list_wake_events(text::borrow_opt(&agent_id), status)),
                )
            },
            Route::GetDecision(id) => match self.get_latest_decision_receipt(id.as_str()) {
                Some(x) => Reply::Done(Data::Receipt(x)),
                None => Reply::refused(
                    404,
                    "NOT_FOUND",
                    "no decision receipt filed yet for this wake event",
                ),
            },
            Route::GetWakeEvent(id) => event_reply(self.get_wake_event(id.as_str())),
            Route::ListAgents => Reply::Done(Data::Agents(self.list_agent_endpoints())),
            Route::GetAgent(id) => agent_reply(self.get_agent_endpoint(id.as_str())),
            _ => {
                let head = text::join3("no route: ", req.method_name.as_str(), " ");
                let message = text::join(head.as_str(), req.url.as_str());
                Reply::refused(404, "NOT_FOUND", message.as_str())
            },
        }
    }

    /// What comes of a call, by what it asks for.
    fn carry_out(
        &mut self,
        route: &Route,
        req: &Request,
        query: &str,
        m: &Moment,
        resolved: &Result<String, String>,
    ) -> (r: Reply)
        requires
            m@.is_possible(),
            query@ == req@.query(),
        ensures
            (final(self)@, r@) == old(self)@.carry_out(
                route@,
                req@,
                m@,
                endpoints::resolution(*resolved),
            ),
    {
        let now: &str = m.now.as_str();
        match route {
            Route::CreateTrigger => self.set_trigger(&req.body, now),
            Route::CancelTrigger(id) => trigger_reply(self.cancel_trigger(id.as_str())),
            Route::AckWakeEvent(id) => event_reply(self.ack_wake_event_at(id.as_str(), now)),
            Route::CompleteWakeEvent(id) => event_reply(
                self.complete_wake_event_at(id.as_str(), now),
            ),
            Route::FileDecision(id) => self.file_decision(
                id.as_str(),
                &req.body,
                m.uuid.as_str(),
                now,
            ),
            Route::CreateAgent => self.register_agent(&req.body, resolved, now),
            Route::EnableAgent(id) => agent_reply(
                self.set_agent_endpoint_enabled_at(id.as_str(), true, now),
            ),
            Route::DisableAgent(id) => agent_reply(
                self.set_agent_endpoint_enabled_at(id.as_str(), false, now),
            ),
            _ => self.look_up(route, req, query, m),
        }
    }

    /// What a call that was let in is answered. `resolved` is what came of looking up the path that it
    /// names on this device, if it names one.
    pub fn answer(&mut self, req: &Request, m: &Moment, resolved: &Result<String, String>) -> (r:
        Reply)
        requires
            m@.is_possible(),
        ensures
            (final(self)@, r@) == old(self)@.answer(req@, m@, endpoints::resolution(*resolved)),
    {
        let (path, query) = req.split_url();
        let asked: Route = route(req.method, path.as_str());
        self.carry_out(&asked, req, query.as_str(), m, resolved)
    }

    /// How a call is dealt with at a given moment.
    pub fn handle_request_at(&mut self, req: &Request, m: &Moment, resolved: &Result<String, String>) -> (
    r: Reply)
        requires
            m@.is_possible(),
        ensures
            (final(self)@, r@) == old(self)@.handle_request(
                req@,
                m@,
                endpoints::resolution(*resolved),
            ),
    {
        match self.let_in(req, m) {
            Some(r) => r,
            None => self.answer(req, m, resolved),
        }
    }

    /// How a call is dealt with. `resolved` is what came of looking up the path that it names on this
    /// device, if it names one.
    pub fn handle_request(&mut self, req: &Request, resolved: &Result<String, String>) -> (r: Reply)
        ensures
            exists|m: MomentModel|
                m.is_possible() && (final(self)@, r@) == #[trigger] old(self)@.handle_request(
                    req@,
                    m,
                    endpoints::resolution(*resolved),
                ),
    {
        let m = Moment::present();
        self.handle_request_at(req, &m, resolved)
    }
}

/// The path that a call wants looked up on this device, if any: the endpoint of an agent that is to be
/// reached as a local process.
pub open spec fn path_in(req: RequestModel) -> Option<Seq<char>> {
    if routes::route_of(req.method, req.path()) == RouteModel::CreateAgent && request::text_or(
        req.body,
        "transport"@,
        Seq::empty(),
    ) == "local_process"@ {
        Some(request::text_or(req.body, "endpoint"@, Seq::empty()))
    } else {
        None
    }
}

/// The path that a call wants looked up on this device, if any.
pub fn path_to_resolve(req: &Request) -> (r: Option<String>)
    ensures
        text::opt(r) == path_in(req@),
{
    proof {
        reveal_strlit("");
        assert(""@ =~= Seq::<char>::empty());
    }
    let (path, _) = req.split_url();
    match route(req.method, path.as_str()) {
        Route::CreateAgent => {
            let transport = req.body.text_or("transport", "");
            if text::same(transport.as_str(), "local_process") {
                Some(req.body.text_or("endpoint", ""))
            } else {
                None
            }
        },
        _ => None,
    }
}

/// Whether two registries differ at most in the audit log and in settings being there.
pub open spec fn differs_in_audit_only(s: StoreModel, t: StoreModel) -> bool {
    t == StoreModel { audit_log: t.audit_log, settings: t.settings, ..s }
}

/// A caller without the token is refused with 401, and changes nothing but the record of calls.
pub proof fn law_no_token_no_entry(
    s: StoreModel,
    req: RequestModel,
    m: MomentModel,
    resolved: Result<Seq<char>, Seq<char>>,
)
    requires
        s.get_settings(m.token).1 matches Ok(settings) && !req.is_authorized(
            settings.local_api_token,
        ),
    ensures
        s.handle_request(req, m, resolved).1.status() == 401,
        differs_in_audit_only(s, s.handle_request(req, m, resolved).0),
{
}

/// A caller with the token is refused with 403 where the call needs a capability that is not granted,
/// and changes nothing but the record of calls.
pub proof fn law_no_scope_no_entry(
    s: StoreModel,
    req: RequestModel,
    m: MomentModel,
    resolved: Result<Seq<char>, Seq<char>>,
)
    requires
        routes::scope_of(req.method, req.path()) is Some,
        s.get_settings(m.token).1 matches Ok(settings) && req.is_authorized(
            settings.local_api_token,
        ) && !settings.grants(routes::scope_of(req.method, req.path())->0),
    ensures
        s.handle_request(req, m, resolved).1.status() == 403,
        differs_in_audit_only(s, s.handle_request(req, m, resolved).0),
{
}

/// What is answered with data was asked for with the token, and needs a capability that is granted.
pub proof fn law_done_means_granted(
    s: StoreModel,
    req: RequestModel,
    m: MomentModel,
    resolved: Result<Seq<char>, Seq<char>>,
)
    ensures
        s.handle_request(req, m, resolved).1 is Done ==> {
            let settings = s.get_settings(m.token).1->Ok_0;
            &&& s.get_settings(m.token).1 is Ok
            &&& req.is_authorized(settings.local_api_token)
            &&& routes::scope_of(req.method, req.path()) matches Some(scope) && settings.grants(scope)
        },
{
    if s.handle_request(req, m, resolved).1 is Done {
        if routes::route_of(req.method, req.path()) != RouteModel::Unknown {
            routes::law_every_route_needs_a_scope(req.method, req.path());
        }
    }
}

/// Where calls are put on record, every call is, allowed or refused, before it is answered: one entry
/// more, with what was asked for, which capability that needs, and whether it was let in.
pub proof fn law_every_call_is_recorded(s: StoreModel, req: RequestModel, m: MomentModel)
    requires
        s.get_settings(m.token).1 matches Ok(settings) && settings.audit_log_enabled,
        s.last_audit_id() < i64::MAX,
    ensures
        ({
            let (t, refused) = s.let_in(req, m);
            &&& t.audit_log.len() == s.audit_log.len() + 1
            &&& t.audit_log.drop_last() == s.audit_log
            &&& t.audit_log.last().method == req.method_name
            &&& t.audit_log.last().path == req.url
            &&& t.audit_log.last().scope == routes::scope_of(req.method, req.path())
            &&& t.audit_log.last().allowed == (refused is None)
        }),
{
    let t = s.let_in(req, m).0;
    assert(t.audit_log.drop_last() =~= s.audit_log);
}

/// A `GET` changes nothing but the record of calls.
pub proof fn law_get_changes_nothing(
    s: StoreModel,
    req: RequestModel,
    m: MomentModel,
    resolved: Result<Seq<char>, Seq<char>>,
)
    requires
        req.method == routes::Method::Get,
    ensures
        differs_in_audit_only(s, s.handle_request(req, m, resolved).0),
        s.answer(req, m, resolved).0 == s,
{
}

/// Where the settings cannot be read, every caller is refused with 500, and nothing changes.
pub proof fn law_no_settings_no_entry(
    s: StoreModel,
    req: RequestModel,
    m: MomentModel,
    resolved: Result<Seq<char>, Seq<char>>,
)
    requires
        s.get_settings(m.token).1 is Err,
    ensures
        s.handle_request(req, m, resolved).1.status() == 500,
        s.handle_request(req, m, resolved).0 == s,
{
}

/// Registering an endpoint over the interface never switches it on.
pub proof fn law_registered_agent_is_off(
    s: StoreModel,
    req: RequestModel,
    m: MomentModel,
    resolved: Result<Seq<char>, Seq<char>>,
)
    requires
        routes::route_of(req.method, req.path()) == RouteModel::CreateAgent,
    ensures
        s.answer(req, m, resolved).1 matches ReplyModel::Done(DataModel::Agent(agent))
            ==> !agent.enabled,
{
}

/// A caller is let in if and only if the settings can be read, one of the headers presents the token
/// that is in them, and the capability that the call needs, if it needs one, is granted in them. What a
/// caller who is let in gets is what the call is answered, by the registry as it stands once the call
/// was put on record.
pub proof fn law_who_is_let_in(
    s: StoreModel,
    req: RequestModel,
    m: MomentModel,
    resolved: Result<Seq<char>, Seq<char>>,
)
    ensures
        ({
            let (read, settings) = s.get_settings(m.token);
            let (t, refused) = s.let_in(req, m);
            let scope = routes::scope_of(req.method, req.path());
            &&& refused is None <==> settings is Ok && req.is_authorized(settings->Ok_0.local_api_token) && (
            scope matches Some(x) ==> settings->Ok_0.grants(x))
            &&& refused is None ==> s.handle_request(req, m, resolved) == t.answer(req, m, resolved)
            &&& refused matches Some(r) ==> s.handle_request(req, m, resolved) == (t, r) && r is Refused
            &&& t == (StoreModel { audit_log: t.audit_log, ..read })
            &&& (settings matches Ok(x) && !x.audit_log_enabled) ==> t == read
        }),
{
}

/// Whether a reply is the data that an operation gave, or the refusal with status 400 that tells its
/// error.
pub open spec fn tells<T>(r: ReplyModel, came: Result<T, StoreErrorModel>, data: spec_fn(T) -> DataModel) -> bool {
    match came {
        Ok(x) => r == ReplyModel::Done(data(x)),
        Err(e) => r == (ReplyModel::Refused { status: 400, code: e.code(), message: e.message() }),
    }
}

/// A call does what it asks for, to what it names, at the time of the call, and is told what came of it:
/// a trigger is called off, a wake event acknowledged or completed, an endpoint switched on or off. What
/// asks for nothing that there is, is refused with 404 and changes nothing.
pub proof fn law_call_does_what_it_asks_for(
    s: StoreModel,
    req: RequestModel,
    m: MomentModel,
    resolved: Result<Seq<char>, Seq<char>>,
)
    ensures
        ({
            let (t, r) = s.answer(req, m, resolved);
            match routes::route_of(req.method, req.path()) {
                RouteModel::CancelTrigger(id) => t == s.cancel_trigger(id).0 && tells(
                    r,
                    s.cancel_trigger(id).1,
                    |x: TriggerModel| DataModel::Trigger(x),
                ),
                RouteModel::AckWakeEvent(id) => t == s.ack_wake_event(id, m.now).0 && tells(
                    r,
                    s.ack_wake_event(id, m.now).1,
                    |x: WakeEventModel| DataModel::WakeEvent(x),
                ),
                RouteModel::CompleteWakeEvent(id) => t == s.complete_wake_event(id, m.now).0 && tells(
                    r,
                    s.complete_wake_event(id, m.now).1,
                    |x: WakeEventModel| DataModel::WakeEvent(x),
                ),
                RouteModel::EnableAgent(id) => t == s.set_agent_endpoint_enabled(id, true, m.now).0
                    && tells(
                    r,
                    s.set_agent_endpoint_enabled(id, true, m.now).1,
                    |x: EndpointModel| DataModel::Agent(x),
                ),
                RouteModel::DisableAgent(id) => t == s.set_agent_endpoint_enabled(id, false, m.now).0
                    && tells(
                    r,
                    s.set_agent_endpoint_enabled(id, false, m.now).1,
                    |x: EndpointModel| DataModel::Agent(x),
                ),
                RouteModel::Unknown => t == s && r == (ReplyModel::Refused {
                    status: 404,
                    code: "NOT_FOUND"@,
                    message: "no route: "@ + req.method_name + " "@ + req.url,
                }),
                _ => true,
            }
        }),
{
}

/// A call that reads is told what is on record: the present to the millisecond, the names of systems and
/// groups, a group expanded at the present, the last fifty entries of a record, triggers, wake events by
/// the agent and the status that the query names, the latest receipt, agents. Reading changes nothing.
pub proof fn law_call_reads_what_it_asks_for(
    s: StoreModel,
    req: RequestModel,
    m: MomentModel,
    resolved: Result<Seq<char>, Seq<char>>,
)
    ensures
        ({
            let (t, r) = s.answer(req, m, resolved);
            match routes::route_of(req.method, req.path()) {
                RouteModel::Now => t == s && (match instant::view_of(
                    instant::to_milliseconds(m.now_ns),
                ) {
                    Ok(v) => r == ReplyModel::Done(DataModel::Now(v)),
                    Err(e) => r is Refused && r.status() == 400,
                }),
                RouteModel::ListSystems => t == s && r == ReplyModel::Done(
                    DataModel::Systems(
                        text::sorted(s.systems.map_values(|x: SystemRecordModel| x.id)),
                    ),
                ),
                RouteModel::ListGroups => t == s && r == ReplyModel::Done(
                    DataModel::Groups(text::sorted(s.groups.map_values(|x: GroupModel| x.id))),
                ),
                RouteModel::ExpandGroup(id) => t == s && tells(
                    r,
                    s.expand_group(id, m.now_ns),
                    |x: ExpansionModel| DataModel::Expansion(x),
                ),
                RouteModel::ListAudit => t == s && r == ReplyModel::Done(
                    DataModel::Audit(table::latest(s.audit_log, 50)),
                ),
                RouteModel::ListDeviceEvents => t == s && r == ReplyModel::Done(
                    DataModel::DeviceEvents(table::latest(s.device_events, 50)),
                ),
                RouteModel::ListTriggers => t == s && r == ReplyModel::Done(
                    DataModel::Triggers(table::newest_first::<Trigger>(s.triggers)),
                ),
                RouteModel::GetTrigger(id) => t == s && tells(
                    r,
                    s.get_trigger(id),
                    |x: TriggerModel| DataModel::Trigger(x),
                ),
                RouteModel::ListWakeEvents => {
                    let agent = request::param(req.query(), "agent_id"@);
                    let status = match request::param(req.query(), "status"@) {
                        Some(name) => request::status_in(name),
                        None => None,
                    };
                    t == s && r == ReplyModel::Done(
                        DataModel::WakeEvents(s.list_wake_events(agent, status)),
                    )
                },
                RouteModel::GetDecision(id) => t == s && (match s.latest_receipt(id) {
                    Some(x) => r == ReplyModel::Done(DataModel::Receipt(x)),
                    None => r is Refused && r.status() == 404,
                }),
                RouteModel::GetWakeEvent(id) => t == s && tells(
                    r,
                    s.get_wake_event(id),
                    |x: WakeEventModel| DataModel::WakeEvent(x),
                ),
                RouteModel::ListAgents => t == s && r == ReplyModel::Done(
                    DataModel::Agents(table::newest_first::<AgentEndpoint>(s.agent_endpoints)),
                ),
                RouteModel::GetAgent(id) => t == s && tells(
                    r,
                    s.get_agent_endpoint(id),
                    |x: EndpointModel| DataModel::Agent(x),
                ),
                _ => true,
            }
        }),
{
    assert(table::keys::<SystemRecord>(s.systems) =~= s.systems.map_values(
        |x: SystemRecordModel| x.id,
    ));
    assert(table::keys::<GroupRecord>(s.groups) =~= s.groups.map_values(|x: GroupModel| x.id));
}

/// A trigger that a call sets has the id, the system, the operator and the number that its body names,
/// `>=` and zero where it names none; it watches a system only where the body says so, and notifies
/// unless the body says otherwise. An operator that is none is refused.
pub proof fn law_call_sets_the_trigger_it_describes(
    s: StoreModel,
    req: RequestModel,
    m: MomentModel,
    resolved: Result<Seq<char>, Seq<char>>,
)
    requires
        routes::route_of(req.method, req.path()) == RouteModel::CreateTrigger,
    ensures
        ({
            let (t, r) = s.answer(req, m, resolved);
            let sign = request::field_text(req.body, "operator"@);
            let kind = request::field_text(req.body, "kind"@);
            let action = request::field_text(req.body, "action_kind"@);
            let ge = sign is None || sign == Some(">="@);
            let le = sign == Some("<="@);
            &&& !ge && !le ==> t == s && r is Refused && r.status() == 400
            &&& r is Refused ==> t == s && r.status() == 400
            &&& r is Done ==> (r matches ReplyModel::Done(DataModel::Trigger(x)) && {
                &&& t.get_trigger(x.id) == Ok::<TriggerModel, StoreErrorModel>(x)
                &&& request::field_text(req.body, "id"@) == Some(x.id)
                &&& x.operator == (if ge {
                    Operator::Ge
                } else {
                    Operator::Le
                })
                &&& x.system_id == request::field_text(req.body, "system_id"@)
                &&& x.target_value == match request::field_number(req.body, "target_value"@) {
                    Some(n) => n,
                    None => Float::Finite { negative: false, ticks: 0 },
                }
                &&& (x.kind == TriggerKind::CustomTime <==> kind == Some("custom_time"@))
                &&& (x.action.kind == ActionKind::AgentWake <==> action == Some("agent_wake"@))
                &&& (x.action.kind == ActionKind::Callback <==> action == Some("callback"@))
                &&& x.action.target == match request::field_text(req.body, "action_target"@) {
                    Some(target) => target,
                    None => Seq::empty(),
                }
                &&& x.status == TriggerStatus::Active
                &&& x.created_at == m.now
            })
        }),
{
    reveal_strlit(">=");
    reveal_strlit("<=");
    assert(">="@[0] == '>' && "<="@[0] == '<');
    reveal_strlit("agent_wake");
    reveal_strlit("callback");
    assert("agent_wake"@[0] == 'a' && "callback"@[0] == 'c');
    let (t, r) = s.answer(req, m, resolved);
    if r is Done {
        let id = request::text_or(req.body, "id"@, Seq::empty());
        let x = r->Done_0->Trigger_0;
        table::lemma_put_then_row::<Trigger>(s.triggers, x);
        systems::law_blank_is_white_space(Seq::empty());
        assert(x.id == id);
    }
}

/// A receipt that a call files is for the event that it names, with what its body holds; an endpoint that
/// a call registers has what its body holds, and what came of looking its path up.
pub proof fn law_call_files_what_it_describes(
    s: StoreModel,
    req: RequestModel,
    m: MomentModel,
    resolved: Result<Seq<char>, Seq<char>>,
)
    ensures
        ({
            let (t, r) = s.answer(req, m, resolved);
            let body = req.body;
            let text = |name: Seq<char>|
                match request::field_text(body, name) {
                    Some(x) => x,
                    None => Seq::empty(),
                };
            match routes::route_of(req.method, req.path()) {
                RouteModel::FileDecision(id) => {
                    let (u, came) = s.create_decision_receipt(
                        id,
                        text("agent_id"@),
                        text("run_id"@),
                        text("decision"@),
                        request::field_text(body, "summary"@),
                        request::field_json(body, "tool_calls"@),
                        request::field_json(body, "next_wake"@),
                        request::field_json(body, "cost"@),
                        m.uuid,
                        m.now,
                    );
                    t == u && tells(r, came, |x: ReceiptModel| DataModel::Receipt(x))
                },
                RouteModel::CreateAgent => {
                    let (u, came) = s.create_agent_endpoint(
                        text("agent_id"@),
                        text("transport"@),
                        text("endpoint"@),
                        request::field_text(body, "auth_ref"@),
                        Seq::empty(),
                        resolved,
                        m.now,
                    );
                    t == u && tells(r, came, |x: EndpointModel| DataModel::Agent(x))
                },
                RouteModel::Convert => {
                    let or = |name: Seq<char>|
                        match request::field_text(body, name) {
                            Some(x) => x,
                            None => "rfc3339"@,
                        };
                    t == s && (match encoding::conversion(
                        text("value"@),
                        or("from"@),
                        or("to"@),
                        request::field_text(body, "tz"@),
                    ) {
                        Ok(c) => r == ReplyModel::Done(DataModel::Converted(c)),
                        Err(e) => r == (ReplyModel::Refused {
                            status: 400,
                            code: e.code(),
                            message: e.message(),
                        }),
                    })
                },
                _ => true,
            }
        }),
{
}

/// What goes on record of a call that was let in has no reason; of one that was not, the reason that the
/// caller is told: with 401 that the token is missing or wrong, with 403 which capability is missing. It
/// carries the time of the call.
pub proof fn law_refusal_is_told_and_recorded(s: StoreModel, req: RequestModel, m: MomentModel)
    requires
        s.get_settings(m.token).1 is Ok,
    ensures
        ({
            let settings = s.get_settings(m.token).1->Ok_0;
            let (t, refused) = s.let_in(req, m);
            let scope = routes::scope_of(req.method, req.path());
            let known = req.is_authorized(settings.local_api_token);
            &&& !known ==> refused == Some(
                ReplyModel::Refused {
                    status: 401,
                    code: "UNAUTHORIZED"@,
                    message: "missing or invalid bearer token"@,
                },
            )
            &&& known && scope is Some && !settings.grants(scope->0) ==> refused == Some(
                ReplyModel::Refused {
                    status: 403,
                    code: "SCOPE_NOT_GRANTED"@,
                    message: "this caller lacks the '"@ + scope->0 + "' scope"@,
                },
            )
            &&& settings.audit_log_enabled && s.last_audit_id() < i64::MAX ==> {
                let x = t.audit_log[t.audit_log.len() - 1];
                &&& x.at == m.audited_at
                &&& x.id == s.last_audit_id() + 1
                &&& x.reason == if refused is None {
                    None
                } else if !known {
                    Some("missing or invalid bearer token"@)
                } else {
                    Some("scope not granted"@)
                }
            }
            &&& !settings.audit_log_enabled ==> t.audit_log == s.audit_log
        }),
{
}

} // verus!

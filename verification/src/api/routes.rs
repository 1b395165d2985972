//! What a call asks for, and which capability it needs.
use crate::store::settings;
use crate::text;
use vstd::prelude::*;

verus! {

/// The method of a call.
#[derive(Debug, Clone, Copy, PartialEq, Eq, Structural)]
pub enum Method {
    Get,
    Post,
    Other,
}

/// What a call asks for.
#[derive(Debug, Clone)]
pub enum Route {
    Now,
    Convert,
    ListSystems,
    ListGroups,
    ExpandGroup(String),
    ListAudit,
    ListDeviceEvents,
    ListTriggers,
    CreateTrigger,
    CancelTrigger(String),
    GetTrigger(String),
    ListWakeEvents,
    AckWakeEvent(String),
    CompleteWakeEvent(String),
    FileDecision(String),
    GetDecision(String),
    GetWakeEvent(String),
    ListAgents,
    CreateAgent,
    EnableAgent(String),
    DisableAgent(String),
    GetAgent(String),
    Unknown,
}

pub enum RouteModel {
    Now,
    Convert,
    ListSystems,
    ListGroups,
    ExpandGroup(Seq<char>),
    ListAudit,
    ListDeviceEvents,
    ListTriggers,
    CreateTrigger,
    CancelTrigger(Seq<char>),
    GetTrigger(Seq<char>),
    ListWakeEvents,
    AckWakeEvent(Seq<char>),
    CompleteWakeEvent(Seq<char>),
    FileDecision(Seq<char>),
    GetDecision(Seq<char>),
    GetWakeEvent(Seq<char>),
    ListAgents,
    CreateAgent,
    EnableAgent(Seq<char>),
    DisableAgent(Seq<char>),
    GetAgent(Seq<char>),
    Unknown,
}

impl View for Route {
    type V = RouteModel;

    open spec fn view(&self) -> RouteModel {
        match *self {
            Route::Now => RouteModel::Now,
            Route::Convert => RouteModel::Convert,
            Route::ListSystems => RouteModel::ListSystems,
            Route::ListGroups => RouteModel::ListGroups,
            Route::ExpandGroup(id) => RouteModel::ExpandGroup(id@),
            Route::ListAudit => RouteModel::ListAudit,
            Route::ListDeviceEvents => RouteModel::ListDeviceEvents,
            Route::ListTriggers => RouteModel::ListTriggers,
            Route::CreateTrigger => RouteModel::CreateTrigger,
            Route::CancelTrigger(id) => RouteModel::CancelTrigger(id@),
            Route::GetTrigger(id) => RouteModel::GetTrigger(id@),
            Route::ListWakeEvents => RouteModel::ListWakeEvents,
            Route::AckWakeEvent(id) => RouteModel::AckWakeEvent(id@),
            Route::CompleteWakeEvent(id) => RouteModel::CompleteWakeEvent(id@),
            Route::FileDecision(id) => RouteModel::FileDecision(id@),
            Route::GetDecision(id) => RouteModel::GetDecision(id@),
            Route::GetWakeEvent(id) => RouteModel::GetWakeEvent(id@),
            Route::ListAgents => RouteModel::ListAgents,
            Route::CreateAgent => RouteModel::CreateAgent,
            Route::EnableAgent(id) => RouteModel::EnableAgent(id@),
            Route::DisableAgent(id) => RouteModel::DisableAgent(id@),
            Route::GetAgent(id) => RouteModel::GetAgent(id@),
            Route::Unknown => RouteModel::Unknown,
        }
    }
}

/// What a `GET` asks for.
pub open spec fn get_route(path: Seq<char>) -> RouteModel {
    if path == "/v1/now"@ {
        RouteModel::Now
    } else if path == "/v1/systems"@ {
        RouteModel::ListSystems
    } else if path == "/v1/groups"@ {
        RouteModel::ListGroups
    } else if path == "/v1/audit"@ {
        RouteModel::ListAudit
    } else if path == "/v1/device-events"@ {
        RouteModel::ListDeviceEvents
    } else if path == "/v1/triggers"@ {
        RouteModel::ListTriggers
    } else if text::after_prefix(path, "/v1/triggers/"@) is Some {
        RouteModel::GetTrigger(text::after_prefix(path, "/v1/triggers/"@)->0)
    } else if path == "/v1/wake-events"@ {
        RouteModel::ListWakeEvents
    } else if text::inner(path, "/v1/wake-events/"@, "/decision"@) is Some {
        RouteModel::GetDecision(text::inner(path, "/v1/wake-events/"@, "/decision"@)->0)
    } else if text::after_prefix(path, "/v1/wake-events/"@) is Some {
        RouteModel::GetWakeEvent(text::after_prefix(path, "/v1/wake-events/"@)->0)
    } else if path == "/v1/agents"@ {
        RouteModel::ListAgents
    } else if text::after_prefix(path, "/v1/agents/"@) is Some {
        RouteModel::GetAgent(text::after_prefix(path, "/v1/agents/"@)->0)
    } else {
        RouteModel::Unknown
    }
}

/// What a `POST` asks for.
pub open spec fn post_route(path: Seq<char>) -> RouteModel {
    if path == "/v1/convert"@ {
        RouteModel::Convert
    } else if path == "/v1/triggers"@ {
        RouteModel::CreateTrigger
    } else if text::inner(path, "/v1/triggers/"@, "/cancel"@) is Some {
        RouteModel::CancelTrigger(text::inner(path, "/v1/triggers/"@, "/cancel"@)->0)
    } else if text::inner(path, "/v1/wake-events/"@, "/ack"@) is Some {
        RouteModel::AckWakeEvent(text::inner(path, "/v1/wake-events/"@, "/ack"@)->0)
    } else if text::inner(path, "/v1/wake-events/"@, "/complete"@) is Some {
        RouteModel::CompleteWakeEvent(text::inner(path, "/v1/wake-events/"@, "/complete"@)->0)
    } else if text::inner(path, "/v1/wake-events/"@, "/decision"@) is Some {
        RouteModel::FileDecision(text::inner(path, "/v1/wake-events/"@, "/decision"@)->0)
    } else if path == "/v1/agents"@ {
        RouteModel::CreateAgent
    } else if text::inner(path, "/v1/agents/"@, "/enable"@) is Some {
        RouteModel::EnableAgent(text::inner(path, "/v1/agents/"@, "/enable"@)->0)
    } else if text::inner(path, "/v1/agents/"@, "/disable"@) is Some {
        RouteModel::DisableAgent(text::inner(path, "/v1/agents/"@, "/disable"@)->0)
    } else if text::inner(path, "/v1/groups/"@, "/expand"@) is Some {
        RouteModel::ExpandGroup(text::inner(path, "/v1/groups/"@, "/expand"@)->0)
    } else {
        RouteModel::Unknown
    }
}

/// What a call asks for.
pub open spec fn route_of(method: Method, path: Seq<char>) -> RouteModel {
    match method {
        Method::Get => get_route(path),
        Method::Post => post_route(path),
        Method::Other => RouteModel::Unknown,
    }
}

/// The capability that a `GET` needs.
pub open spec fn get_scope(path: Seq<char>) -> Option<Seq<char>> {
    if path == "/v1/now"@ {
        Some("instant.read"@)
    } else if path == "/v1/systems"@ || text::has_prefix(path, "/v1/systems/"@) {
        Some("systems.read"@)
    } else if path == "/v1/groups"@ {
        Some("groups.read"@)
    } else if path == "/v1/audit"@ {
        Some("history.read"@)
    } else if path == "/v1/device-events"@ {
        Some("device_clock.read"@)
    } else if path == "/v1/triggers"@ || text::has_prefix(path, "/v1/triggers/"@) {
        Some("triggers.read"@)
    } else if path == "/v1/wake-events"@ || text::has_prefix(path, "/v1/wake-events/"@) {
        Some("wake_events.read"@)
    } else if path == "/v1/agents"@ || text::has_prefix(path, "/v1/agents/"@) {
        Some("agents.read"@)
    } else {
        None
    }
}

/// The capability that a `POST` needs.
pub open spec fn post_scope(path: Seq<char>) -> Option<Seq<char>> {
    if path == "/v1/convert"@ {
        Some("convert.execute"@)
    } else if path == "/v1/systems"@ {
        Some("systems.write"@)
    } else if path == "/v1/groups"@ {
        Some("groups.write"@)
    } else if text::inner(path, "/v1/groups/"@, "/expand"@) is Some {
        Some("groups.read"@)
    } else if path == "/v1/triggers"@ {
        Some("triggers.write"@)
    } else if text::inner(path, "/v1/triggers/"@, "/cancel"@) is Some {
        Some("triggers.cancel"@)
    } else if text::inner(path, "/v1/wake-events/"@, "/ack"@) is Some {
        Some("wake_events.ack"@)
    } else if text::inner(path, "/v1/wake-events/"@, "/complete"@) is Some {
        Some("wake_events.complete"@)
    } else if text::inner(path, "/v1/wake-events/"@, "/decision"@) is Some {
        Some("decision_receipts.write"@)
    } else if path == "/v1/agents"@ || text::inner(path, "/v1/agents/"@, "/enable"@) is Some
        || text::inner(path, "/v1/agents/"@, "/disable"@) is Some {
        Some("agents.write"@)
    } else {
        None
    }
}

/// The capability that a call needs.
pub open spec fn scope_of(method: Method, path: Seq<char>) -> Option<Seq<char>> {
    match method {
        Method::Get => get_scope(path),
        Method::Post => post_scope(path),
        Method::Other => None,
    }
}

/// The characters of an optional name.
pub open spec fn opt_name(s: Option<&'static str>) -> Option<Seq<char>> {
    match s {
        Some(t) => Some(t@),
        None => None,
    }
}

/// The capability that a `GET` needs.
fn required_for_get(path: &str) -> (r: Option<&'static str>)
    ensures
        opt_name(r) == get_scope(path@),
{
    if text::same(path, "/v1/now") {
        Some("instant.read")
    } else if text::same(path, "/v1/systems") || text::starts_with(path, "/v1/systems/") {
        Some("systems.read")
    } else if text::same(path, "/v1/groups") {
        Some("groups.read")
    } else if text::same(path, "/v1/audit") {
        Some("history.read")
    } else if text::same(path, "/v1/device-events") {
        Some("device_clock.read")
    } else if text::same(path, "/v1/triggers") || text::starts_with(path, "/v1/triggers/") {
        Some("triggers.read")
    } else if text::same(path, "/v1/wake-events") || text::starts_with(path, "/v1/wake-events/") {
        Some("wake_events.read")
    } else if text::same(path, "/v1/agents") || text::starts_with(path, "/v1/agents/") {
        Some("agents.read")
    } else {
        None
    }
}

/// Whether a path is `prefix`, an id and `suffix`.
fn is_inner(path: &str, prefix: &str, suffix: &str) -> (r: bool)
    ensures
        r == (text::inner(path@, prefix@, suffix@) is Some),
{
    text::starts_with(path, prefix) && text::ends_with(path, suffix)
}

/// The capability that a `POST` needs.
fn required_for_post(path: &str) -> (r: Option<&'static str>)
    ensures
        opt_name(r) == post_scope(path@),
{
    if text::same(path, "/v1/convert") {
        Some("convert.execute")
    } else if text::same(path, "/v1/systems") {
        Some("systems.write")
    } else if text::same(path, "/v1/groups") {
        Some("groups.write")
    } else if is_inner(path, "/v1/groups/", "/expand") {
        Some("groups.read")
    } else if text::same(path, "/v1/triggers") {
        Some("triggers.write")
    } else if is_inner(path, "/v1/triggers/", "/cancel") {
        Some("triggers.cancel")
    } else if is_inner(path, "/v1/wake-events/", "/ack") {
        Some("wake_events.ack")
    } else if is_inner(path, "/v1/wake-events/", "/complete") {
        Some("wake_events.complete")
    } else if is_inner(path, "/v1/wake-events/", "/decision") {
        Some("decision_receipts.write")
    } else if text::same(path, "/v1/agents") || is_inner(path, "/v1/agents/", "/enable") || is_inner(
        path,
        "/v1/agents/",
        "/disable",
    ) {
        Some("agents.write")
    } else {
        None
    }
}

/// The capability that a call needs.
pub fn required_scope(method: Method, path: &str) -> (r: Option<&'static str>)
    ensures
        opt_name(r) == scope_of(method, path@),
{
    match method {
        Method::Get => required_for_get(path),
        Method::Post => required_for_post(path),
        Method::Other => None,
    }
}

/// What a `GET` asks for.
fn route_get(path: &str) -> (r: Route)
    ensures
        r@ == get_route(path@),
{
    if text::same(path, "/v1/now") {
        return Route::Now;
    }
    if text::same(path, "/v1/systems") {
        return Route::ListSystems;
    }
    if text::same(path, "/v1/groups") {
        return Route::ListGroups;
    }
    if text::same(path, "/v1/audit") {
        return Route::ListAudit;
    }
    if text::same(path, "/v1/device-events") {
        return Route::ListDeviceEvents;
    }
    if text::same(path, "/v1/triggers") {
        return Route::ListTriggers;
    }
    match text::strip_prefix(path, "/v1/triggers/") {
        Some(id) => {
            return Route::GetTrigger(id);
        },
        None => {},
    }
    if text::same(path, "/v1/wake-events") {
        return Route::ListWakeEvents;
    }
    match text::strip_both(path, "/v1/wake-events/", "/decision") {
        Some(id) => {
            return Route::GetDecision(id);
        },
        None => {},
    }
    match text::strip_prefix(path, "/v1/wake-events/") {
        Some(id) => {
            return Route::GetWakeEvent(id);
        },
        None => {},
    }
    if text::same(path, "/v1/agents") {
        return Route::ListAgents;
    }
    match text::strip_prefix(path, "/v1/agents/") {
        Some(id) => Route::GetAgent(id),
        None => Route::Unknown,
    }
}

/// What a `POST` asks for.
fn route_post(path: &str) -> (r: Route)
    ensures
        r@ == post_route(path@),
{
    if text::same(path, "/v1/convert") {
        return Route::Convert;
    }
    if text::same(path, "/v1/triggers") {
        return Route::CreateTrigger;
    }
    match text::strip_both(path, "/v1/triggers/", "/cancel") {
        Some(id) => {
            return Route::CancelTrigger(id);
        },
        None => {},
    }
    match text::strip_both(path, "/v1/wake-events/", "/ack") {
        Some(id) => {
            return Route::AckWakeEvent(id);
        },
        None => {},
    }
    match text::strip_both(path, "/v1/wake-events/", "/complete") {
        Some(id) => {
            return Route::CompleteWakeEvent(id);
        },
        None => {},
    }
    match text::strip_both(path, "/v1/wake-events/", "/decision") {
        Some(id) => {
            return Route::FileDecision(id);
        },
        None => {},
    }
    if text::same(path, "/v1/agents") {
        return Route::CreateAgent;
    }
    match text::strip_both(path, "/v1/agents/", "/enable") {
        Some(id) => {
            return Route::EnableAgent(id);
        },
        None => {},
    }
    match text::strip_both(path, "/v1/agents/", "/disable") {
        Some(id) => {
            return Route::DisableAgent(id);
        },
        None => {},
    }
    match text::strip_both(path, "/v1/groups/", "/expand") {
        Some(id) => Route::ExpandGroup(id),
        None => Route::Unknown,
    }
}

/// What a call asks for.
pub fn route(method: Method, path: &str) -> (r: Route)
    ensures
        r@ == route_of(method, path@),
{
    match method {
        Method::Get => route_get(path),
        Method::Post => route_post(path),
        Method::Other => Route::Unknown,
    }
}

/// Whatever is answered needs a capability: no call that does something goes without one.
pub proof fn law_every_route_needs_a_scope(method: Method, path: Seq<char>)
    requires
        route_of(method, path) != RouteModel::Unknown,
    ensures
        scope_of(method, path) is Some,
{
}

/// What starts as a text does has its characters.
proof fn lemma_starts_alike(path: Seq<char>, start: Seq<char>)
    ensures
        text::has_prefix(path, start) ==> forall|k: int|
            0 <= k < start.len() ==> #[trigger] path[k] == start[k],
{
    if text::has_prefix(path, start) {
        assert forall|k: int| 0 <= k < start.len() implies #[trigger] path[k] == start[k] by {
            assert(path.take(start.len() as int)[k] == path[k]);
        }
    }
}

/// A start, what follows it, and an end.
proof fn lemma_parts(start: Seq<char>, id: Seq<char>, end: Seq<char>)
    ensures
        text::after_prefix(start + id, start) == Some(id),
        text::has_prefix(start + id + end, start),
        text::inner(start + id + end, start, end) == Some(id),
{
    assert((start + id).take(start.len() as int) =~= start);
    assert((start + id).skip(start.len() as int) =~= id);
    let all = start + id + end;
    assert(all.take(start.len() as int) =~= start);
    assert(all.skip(all.len() - end.len()) =~= end);
    assert(all.subrange(start.len() as int, all.len() - end.len()) =~= id);
}

/// What a `GET` asks for needs the capability to read that: the present, systems, groups, the record of
/// calls, that of the device's clock, triggers, wake events and their receipts, or agents.
pub proof fn law_reading_needs_the_scope_to_read(path: Seq<char>)
    ensures
        (match route_of(Method::Get, path) {
            RouteModel::Now => scope_of(Method::Get, path) == Some("instant.read"@),
            RouteModel::ListSystems => scope_of(Method::Get, path) == Some("systems.read"@),
            RouteModel::ListGroups => scope_of(Method::Get, path) == Some("groups.read"@),
            RouteModel::ListAudit => scope_of(Method::Get, path) == Some("history.read"@),
            RouteModel::ListDeviceEvents => scope_of(Method::Get, path) == Some("device_clock.read"@),
            RouteModel::ListTriggers => scope_of(Method::Get, path) == Some("triggers.read"@),
            RouteModel::GetTrigger(_) => scope_of(Method::Get, path) == Some("triggers.read"@),
            RouteModel::ListWakeEvents => scope_of(Method::Get, path) == Some("wake_events.read"@),
            RouteModel::GetDecision(_) => scope_of(Method::Get, path) == Some("wake_events.read"@),
            RouteModel::GetWakeEvent(_) => scope_of(Method::Get, path) == Some("wake_events.read"@),
            RouteModel::ListAgents => scope_of(Method::Get, path) == Some("agents.read"@),
            RouteModel::GetAgent(_) => scope_of(Method::Get, path) == Some("agents.read"@),
            RouteModel::Unknown => true,
            _ => false,
        }),
{
    lemma_read_paths_differ(path);
}

/// What a `POST` asks for needs the capability to do that: to convert, to expand groups, to set triggers
/// or call them off, to acknowledge or complete wake events, to file receipts, or to register and switch
/// agents.
pub proof fn law_writing_needs_the_scope_to_write(path: Seq<char>)
    ensures
        (match route_of(Method::Post, path) {
            RouteModel::Convert => scope_of(Method::Post, path) == Some("convert.execute"@),
            RouteModel::ExpandGroup(_) => scope_of(Method::Post, path) == Some("groups.read"@),
            RouteModel::CreateTrigger => scope_of(Method::Post, path) == Some("triggers.write"@),
            RouteModel::CancelTrigger(_) => scope_of(Method::Post, path) == Some("triggers.cancel"@),
            RouteModel::AckWakeEvent(_) => scope_of(Method::Post, path) == Some("wake_events.ack"@),
            RouteModel::CompleteWakeEvent(_) => scope_of(Method::Post, path) == Some(
                "wake_events.complete"@,
            ),
            RouteModel::FileDecision(_) => scope_of(Method::Post, path) == Some(
                "decision_receipts.write"@,
            ),
            RouteModel::CreateAgent => scope_of(Method::Post, path) == Some("agents.write"@),
            RouteModel::EnableAgent(_) => scope_of(Method::Post, path) == Some("agents.write"@),
            RouteModel::DisableAgent(_) => scope_of(Method::Post, path) == Some("agents.write"@),
            RouteModel::Unknown => true,
            _ => false,
        }),
        route_of(Method::Other, path) == RouteModel::Unknown,
{
    lemma_write_paths_differ(path);
}

/// Which path a `GET` asks for what by. An id is whatever stands behind its part of the path.
pub proof fn law_paths_to_read(id: Seq<char>)
    ensures
        route_of(Method::Get, "/v1/now"@) == RouteModel::Now,
        route_of(Method::Get, "/v1/systems"@) == RouteModel::ListSystems,
        route_of(Method::Get, "/v1/groups"@) == RouteModel::ListGroups,
        route_of(Method::Get, "/v1/audit"@) == RouteModel::ListAudit,
        route_of(Method::Get, "/v1/device-events"@) == RouteModel::ListDeviceEvents,
        route_of(Method::Get, "/v1/triggers"@) == RouteModel::ListTriggers,
        route_of(Method::Get, "/v1/wake-events"@) == RouteModel::ListWakeEvents,
        route_of(Method::Get, "/v1/agents"@) == RouteModel::ListAgents,
        route_of(Method::Get, "/v1/triggers/"@ + id) == RouteModel::GetTrigger(id),
        route_of(Method::Get, "/v1/agents/"@ + id) == RouteModel::GetAgent(id),
        route_of(Method::Get, "/v1/wake-events/"@ + id + "/decision"@) == RouteModel::GetDecision(id),
        !text::has_suffix("/v1/wake-events/"@ + id, "/decision"@) ==> route_of(
            Method::Get,
            "/v1/wake-events/"@ + id,
        ) == RouteModel::GetWakeEvent(id),
{
    reveal_strlit("/v1/now");
    reveal_strlit("/v1/systems");
    reveal_strlit("/v1/systems/");
    reveal_strlit("/v1/groups");
    reveal_strlit("/v1/audit");
    reveal_strlit("/v1/device-events");
    reveal_strlit("/v1/triggers");
    reveal_strlit("/v1/triggers/");
    reveal_strlit("/v1/wake-events");
    reveal_strlit("/v1/wake-events/");
    reveal_strlit("/v1/agents");
    reveal_strlit("/v1/agents/");
    reveal_strlit("/decision");
    lemma_read_paths_differ("/v1/systems"@);
    lemma_read_paths_differ("/v1/groups"@);
    lemma_read_paths_differ("/v1/audit"@);
    lemma_read_paths_differ("/v1/device-events"@);
    lemma_read_paths_differ("/v1/triggers"@);
    lemma_read_paths_differ("/v1/wake-events"@);
    lemma_read_paths_differ("/v1/agents"@);
    lemma_parts("/v1/triggers/"@, id, "/decision"@);
    lemma_parts("/v1/agents/"@, id, "/decision"@);
    lemma_parts("/v1/wake-events/"@, id, "/decision"@);
    lemma_read_paths_differ("/v1/triggers/"@ + id);
    lemma_read_paths_differ("/v1/agents/"@ + id);
    lemma_read_paths_differ("/v1/wake-events/"@ + id);
    lemma_read_paths_differ("/v1/wake-events/"@ + id + "/decision"@);
}

/// Paths that start differently are different.
proof fn lemma_read_paths_differ(path: Seq<char>)
    ensures
        path == "/v1/now"@ ==> path[4] == 'n',
        path == "/v1/systems"@ ==> path[4] == 's',
        text::has_prefix(path, "/v1/systems/"@) ==> path[4] == 's',
        path == "/v1/groups"@ ==> path[4] == 'g',
        path == "/v1/audit"@ ==> path[4] == 'a' && path[5] == 'u',
        path == "/v1/device-events"@ ==> path[4] == 'd',
        path == "/v1/triggers"@ ==> path[4] == 't' && path.len() == 12,
        text::has_prefix(path, "/v1/triggers/"@) ==> path[4] == 't' && path.len() >= 13,
        path == "/v1/wake-events"@ ==> path[4] == 'w' && path.len() == 15,
        text::has_prefix(path, "/v1/wake-events/"@) ==> path[4] == 'w' && path.len() >= 16,
        path == "/v1/agents"@ ==> path[4] == 'a' && path[5] == 'g' && path.len() == 10,
        text::has_prefix(path, "/v1/agents/"@) ==> path[4] == 'a' && path[5] == 'g' && path.len() >= 11,
{
    reveal_strlit("/v1/now");
    reveal_strlit("/v1/systems");
    reveal_strlit("/v1/systems/");
    reveal_strlit("/v1/groups");
    reveal_strlit("/v1/audit");
    reveal_strlit("/v1/device-events");
    reveal_strlit("/v1/triggers");
    reveal_strlit("/v1/triggers/");
    reveal_strlit("/v1/wake-events");
    reveal_strlit("/v1/wake-events/");
    reveal_strlit("/v1/agents");
    reveal_strlit("/v1/agents/");
    lemma_starts_alike(path, "/v1/now"@);
    lemma_starts_alike(path, "/v1/systems"@);
    lemma_starts_alike(path, "/v1/systems/"@);
    lemma_starts_alike(path, "/v1/groups"@);
    lemma_starts_alike(path, "/v1/audit"@);
    lemma_starts_alike(path, "/v1/device-events"@);
    lemma_starts_alike(path, "/v1/triggers"@);
    lemma_starts_alike(path, "/v1/triggers/"@);
    lemma_starts_alike(path, "/v1/wake-events"@);
    lemma_starts_alike(path, "/v1/wake-events/"@);
    lemma_starts_alike(path, "/v1/agents"@);
    lemma_starts_alike(path, "/v1/agents/"@);
}

/// Which path a `POST` asks for what by. An id is whatever stands between its parts of the path.
pub proof fn law_paths_to_write(id: Seq<char>)
    ensures
        route_of(Method::Post, "/v1/convert"@) == RouteModel::Convert,
        route_of(Method::Post, "/v1/triggers"@) == RouteModel::CreateTrigger,
        route_of(Method::Post, "/v1/agents"@) == RouteModel::CreateAgent,
        route_of(Method::Post, "/v1/triggers/"@ + id + "/cancel"@) == RouteModel::CancelTrigger(id),
        route_of(Method::Post, "/v1/wake-events/"@ + id + "/ack"@) == RouteModel::AckWakeEvent(id),
        route_of(Method::Post, "/v1/wake-events/"@ + id + "/complete"@)
            == RouteModel::CompleteWakeEvent(id),
        route_of(Method::Post, "/v1/wake-events/"@ + id + "/decision"@) == RouteModel::FileDecision(id),
        route_of(Method::Post, "/v1/agents/"@ + id + "/enable"@) == RouteModel::EnableAgent(id),
        route_of(Method::Post, "/v1/agents/"@ + id + "/disable"@) == RouteModel::DisableAgent(id),
        route_of(Method::Post, "/v1/groups/"@ + id + "/expand"@) == RouteModel::ExpandGroup(id),
{
    lemma_write_paths_differ("/v1/triggers"@);
    lemma_write_paths_differ("/v1/agents"@);
    reveal_strlit("/v1/convert");
    reveal_strlit("/v1/systems");
    reveal_strlit("/v1/groups");
    reveal_strlit("/v1/groups/");
    reveal_strlit("/v1/triggers");
    reveal_strlit("/v1/triggers/");
    reveal_strlit("/v1/wake-events/");
    reveal_strlit("/v1/agents");
    reveal_strlit("/v1/agents/");
    reveal_strlit("/cancel");
    reveal_strlit("/ack");
    reveal_strlit("/complete");
    reveal_strlit("/decision");
    reveal_strlit("/enable");
    reveal_strlit("/disable");
    reveal_strlit("/expand");
    let cancel = "/v1/triggers/"@ + id + "/cancel"@;
    lemma_parts("/v1/triggers/"@, id, "/cancel"@);
    lemma_write_paths_differ(cancel);
    let ack = "/v1/wake-events/"@ + id + "/ack"@;
    lemma_parts("/v1/wake-events/"@, id, "/ack"@);
    lemma_write_paths_differ(ack);
    let complete = "/v1/wake-events/"@ + id + "/complete"@;
    lemma_parts("/v1/wake-events/"@, id, "/complete"@);
    lemma_write_paths_differ(complete);
    lemma_ends_differ(complete, "/complete"@, "/ack"@);
    let decision = "/v1/wake-events/"@ + id + "/decision"@;
    lemma_parts("/v1/wake-events/"@, id, "/decision"@);
    lemma_write_paths_differ(decision);
    lemma_ends_differ(decision, "/decision"@, "/ack"@);
    lemma_ends_differ(decision, "/decision"@, "/complete"@);
    let enable = "/v1/agents/"@ + id + "/enable"@;
    lemma_parts("/v1/agents/"@, id, "/enable"@);
    lemma_write_paths_differ(enable);
    let disable = "/v1/agents/"@ + id + "/disable"@;
    lemma_parts("/v1/agents/"@, id, "/disable"@);
    lemma_write_paths_differ(disable);
    assert(disable[disable.len() - 7] == 'd');
    assert(!text::has_suffix(disable, "/enable"@)) by {
        if text::has_suffix(disable, "/enable"@) {
            assert(disable.skip(disable.len() - 7)[0] == disable[disable.len() - 7]);
        }
    }
    let expand = "/v1/groups/"@ + id + "/expand"@;
    lemma_parts("/v1/groups/"@, id, "/expand"@);
    lemma_write_paths_differ(expand);
}

/// What ends as one text does not end as another with another last character.
proof fn lemma_ends_differ(path: Seq<char>, end: Seq<char>, other: Seq<char>)
    requires
        text::has_suffix(path, end),
        end.len() > 0,
        other.len() > 0,
        end.last() != other.last(),
    ensures
        !text::has_suffix(path, other),
{
    assert(path.skip(path.len() - end.len()).last() == path.last());
    if text::has_suffix(path, other) {
        assert(path.skip(path.len() - other.len()).last() == path.last());
    }
}

/// Paths that start differently are different.
proof fn lemma_write_paths_differ(path: Seq<char>)
    ensures
        path == "/v1/convert"@ ==> path[4] == 'c',
        path == "/v1/systems"@ ==> path[4] == 's',
        path == "/v1/groups"@ ==> path[4] == 'g' && path.len() == 10,
        path == "/v1/triggers"@ ==> path[4] == 't' && path.len() == 12,
        text::has_prefix(path, "/v1/triggers/"@) ==> path[4] == 't' && path.len() >= 13,
        text::has_prefix(path, "/v1/wake-events/"@) ==> path[4] == 'w',
        path == "/v1/agents"@ ==> path[4] == 'a' && path.len() == 10,
        text::has_prefix(path, "/v1/agents/"@) ==> path[4] == 'a' && path.len() >= 11,
        text::has_prefix(path, "/v1/groups/"@) ==> path[4] == 'g' && path.len() >= 11,
{
    reveal_strlit("/v1/convert");
    reveal_strlit("/v1/systems");
    reveal_strlit("/v1/groups");
    reveal_strlit("/v1/groups/");
    reveal_strlit("/v1/triggers");
    reveal_strlit("/v1/triggers/");
    reveal_strlit("/v1/wake-events/");
    reveal_strlit("/v1/agents");
    reveal_strlit("/v1/agents/");
    lemma_starts_alike(path, "/v1/convert"@);
    lemma_starts_alike(path, "/v1/systems"@);
    lemma_starts_alike(path, "/v1/groups"@);
    lemma_starts_alike(path, "/v1/groups/"@);
    lemma_starts_alike(path, "/v1/triggers"@);
    lemma_starts_alike(path, "/v1/triggers/"@);
    lemma_starts_alike(path, "/v1/wake-events/"@);
    lemma_starts_alike(path, "/v1/agents"@);
    lemma_starts_alike(path, "/v1/agents/"@);
}

/// Every capability that a call needs is one that can be granted.
pub proof fn law_calls_need_scopes_that_there_are(method: Method, path: Seq<char>)
    ensures
        scope_of(method, path) matches Some(scope) ==> settings::scope_names().contains(scope),
{
    settings::lemma_scope_names();
}

} // verus!

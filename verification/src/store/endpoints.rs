//! Agent endpoints: where an agent can be reached, if it is to be woken actively. An endpoint starts
//! switched off, and is switched off again whenever it is registered anew.
use crate::clock;
use crate::store::error;
use crate::store::error::{StoreError, StoreErrorModel};
use crate::store::systems;
use crate::store::table;
use crate::store::table::{Record, Row};
use crate::store::{Store, StoreModel};
use crate::text;
use vstd::prelude::*;

verus! {

/// An agent's endpoint.
#[derive(Debug, Clone)]
pub struct AgentEndpoint {
    pub agent_id: String,
    /// `local_process` or `loopback_http`.
    pub transport: String,
    /// The path of an executable, or an `http` URL on this device.
    pub endpoint: String,
    /// The token to present to a URL.
    pub auth_ref: Option<String>,
    pub enabled: bool,
    pub allowed_event_kinds: Vec<String>,
    pub created_at: String,
    pub updated_at: String,
}

#[verifier::ext_equal]
pub struct EndpointModel {
    pub agent_id: Seq<char>,
    pub transport: Seq<char>,
    pub endpoint: Seq<char>,
    pub auth_ref: Option<Seq<char>>,
    pub enabled: bool,
    pub allowed_event_kinds: Seq<Seq<char>>,
    pub created_at: Seq<char>,
    pub updated_at: Seq<char>,
}

impl View for AgentEndpoint {
    type V = EndpointModel;

    open spec fn view(&self) -> EndpointModel {
        EndpointModel {
            agent_id: self.agent_id@,
            transport: self.transport@,
            endpoint: self.endpoint@,
            auth_ref: text::opt(self.auth_ref),
            enabled: self.enabled,
            allowed_event_kinds: text::all(self.allowed_event_kinds@),
            created_at: self.created_at@,
            updated_at: self.updated_at@,
        }
    }
}

impl Record for AgentEndpoint {
    fn copy(&self) -> (r: AgentEndpoint) {
        AgentEndpoint {
            agent_id: self.agent_id.clone(),
            transport: self.transport.clone(),
            endpoint: self.endpoint.clone(),
            auth_ref: text::copy_opt(&self.auth_ref),
            enabled: self.enabled,
            allowed_event_kinds: text::copy_all(&self.allowed_event_kinds),
            created_at: self.created_at.clone(),
            updated_at: self.updated_at.clone(),
        }
    }
}

impl Row for AgentEndpoint {
    open spec fn key_of(m: EndpointModel) -> Seq<char> {
        m.agent_id
    }

    open spec fn stamp_of(m: EndpointModel) -> Seq<char> {
        m.created_at
    }

    fn key(&self) -> (r: &str) {
        self.agent_id.as_str()
    }

    fn stamp(&self) -> (r: &str) {
        self.created_at.as_str()
    }
}

/// Where the last `c` stands.
pub open spec fn last_place(s: Seq<char>, c: char) -> Option<int>
    decreases s.len(),
{
    if s.len() == 0 {
        None
    } else if s.last() == c {
        Some(s.len() - 1)
    } else {
        last_place(s.drop_last(), c)
    }
}

/// What stands between the scheme of an `http` URL and its path.
pub open spec fn authority_of(url: Seq<char>) -> Option<Seq<char>> {
    match text::after_prefix(url, "http://"@) {
        None => None,
        Some(rest) => match text::split_at_char(rest, '/') {
            Some((head, _)) => Some(head),
            None => Some(rest),
        },
    }
}

/// A host without its port: what stands before the last colon, unless that colon is part of an address
/// in brackets.
pub open spec fn without_port(host: Seq<char>) -> Seq<char> {
    match last_place(host, ':') {
        Some(i) => if host[0] == '[' && host.skip(i + 1).contains(']') {
            host
        } else {
            host.take(i)
        },
        None => host,
    }
}

/// The host of a URL of the form `http://host[:port]/...`. A user in front of the host is taken for part
/// of it; but where that would leave this device for a host, all of it is the host: what stands behind
/// the user is another one.
pub open spec fn host_of(url: Seq<char>) -> Option<Seq<char>> {
    match authority_of(url) {
        None => None,
        Some(authority) => if authority.contains('@') && is_loopback(without_port(authority)) {
            Some(authority)
        } else {
            Some(without_port(authority))
        },
    }
}

/// Whether a host is this device.
pub open spec fn is_loopback(host: Seq<char>) -> bool {
    host == "127.0.0.1"@ || host == "localhost"@ || host == "[::1]"@
}

/// A host without its port.
fn cut_port(host: &str) -> (r: String)
    ensures
        r@ == without_port(host@),
{
    let x = text::chars_of(host);
    let bracketed: bool = x.len() > 0 && x[0] == '[';
    let mut i: usize = x.len();
    assert(host@.take(i as int) =~= host@);
    while i > 0
        invariant
            i <= x.len(),
            x@ == host@,
            last_place(host@, ':') == last_place(host@.take(i as int), ':'),
            bracketed == (host@.len() > 0 && host@[0] == '['),
            bracketed ==> !host@.skip(i as int).contains(']'),
        decreases i,
    {
        let ghost rest = host@.skip(i - 1);
        assert(host@.take(i as int).drop_last() =~= host@.take(i - 1));
        if x[i - 1] == ':' {
            assert(host@.take(i - 1) =~= x@.subrange(0, i - 1));
            return text::text_of(&x, 0, i - 1);
        }
        if bracketed && x[i - 1] == ']' {
            proof {
                lemma_last_place(host@.take(i - 1), ':');
                if last_place(host@, ':') is Some {
                    let p = last_place(host@, ':')->0;
                    assert(host@.skip(p + 1)[i - 1 - (p + 1)] == ']');
                }
            }
            return host.to_owned();
        }
        assert forall|k: int| bracketed && 0 <= k < rest.len() implies rest[k] != ']' by {
            if k > 0 {
                assert(rest[k] == host@.skip(i as int)[k - 1]);
            }
        }
        i = i - 1;
    }
    host.to_owned()
}

/// The last place of a character lies in the text.
proof fn lemma_last_place(s: Seq<char>, c: char)
    ensures
        last_place(s, c) matches Some(i) ==> 0 <= i < s.len(),
    decreases s.len(),
{
    if s.len() > 0 {
        lemma_last_place(s.drop_last(), c);
    }
}

/// Whether a text holds a character.
fn holds(s: &str, c: char) -> (r: bool)
    ensures
        r == s@.contains(c),
{
    let x = text::chars_of(s);
    let mut i: usize = 0;
    while i < x.len()
        invariant
            i <= x.len(),
            x@ == s@,
            forall|k: int| 0 <= k < i ==> s@[k] != c,
        decreases x.len() - i,
    {
        if x[i] == c {
            assert(s@[i as int] == c);
            return true;
        }
        i = i + 1;
    }
    false
}

/// Whether a host is this device.
fn this_device(host: &str) -> (r: bool)
    ensures
        r == is_loopback(host@),
{
    text::same(host, "127.0.0.1") || text::same(host, "localhost") || text::same(host, "[::1]")
}

/// The host of a URL of the form `http://host[:port]/...`; `None` where it is no `http` URL.
pub fn url_host(url: &str) -> (r: Option<String>)
    ensures
        text::opt(r) == host_of(url@),
{
    match text::strip_prefix(url, "http://") {
        None => None,
        Some(rest) => {
            let authority: String = match text::split_once(rest.as_str(), '/') {
                Some((head, _)) => head,
                None => rest,
            };
            let host = cut_port(authority.as_str());
            if holds(authority.as_str(), '@') && this_device(host.as_str()) {
                Some(authority)
            } else {
                Some(host)
            }
        },
    }
}

/// What came of resolving a path, with its texts as characters.
pub open spec fn resolution(r: Result<String, String>) -> Result<Seq<char>, Seq<char>> {
    match r {
        Ok(s) => Ok(s@),
        Err(e) => Err(e@),
    }
}

/// Where an agent is really to be reached, or why not. `resolved` is what came of looking the path up
/// on this device.
pub open spec fn resolved_endpoint(
    transport: Seq<char>,
    endpoint: Seq<char>,
    resolved: Result<Seq<char>, Seq<char>>,
) -> Result<Seq<char>, StoreErrorModel> {
    if transport == "local_process"@ {
        match resolved {
            Ok(path) => Ok(path),
            Err(e) => Err(
                StoreErrorModel::InvalidInput(
                    "local_process endpoint '"@ + endpoint
                        + "' is not a real, reachable executable path: "@ + e,
                ),
            ),
        }
    } else if transport == "loopback_http"@ {
        match host_of(endpoint) {
            None => Err(
                StoreErrorModel::InvalidInput(
                    "loopback_http endpoint '"@ + endpoint + "' is not a valid http:// URL"@,
                ),
            ),
            Some(host) => if is_loopback(host) {
                Ok(endpoint)
            } else {
                Err(
                    StoreErrorModel::InvalidInput(
                        "loopback_http endpoint must be on 127.0.0.1/localhost, got host '"@ + host
                            + "'"@,
                    ),
                )
            },
        }
    } else {
        Err(
            StoreErrorModel::InvalidInput(
                "unsupported transport '"@ + transport
                    + "' - only local_process and loopback_http are implemented (remote_webhook is explicitly deferred)"@,
            ),
        )
    }
}

/// Why an endpoint is not on record.
pub open spec fn unknown_endpoint(agent_id: Seq<char>) -> StoreErrorModel {
    StoreErrorModel::InvalidInput("unknown agent endpoint: "@ + agent_id)
}

impl StoreModel {
    /// Registers an endpoint, switched off.
    pub open spec fn create_agent_endpoint(
        self,
        agent_id: Seq<char>,
        transport: Seq<char>,
        endpoint: Seq<char>,
        auth_ref: Option<Seq<char>>,
        allowed_event_kinds: Seq<Seq<char>>,
        resolved: Result<Seq<char>, Seq<char>>,
        now: Seq<char>,
    ) -> (StoreModel, Result<EndpointModel, StoreErrorModel>) {
        if systems::is_blank(agent_id) {
            (self, Err(StoreErrorModel::InvalidInput("agent_id must not be empty"@)))
        } else {
            match resolved_endpoint(transport, endpoint, resolved) {
                Err(e) => (self, Err(e)),
                Ok(target) => {
                    let m = EndpointModel {
                        agent_id,
                        transport,
                        endpoint: target,
                        auth_ref,
                        enabled: false,
                        allowed_event_kinds,
                        created_at: match table::row::<AgentEndpoint>(
                            self.agent_endpoints,
                            agent_id,
                        ) {
                            Some(b) => b.created_at,
                            None => now,
                        },
                        updated_at: now,
                    };
                    (
                        StoreModel {
                            agent_endpoints: table::put::<AgentEndpoint>(self.agent_endpoints, m),
                            ..self
                        },
                        Ok(m),
                    )
                },
            }
        }
    }

    /// The endpoint of an agent.
    pub open spec fn get_agent_endpoint(self, agent_id: Seq<char>) -> Result<
        EndpointModel,
        StoreErrorModel,
    > {
        match table::row::<AgentEndpoint>(self.agent_endpoints, agent_id) {
            Some(m) => Ok(m),
            None => Err(unknown_endpoint(agent_id)),
        }
    }

    /// Switches an endpoint on or off.
    pub open spec fn set_agent_endpoint_enabled(
        self,
        agent_id: Seq<char>,
        enabled: bool,
        now: Seq<char>,
    ) -> (StoreModel, Result<EndpointModel, StoreErrorModel>) {
        match table::row::<AgentEndpoint>(self.agent_endpoints, agent_id) {
            Some(m) => {
                let after = EndpointModel { enabled, updated_at: now, ..m };
                (
                    StoreModel {
                        agent_endpoints: table::put::<AgentEndpoint>(self.agent_endpoints, after),
                        ..self
                    },
                    Ok(after),
                )
            },
            None => (self, Err(unknown_endpoint(agent_id))),
        }
    }
}

/// Where an agent is really to be reached, or why not.
fn resolve_endpoint(
    transport: &str,
    endpoint: &str,
    resolved: &Result<String, String>,
) -> (r: Result<String, StoreError>)
    ensures
        error::outcome(r) == resolved_endpoint(transport@, endpoint@, resolution(*resolved)),
{
    if text::same(transport, "local_process") {
        match resolved {
            Ok(path) => Ok(path.clone()),
            Err(e) => {
                let head = text::join3(
                    "local_process endpoint '",
                    endpoint,
                    "' is not a real, reachable executable path: ",
                );
                Err(StoreError::InvalidInput(text::join(head.as_str(), e.as_str())))
            },
        }
    } else if text::same(transport, "loopback_http") {
        match url_host(endpoint) {
            None => Err(
                StoreError::InvalidInput(
                    text::join3(
                        "loopback_http endpoint '",
                        endpoint,
                        "' is not a valid http:// URL",
                    ),
                ),
            ),
            Some(host) => {
                let h: &str = host.as_str();
                if this_device(h) {
                    Ok(endpoint.to_owned())
                } else {
                    Err(
                        StoreError::InvalidInput(
                            text::join3(
                                "loopback_http endpoint must be on 127.0.0.1/localhost, got host '",
                                h,
                                "'",
                            ),
                        ),
                    )
                }
            },
        }
    } else {
        Err(
            StoreError::InvalidInput(
                text::join3(
                    "unsupported transport '",
                    transport,
                    "' - only local_process and loopback_http are implemented (remote_webhook is explicitly deferred)",
                ),
            ),
        )
    }
}

impl Store {
    /// Registers an endpoint at a given time. `resolved` is what came of looking the path up on this
    /// device; it matters to `local_process` only.
    pub fn create_agent_endpoint_at(
        &mut self,
        agent_id: &str,
        transport: &str,
        endpoint: &str,
        auth_ref: Option<&str>,
        allowed_event_kinds: &Vec<String>,
        resolved: &Result<String, String>,
        now: &str,
    ) -> (r: Result<AgentEndpoint, StoreError>)
        ensures
            (final(self)@, error::outcome(r)) == old(self)@.create_agent_endpoint(
                agent_id@,
                transport@,
                endpoint@,
                text::opt_str(auth_ref),
                text::all(allowed_event_kinds@),
                resolution(*resolved),
                now@,
            ),
    {
        if systems::blank(agent_id) {
            return Err(StoreError::InvalidInput("agent_id must not be empty".to_owned()));
        }
        let target: String = match resolve_endpoint(transport, endpoint, resolved) {
            Ok(t) => t,
            Err(e) => {
                return Err(e);
            },
        };
        let created_at: String = match table::get(&self.agent_endpoints, agent_id) {
            Some(b) => b.created_at,
            None => now.to_owned(),
        };
        let m = AgentEndpoint {
            agent_id: agent_id.to_owned(),
            transport: transport.to_owned(),
            endpoint: target,
            auth_ref: text::own_opt(auth_ref),
            enabled: false,
            allowed_event_kinds: text::copy_all(allowed_event_kinds),
            created_at,
            updated_at: now.to_owned(),
        };
        let stored: AgentEndpoint = m.copy();
        table::put_row(&mut self.agent_endpoints, stored);
        Ok(m)
    }

    /// Registers an endpoint at the time of the device's clock, switched off. `resolved` is what came of
    /// looking the path up on this device; it matters to `local_process` only.
    pub fn create_agent_endpoint(
        &mut self,
        agent_id: &str,
        transport: &str,
        endpoint: &str,
        auth_ref: Option<&str>,
        allowed_event_kinds: &Vec<String>,
        resolved: &Result<String, String>,
    ) -> (r: Result<AgentEndpoint, StoreError>)
        ensures
            exists|now: Seq<char>|
                clock::is_utc_stamp(now) && (final(self)@, error::outcome(r))
                    == #[trigger] old(self)@.create_agent_endpoint(
                    agent_id@,
                    transport@,
                    endpoint@,
                    text::opt_str(auth_ref),
                    text::all(allowed_event_kinds@),
                    resolution(*resolved),
                    now,
                ),
    {
        let now = clock::now_text();
        self.create_agent_endpoint_at(
            agent_id,
            transport,
            endpoint,
            auth_ref,
            allowed_event_kinds,
            resolved,
            now.as_str(),
        )
    }

    /// The endpoint of an agent.
    pub fn get_agent_endpoint(&self, agent_id: &str) -> (r: Result<AgentEndpoint, StoreError>)
        ensures
            error::outcome(r) == self@.get_agent_endpoint(agent_id@),
    {
        match table::get(&self.agent_endpoints, agent_id) {
            Some(m) => Ok(m),
            None => Err(StoreError::InvalidInput(text::join("unknown agent endpoint: ", agent_id))),
        }
    }

    /// All endpoints, the latest first.
    pub fn list_agent_endpoints(&self) -> (r: Vec<AgentEndpoint>)
        ensures
            table::models(r@) == table::newest_first::<AgentEndpoint>(self@.agent_endpoints),
    {
        table::list_newest(&self.agent_endpoints)
    }

    /// Switches an endpoint on or off at a given time.
    pub fn set_agent_endpoint_enabled_at(&mut self, agent_id: &str, enabled: bool, now: &str) -> (r:
        Result<AgentEndpoint, StoreError>)
        ensures
            (final(self)@, error::outcome(r)) == old(self)@.set_agent_endpoint_enabled(
                agent_id@,
                enabled,
                now@,
            ),
    {
        let mut m: AgentEndpoint = match table::get(&self.agent_endpoints, agent_id) {
            Some(m) => m,
            None => {
                return Err(
                    StoreError::InvalidInput(text::join("unknown agent endpoint: ", agent_id)),
                );
            },
        };
        m.enabled = enabled;
        m.updated_at = now.to_owned();
        proof {
            table::lemma_place::<AgentEndpoint>(old(self)@.agent_endpoints, agent_id@);
        }
        let stored: AgentEndpoint = m.copy();
        table::put_row(&mut self.agent_endpoints, stored);
        Ok(m)
    }

    /// Switches an endpoint on or off at the time of the device's clock.
    pub fn set_agent_endpoint_enabled(&mut self, agent_id: &str, enabled: bool) -> (r: Result<
        AgentEndpoint,
        StoreError,
    >)
        ensures
            exists|now: Seq<char>|
                clock::is_utc_stamp(now) && (final(self)@, error::outcome(r))
                    == #[trigger] old(self)@.set_agent_endpoint_enabled(agent_id@, enabled, now),
    {
        let now = clock::now_text();
        self.set_agent_endpoint_enabled_at(agent_id, enabled, now.as_str())
    }
}

/// Registering an endpoint leaves it switched off, whether it was on before or not.
pub proof fn law_registering_switches_off(
    s: StoreModel,
    agent_id: Seq<char>,
    transport: Seq<char>,
    endpoint: Seq<char>,
    auth_ref: Option<Seq<char>>,
    allowed_event_kinds: Seq<Seq<char>>,
    resolved: Result<Seq<char>, Seq<char>>,
    now: Seq<char>,
)
    ensures
        ({
            let (t, r) = s.create_agent_endpoint(
                agent_id,
                transport,
                endpoint,
                auth_ref,
                allowed_event_kinds,
                resolved,
                now,
            );
            r matches Ok(m) ==> !m.enabled && t.get_agent_endpoint(agent_id) == Ok::<
                EndpointModel,
                StoreErrorModel,
            >(m)
        }),
{
    let (t, r) = s.create_agent_endpoint(
        agent_id,
        transport,
        endpoint,
        auth_ref,
        allowed_event_kinds,
        resolved,
        now,
    );
    if r is Ok {
        table::lemma_put_then_row::<AgentEndpoint>(s.agent_endpoints, r->Ok_0);
    }
}

/// A URL is registered only where its host is this device and no user is named in front of it, and it
/// is registered as given.
pub proof fn law_only_loopback_is_reached(
    endpoint: Seq<char>,
    resolved: Result<Seq<char>, Seq<char>>,
)
    ensures
        resolved_endpoint("loopback_http"@, endpoint, resolved) matches Ok(target) ==> target
            == endpoint && (host_of(endpoint) matches Some(host) && is_loopback(host)) && (authority_of(
            endpoint,
        ) matches Some(authority) && !authority.contains('@')),
{
    reveal_strlit("local_process");
    reveal_strlit("loopback_http");
    assert("local_process"@[2] != "loopback_http"@[2]);
    reveal_strlit("127.0.0.1");
    reveal_strlit("localhost");
    reveal_strlit("[::1]");
}

/// What an endpoint was switched to is what it shows, until it is switched or registered again.
pub proof fn law_switch_is_kept(s: StoreModel, agent_id: Seq<char>, enabled: bool, now: Seq<char>)
    ensures
        ({
            let (t, r) = s.set_agent_endpoint_enabled(agent_id, enabled, now);
            &&& r is Ok <==> s.get_agent_endpoint(agent_id) is Ok
            &&& r is Ok ==> (t.get_agent_endpoint(agent_id) matches Ok(m) && m.enabled == enabled)
            &&& r is Err ==> t == s
        }),
{
    let (t, r) = s.set_agent_endpoint_enabled(agent_id, enabled, now);
    table::lemma_place::<AgentEndpoint>(s.agent_endpoints, agent_id);
    if r is Ok {
        table::lemma_put_then_row::<AgentEndpoint>(s.agent_endpoints, r->Ok_0);
    }
}

/// An endpoint is registered if and only if its agent has a name and it can be reached: a program of this
/// device by the path that was found, or a URL of this device as given. It is on record as asked for,
/// switched off; a second registration keeps the time of the first. Nothing else changes, and what is
/// refused changes nothing.
pub proof fn law_endpoint_is_registered_as_asked(
    s: StoreModel,
    agent_id: Seq<char>,
    transport: Seq<char>,
    endpoint: Seq<char>,
    auth_ref: Option<Seq<char>>,
    allowed_event_kinds: Seq<Seq<char>>,
    resolved: Result<Seq<char>, Seq<char>>,
    now: Seq<char>,
    other: Seq<char>,
)
    requires
        other != agent_id,
    ensures
        ({
            let (t, r) = s.create_agent_endpoint(
                agent_id,
                transport,
                endpoint,
                auth_ref,
                allowed_event_kinds,
                resolved,
                now,
            );
            let program = transport == "local_process"@;
            let url = transport == "loopback_http"@;
            let here = host_of(endpoint) matches Some(h) && (h == "127.0.0.1"@ || h == "localhost"@ || h
                == "[::1]"@);
            &&& r is Ok <==> !systems::is_blank(agent_id) && ((program && resolved is Ok) || (url && here))
            &&& r is Err ==> t == s
            &&& t == (StoreModel { agent_endpoints: t.agent_endpoints, ..s })
            &&& t.get_agent_endpoint(other) == s.get_agent_endpoint(other)
            &&& r matches Ok(m) ==> {
                &&& t.get_agent_endpoint(agent_id) == r
                &&& m.agent_id == agent_id && m.transport == transport && m.auth_ref == auth_ref
                &&& m.allowed_event_kinds == allowed_event_kinds && !m.enabled && m.updated_at == now
                &&& program ==> m.endpoint == resolved->Ok_0
                &&& url ==> m.endpoint == endpoint
                &&& s.get_agent_endpoint(agent_id) matches Ok(b) ==> m.created_at == b.created_at
                &&& s.get_agent_endpoint(agent_id) is Err ==> m.created_at == now
            }
        }),
{
    reveal_strlit("local_process");
    reveal_strlit("loopback_http");
    assert("local_process"@[1] == 'o' && "local_process"@[2] == 'c' && "loopback_http"@[2] == 'o');
    let r = s.create_agent_endpoint(
        agent_id,
        transport,
        endpoint,
        auth_ref,
        allowed_event_kinds,
        resolved,
        now,
    ).1;
    if r is Ok {
        table::lemma_put_then_row::<AgentEndpoint>(s.agent_endpoints, r->Ok_0);
        table::lemma_put_keeps_others::<AgentEndpoint>(s.agent_endpoints, r->Ok_0, other);
    }
}

/// Switching an endpoint on or off changes that, and the time of the last change; all else about it,
/// every other endpoint, and the rest of the registry stay as they are.
pub proof fn law_switching_changes_only_that(
    s: StoreModel,
    agent_id: Seq<char>,
    enabled: bool,
    now: Seq<char>,
    other: Seq<char>,
)
    requires
        other != agent_id,
    ensures
        ({
            let (t, r) = s.set_agent_endpoint_enabled(agent_id, enabled, now);
            &&& s.get_agent_endpoint(agent_id) matches Ok(m) ==> r == Ok::<
                EndpointModel,
                StoreErrorModel,
            >(EndpointModel { enabled, updated_at: now, ..m }) && t.get_agent_endpoint(agent_id) == r
            &&& s.get_agent_endpoint(agent_id) is Err ==> r is Err && t == s
            &&& t.get_agent_endpoint(other) == s.get_agent_endpoint(other)
            &&& t == (StoreModel { agent_endpoints: t.agent_endpoints, ..s })
        }),
{
    table::lemma_place::<AgentEndpoint>(s.agent_endpoints, agent_id);
    let r = s.set_agent_endpoint_enabled(agent_id, enabled, now).1;
    if r is Ok {
        table::lemma_put_then_row::<AgentEndpoint>(s.agent_endpoints, r->Ok_0);
        table::lemma_put_keeps_others::<AgentEndpoint>(s.agent_endpoints, r->Ok_0, other);
    }
}

/// The host of a URL is what stands between `http://` and the first slash behind it, without a port: a
/// colon and what follows it.
pub proof fn law_host_stands_before_port_and_path(host: Seq<char>, port: Seq<char>, path: Seq<char>)
    requires
        forall|i: int|
            0 <= i < host.len() ==> #[trigger] host[i] != '/' && host[i] != ':' && host[i] != '@'
                && host[i] != '[',
        forall|i: int|
            0 <= i < port.len() ==> #[trigger] port[i] != '/' && port[i] != ':' && port[i] != '@',
    ensures
        host_of("http://"@ + host) == Some(host),
        host_of("http://"@ + host + seq!['/'] + path) == Some(host),
        host_of("http://"@ + host + seq![':'] + port) == Some(host),
        host_of("http://"@ + host + seq![':'] + port + seq!['/'] + path) == Some(host),
{
    let scheme = "http://"@;
    reveal_strlit("http://");
    let with_port = host + seq![':'] + port;
    lemma_host_alone(host);
    lemma_host_with_port(host, port);
    lemma_after_scheme(host);
    lemma_after_scheme(host + seq!['/'] + path);
    lemma_after_scheme(with_port);
    lemma_after_scheme(with_port + seq!['/'] + path);
    text::lemma_split_none(host, '/');
    lemma_split_at_slash(host, path);
    assert forall|k: int| 0 <= k < with_port.len() implies with_port[k] != '/' by {
        if k < host.len() {
            assert(with_port[k] == host[k]);
        } else if k > host.len() {
            assert(with_port[k] == port[k - host.len() - 1]);
        }
    }
    text::lemma_split_none(with_port, '/');
    lemma_split_at_slash(with_port, path);
    assert(scheme + host + seq!['/'] + path =~= scheme + (host + seq!['/'] + path));
    assert(scheme + host + seq![':'] + port =~= scheme + with_port);
    assert(scheme + host + seq![':'] + port + seq!['/'] + path =~= scheme + (with_port + seq!['/']
        + path));
}

proof fn lemma_after_scheme(rest: Seq<char>)
    ensures
        text::after_prefix("http://"@ + rest, "http://"@) == Some(rest),
{
    let scheme = "http://"@;
    assert((scheme + rest).take(scheme.len() as int) =~= scheme);
    assert((scheme + rest).skip(scheme.len() as int) =~= rest);
}

proof fn lemma_split_at_slash(head: Seq<char>, path: Seq<char>)
    requires
        forall|k: int| 0 <= k < head.len() ==> head[k] != '/',
    ensures
        text::split_at_char(head + seq!['/'] + path, '/') == Some((head, path)),
{
    let all = head + seq!['/'] + path;
    assert forall|k: int| 0 <= k < head.len() implies all[k] != '/' by {
        assert(all[k] == head[k]);
    }
    text::lemma_split_at(all, '/', head.len() as int);
    assert(all.take(head.len() as int) =~= head);
    assert(all.skip(head.len() as int + 1) =~= path);
}

proof fn lemma_no_place(s: Seq<char>, c: char)
    requires
        forall|i: int| 0 <= i < s.len() ==> s[i] != c,
    ensures
        last_place(s, c) is None,
    decreases s.len(),
{
    if s.len() > 0 {
        assert forall|i: int| 0 <= i < s.drop_last().len() implies s.drop_last()[i] != c by {
            assert(s.drop_last()[i] == s[i]);
        }
        lemma_no_place(s.drop_last(), c);
    }
}

proof fn lemma_place_behind(head: Seq<char>, tail: Seq<char>, c: char)
    requires
        forall|i: int| 0 <= i < tail.len() ==> tail[i] != c,
    ensures
        last_place(head + seq![c] + tail, c) == Some(head.len() as int),
    decreases tail.len(),
{
    let all = head + seq![c] + tail;
    if tail.len() > 0 {
        assert forall|i: int| 0 <= i < tail.drop_last().len() implies tail.drop_last()[i] != c by {
            assert(tail.drop_last()[i] == tail[i]);
        }
        lemma_place_behind(head, tail.drop_last(), c);
        assert(all.drop_last() =~= head + seq![c] + tail.drop_last());
        assert(all.last() == tail.last());
    } else {
        assert(all.last() == c);
    }
}

proof fn lemma_host_alone(host: Seq<char>)
    requires
        forall|i: int|
            0 <= i < host.len() ==> #[trigger] host[i] != '/' && host[i] != ':' && host[i] != '@'
                && host[i] != '[',
    ensures
        without_port(host) == host,
        !host.contains('@'),
{
    lemma_no_place(host, ':');
}

proof fn lemma_host_with_port(host: Seq<char>, port: Seq<char>)
    requires
        forall|i: int|
            0 <= i < host.len() ==> #[trigger] host[i] != '/' && host[i] != ':' && host[i] != '@'
                && host[i] != '[',
        forall|i: int|
            0 <= i < port.len() ==> #[trigger] port[i] != '/' && port[i] != ':' && port[i] != '@',
    ensures
        without_port(host + seq![':'] + port) == host,
        !(host + seq![':'] + port).contains('@'),
{
    let all = host + seq![':'] + port;
    lemma_place_behind(host, port, ':');
    assert(all.take(host.len() as int) =~= host);
    if host.len() > 0 {
        assert(all[0] == host[0]);
    } else {
        assert(all[0] == ':');
    }
    assert forall|k: int| 0 <= k < all.len() implies all[k] != '@' by {
        if k < host.len() {
            assert(all[k] == host[k]);
        } else if k > host.len() {
            assert(all[k] == port[k - host.len() - 1]);
        }
    }
}

} // verus!

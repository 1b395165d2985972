//! Handing wake events over to agents: which are due, and what an attempt does to an event.
use crate::calendar;
use crate::clock;
use crate::store::device;
use crate::store::error;
use crate::store::error::{StoreError, StoreErrorModel};
use crate::store::groups;
use crate::store::table;
use crate::store::table::Record;
use crate::store::wake_events;
use crate::store::wake_events::{WakeEvent, WakeEventModel, WakeEventStatus};
use crate::store::{Store, StoreModel};
use crate::text;
use vstd::arithmetic::power2;
use vstd::prelude::*;

verus! {

/// How often delivery is tried, and how long it waits in between: the base delay after the first failed
/// attempt, twice as long after each further one, up to the longest.
#[derive(Debug, Clone, Copy)]
pub struct DeliveryPolicy {
    pub max_attempts: i64,
    pub base_delay_s: u32,
    pub max_delay_s: u32,
}

impl DeliveryPolicy {
    /// The policy of the application: five attempts, half a minute after the first, an hour at most.
    pub fn standard() -> (r: DeliveryPolicy)
        ensures
            r == (DeliveryPolicy { max_attempts: 5, base_delay_s: 30, max_delay_s: 3600 }),
    {
        DeliveryPolicy { max_attempts: 5, base_delay_s: 30, max_delay_s: 3600 }
    }

    /// The wait after the given number of failed attempts.
    pub open spec fn delay(self, attempts: int) -> int
        decreases attempts,
    {
        let wanted = if attempts <= 1 {
            self.base_delay_s as int
        } else {
            2 * self.delay(attempts - 1)
        };
        if wanted < self.max_delay_s {
            wanted
        } else {
            self.max_delay_s as int
        }
    }

    /// The wait after the given number of failed attempts.
    pub fn delay_s(&self, attempts: i64) -> (r: u32)
        ensures
            r == self.delay(attempts as int),
    {
        let mut i: i64 = 1;
        let mut wait: u32 = if self.base_delay_s < self.max_delay_s {
            self.base_delay_s
        } else {
            self.max_delay_s
        };
        assert(wait == self.delay(1));
        if attempts <= 1 {
            assert(wait == self.delay(attempts as int));
            return wait;
        }
        while i < attempts && wait < self.max_delay_s && wait > 0
            invariant
                1 <= i <= attempts,
                wait == self.delay(i as int),
                wait <= self.max_delay_s,
            decreases attempts - i,
        {
            assert(self.delay(i + 1) == if 2 * wait < self.max_delay_s {
                2 * wait as int
            } else {
                self.max_delay_s as int
            });
            wait = if (wait as u64) * 2 < self.max_delay_s as u64 {
                wait * 2
            } else {
                self.max_delay_s
            };
            i = i + 1;
        }
        proof {
            if i < attempts {
                self.lemma_delay_stays(i as int, attempts as int);
            }
        }
        wait
    }

    /// A wait that reached the longest, or is none at all, stays so.
    proof fn lemma_delay_stays(self, i: int, j: int)
        requires
            1 <= i <= j,
            self.delay(i) == self.max_delay_s || self.delay(i) == 0,
        ensures
            self.delay(j) == self.delay(i),
        decreases j,
    {
        if i < j {
            self.lemma_delay_stays(i, j - 1);
        }
    }
}

/// Whether an event may be handed over at a time.
pub open spec fn is_open(m: WakeEventModel, now: Seq<char>) -> bool {
    match m.status {
        WakeEventStatus::Pending => true,
        WakeEventStatus::RetryWait => match m.next_attempt_at {
            Some(at) => !text::before(now, at),
            None => true,
        },
        _ => false,
    }
}

/// An instant as a stamp: its UTC text, with the offset written out.
pub open spec fn stamp(ns: int) -> Seq<char> {
    let s = groups::utc_or_empty(ns);
    if s.len() > 0 && s.last() == 'Z' {
        s.drop_last() + "+00:00"@
    } else {
        s
    }
}

/// An instant as a stamp.
pub fn stamp_text(ns: i128) -> (r: String)
    ensures
        r@ == stamp(ns as int),
{
    let s = groups::utc_text(ns);
    let x = text::chars_of(s.as_str());
    let n: usize = x.len();
    if n > 0 && x[n - 1] == 'Z' {
        let head = text::text_of(&x, 0, n - 1);
        assert(head@ =~= s@.drop_last());
        text::join(head.as_str(), "+00:00")
    } else {
        s
    }
}

/// Why an event is not where an operation needs it.
pub open spec fn out_of_turn(what: Seq<char>, m: WakeEventModel, wanted: Seq<char>) -> StoreErrorModel {
    StoreErrorModel::InvalidInput(
        what + m.event_id + ": status is '"@ + m.status.name() + wanted,
    )
}

impl StoreModel {
    /// Whether an event is to be handed over at a time: it is open, and its agent has an endpoint that
    /// is switched on.
    pub open spec fn is_deliverable(self, m: WakeEventModel, now: Seq<char>) -> bool {
        is_open(m, now) && (self.get_agent_endpoint(m.agent_id) matches Ok(e) && e.enabled)
    }

    /// Those of the events, the latest first, that are to be handed over, the earliest first.
    pub open spec fn deliverable(self, listed: Seq<WakeEventModel>, now: Seq<char>) -> Seq<
        WakeEventModel,
    >
        decreases listed.len(),
    {
        if listed.len() == 0 {
            Seq::empty()
        } else {
            let rest = self.deliverable(listed.drop_last(), now);
            if self.is_deliverable(listed.last(), now) {
                seq![listed.last()] + rest
            } else {
                rest
            }
        }
    }

    /// The first events that are to be handed over at a time.
    pub open spec fn due_for_delivery(self, now: Seq<char>, limit: nat) -> Seq<WakeEventModel> {
        let all = self.deliverable(table::newest_first::<WakeEvent>(self.wake_events), now);
        if all.len() < limit {
            all
        } else {
            all.take(limit as int)
        }
    }

    /// Claims an event for an attempt.
    pub open spec fn mark_wake_event_delivering(self, id: Seq<char>) -> (
        StoreModel,
        Result<WakeEventModel, StoreErrorModel>,
    ) {
        match table::row::<WakeEvent>(self.wake_events, id) {
            None => (self, Err(wake_events::unknown_event(id))),
            Some(m) => if m.status == WakeEventStatus::Pending || m.status
                == WakeEventStatus::RetryWait {
                let after = WakeEventModel {
                    status: WakeEventStatus::Delivering,
                    attempt_count: device::saturated(m.attempt_count + 1) as i64,
                    ..m
                };
                (self.with_event(after), Ok(after))
            } else {
                (
                    self,
                    Err(
                        out_of_turn(
                            "cannot deliver wake event "@,
                            m,
                            "', not 'pending' or 'retry_wait'"@,
                        ),
                    ),
                )
            },
        }
    }

    /// Records that an attempt succeeded.
    pub open spec fn record_delivery_success(self, id: Seq<char>, now: Seq<char>) -> (
        StoreModel,
        Result<WakeEventModel, StoreErrorModel>,
    ) {
        match table::row::<WakeEvent>(self.wake_events, id) {
            None => (self, Err(wake_events::unknown_event(id))),
            Some(m) => if m.status == WakeEventStatus::Delivering {
                let after = WakeEventModel {
                    status: WakeEventStatus::Delivered,
                    delivered_at: Some(now),
                    next_attempt_at: None,
                    last_error: None,
                    ..m
                };
                (self.with_event(after), Ok(after))
            } else {
                (
                    self,
                    Err(out_of_turn("cannot record delivery of wake event "@, m, "', not 'delivering'"@)),
                )
            },
        }
    }

    /// Records that an attempt failed: the event waits for the next one, or is given up after the last.
    pub open spec fn record_delivery_failure(
        self,
        id: Seq<char>,
        reason: Seq<char>,
        policy: DeliveryPolicy,
        now_ns: int,
    ) -> (StoreModel, Result<WakeEventModel, StoreErrorModel>) {
        match table::row::<WakeEvent>(self.wake_events, id) {
            None => (self, Err(wake_events::unknown_event(id))),
            Some(m) => if m.status == WakeEventStatus::Delivering {
                let after = if m.attempt_count >= policy.max_attempts {
                    WakeEventModel {
                        status: WakeEventStatus::DeadLetter,
                        next_attempt_at: None,
                        last_error: Some(reason),
                        ..m
                    }
                } else {
                    WakeEventModel {
                        status: WakeEventStatus::RetryWait,
                        next_attempt_at: Some(
                            stamp(now_ns + policy.delay(m.attempt_count as int) * 1_000_000_000),
                        ),
                        last_error: Some(reason),
                        ..m
                    }
                };
                (self.with_event(after), Ok(after))
            } else {
                (
                    self,
                    Err(
                        out_of_turn(
                            "cannot record delivery failure of wake event "@,
                            m,
                            "', not 'delivering'"@,
                        ),
                    ),
                )
            },
        }
    }
}

/// Why an event is not where an operation needs it.
fn refuse(what: &str, m: &WakeEvent, wanted: &str) -> (r: StoreError)
    ensures
        r@ == out_of_turn(what@, m@, wanted@),
{
    let head = text::join3(what, m.event_id.as_str(), ": status is '");
    StoreError::InvalidInput(text::join3(head.as_str(), m.status.as_str(), wanted))
}

impl Store {
    /// Whether an event is to be handed over at a time.
    fn deliverable(&self, m: &WakeEvent, now: &str) -> (r: bool)
        ensures
            r == self@.is_deliverable(m@, now@),
    {
        let open: bool = match m.status {
            WakeEventStatus::Pending => true,
            WakeEventStatus::RetryWait => match &m.next_attempt_at {
                Some(at) => !text::is_before(now, at.as_str()),
                None => true,
            },
            _ => false,
        };
        if !open {
            return false;
        }
        match self.get_agent_endpoint(m.agent_id.as_str()) {
            Ok(e) => e.enabled,
            Err(_) => false,
        }
    }

    /// The first events that are to be handed over at a time, the earliest first: those that are open,
    /// and whose agent has an endpoint that is switched on.
    pub fn due_for_delivery(&self, now: &str, limit: u32) -> (r: Vec<WakeEvent>)
        ensures
            table::models(r@) == self@.due_for_delivery(now@, limit as nat),
    {
        let events = table::list_newest(&self.wake_events);
        let ghost listed = table::models(events@);
        let ghost all = self@.deliverable(listed, now@);
        let mut out: Vec<WakeEvent> = Vec::new();
        let mut taken: u32 = 0;
        let mut i: usize = events.len();
        assert(listed.take(i as int) =~= listed);
        assert(all =~= table::models(out@) + self@.deliverable(listed.take(i as int), now@));
        while i > 0 && taken < limit
            invariant
                i <= events.len(),
                taken <= limit,
                out@.len() == taken,
                listed == table::models(events@),
                all == table::models(out@) + self@.deliverable(listed.take(i as int), now@),
            decreases i,
        {
            let m: &WakeEvent = &events[i - 1];
            let ghost before = table::models(out@);
            assert(listed.take(i as int).drop_last() =~= listed.take(i - 1));
            assert(listed.take(i as int).last() == m@);
            if self.deliverable(m, now) {
                out.push(m.copy());
                taken = taken + 1;
                assert(table::models(out@) =~= before.push(m@));
                assert(before + (seq![m@] + self@.deliverable(listed.take(i - 1), now@))
                    =~= table::models(out@) + self@.deliverable(listed.take(i - 1), now@));
            }
            i = i - 1;
        }
        if taken == limit {
            assert(all.take(limit as int) =~= table::models(out@));
        } else {
            assert(listed.take(0) =~= Seq::<WakeEventModel>::empty());
            assert(all =~= table::models(out@));
        }
        proof {
            if all.len() == limit {
                assert(all.take(limit as int) =~= all);
            }
        }
        out
    }

    /// Claims an event for an attempt, right before it is made.
    pub fn mark_wake_event_delivering(&mut self, event_id: &str) -> (r: Result<WakeEvent, StoreError>)
        ensures
            (final(self)@, error::outcome(r)) == old(self)@.mark_wake_event_delivering(event_id@),
    {
        let mut m: WakeEvent = match table::get(&self.wake_events, event_id) {
            Some(m) => m,
            None => {
                return Err(
                    StoreError::InvalidInput(text::join("unknown wake event: ", event_id)),
                );
            },
        };
        if m.status != WakeEventStatus::Pending && m.status != WakeEventStatus::RetryWait {
            return Err(
                refuse("cannot deliver wake event ", &m, "', not 'pending' or 'retry_wait'"),
            );
        }
        m.status = WakeEventStatus::Delivering;
        if m.attempt_count < i64::MAX {
            m.attempt_count = m.attempt_count + 1;
        }
        let stored: WakeEvent = m.copy();
        table::put_row(&mut self.wake_events, stored);
        Ok(m)
    }

    /// Records, at a given time, that an attempt succeeded.
    pub fn record_delivery_success_at(&mut self, event_id: &str, now: &str) -> (r: Result<
        WakeEvent,
        StoreError,
    >)
        ensures
            (final(self)@, error::outcome(r)) == old(self)@.record_delivery_success(event_id@, now@),
    {
        let mut m: WakeEvent = match table::get(&self.wake_events, event_id) {
            Some(m) => m,
            None => {
                return Err(
                    StoreError::InvalidInput(text::join("unknown wake event: ", event_id)),
                );
            },
        };
        if m.status != WakeEventStatus::Delivering {
            return Err(
                refuse("cannot record delivery of wake event ", &m, "', not 'delivering'"),
            );
        }
        m.status = WakeEventStatus::Delivered;
        m.delivered_at = Some(now.to_owned());
        m.next_attempt_at = None;
        m.last_error = None;
        let stored: WakeEvent = m.copy();
        table::put_row(&mut self.wake_events, stored);
        Ok(m)
    }

    /// Records that an attempt succeeded.
    pub fn record_delivery_success(&mut self, event_id: &str) -> (r: Result<WakeEvent, StoreError>)
        ensures
            exists|now: Seq<char>|
                clock::is_utc_stamp(now) && (final(self)@, error::outcome(r))
                    == #[trigger] old(self)@.record_delivery_success(event_id@, now),
    {
        let now = clock::now_text();
        self.record_delivery_success_at(event_id, now.as_str())
    }

    /// Records, at a given time, that an attempt failed.
    pub fn record_delivery_failure_at(
        &mut self,
        event_id: &str,
        reason: &str,
        policy: DeliveryPolicy,
        now_ns: i128,
    ) -> (r: Result<WakeEvent, StoreError>)
        requires
            -(clock::MAX_DURATION_NS as int) <= now_ns <= clock::MAX_DURATION_NS,
        ensures
            (final(self)@, error::outcome(r)) == old(self)@.record_delivery_failure(
                event_id@,
                reason@,
                policy,
                now_ns as int,
            ),
    {
        let mut m: WakeEvent = match table::get(&self.wake_events, event_id) {
            Some(m) => m,
            None => {
                return Err(
                    StoreError::InvalidInput(text::join("unknown wake event: ", event_id)),
                );
            },
        };
        if m.status != WakeEventStatus::Delivering {
            return Err(
                refuse("cannot record delivery failure of wake event ", &m, "', not 'delivering'"),
            );
        }
        m.last_error = Some(reason.to_owned());
        if m.attempt_count >= policy.max_attempts {
            m.status = WakeEventStatus::DeadLetter;
            m.next_attempt_at = None;
        } else {
            let wait: u32 = policy.delay_s(m.attempt_count);
            m.status = WakeEventStatus::RetryWait;
            m.next_attempt_at = Some(stamp_text(now_ns + wait as i128 * 1_000_000_000));
        }
        let stored: WakeEvent = m.copy();
        table::put_row(&mut self.wake_events, stored);
        Ok(m)
    }

    /// Records that an attempt failed: the event waits for the next one, or is given up after the last.
    pub fn record_delivery_failure(
        &mut self,
        event_id: &str,
        reason: &str,
        policy: DeliveryPolicy,
    ) -> (r: Result<WakeEvent, StoreError>)
        ensures
            exists|now_ns: int|
                -(clock::MAX_DURATION_NS as int) <= now_ns <= clock::MAX_DURATION_NS && (
                final(self)@, error::outcome(r)) == #[trigger] old(self)@.record_delivery_failure(
                    event_id@,
                    reason@,
                    policy,
                    now_ns,
                ),
    {
        let now_ns: i128 = clock::now_ns();
        self.record_delivery_failure_at(event_id, reason, policy, now_ns)
    }
}

/// An event whose agent has no endpoint, or one that is switched off, is left for the agent to ask for.
pub proof fn law_no_endpoint_no_delivery(s: StoreModel, m: WakeEventModel, now: Seq<char>)
    requires
        s.get_agent_endpoint(m.agent_id) matches Ok(e) ==> !e.enabled,
    ensures
        !s.is_deliverable(m, now),
{
}

/// A failed attempt is not lost: the event waits for another one, or after the last attempt is given up
/// for good; either way the reason is on record.
pub proof fn law_failed_attempt_is_kept(
    s: StoreModel,
    id: Seq<char>,
    reason: Seq<char>,
    policy: DeliveryPolicy,
    now_ns: int,
)
    requires
        s.get_wake_event(id) is Ok,
        s.get_wake_event(id)->Ok_0.status == WakeEventStatus::Delivering,
    ensures
        ({
            let t = s.record_delivery_failure(id, reason, policy, now_ns).0;
            let before = s.get_wake_event(id)->Ok_0;
            t.get_wake_event(id) matches Ok(m) && m.last_error == Some(reason) && m.attempt_count
                == before.attempt_count && m.status == (if before.attempt_count
                < policy.max_attempts {
                WakeEventStatus::RetryWait
            } else {
                WakeEventStatus::DeadLetter
            })
        }),
{
    table::lemma_place::<WakeEvent>(s.wake_events, id);
    let r = s.record_delivery_failure(id, reason, policy, now_ns).1;
    table::lemma_put_then_row::<WakeEvent>(s.wake_events, r->Ok_0);
}

/// The wait grows with every failed attempt, and never beyond the longest.
pub proof fn law_wait_grows(policy: DeliveryPolicy, attempts: int)
    requires
        attempts >= 1,
    ensures
        policy.delay(attempts) <= policy.delay(attempts + 1) <= policy.max_delay_s,
        policy.delay(attempts + 1) == 2 * policy.delay(attempts) || policy.delay(attempts + 1)
            == policy.max_delay_s,
    decreases attempts,
{
    if attempts > 1 {
        law_wait_grows(policy, attempts - 1);
    } else {
        assert(policy.delay(1) >= 0);
    }
}

/// What was handed over, or given up, is not handed over again.
pub proof fn law_delivered_is_final(s: StoreModel, m: WakeEventModel, now: Seq<char>)
    requires
        m.status == WakeEventStatus::Delivered || m.status == WakeEventStatus::DeadLetter || m.status
            == WakeEventStatus::Acknowledged || m.status == WakeEventStatus::Completed,
    ensures
        !s.is_deliverable(m, now),
{
}

/// The wait after a failed attempt is the base delay, doubled for every attempt before it, and never
/// more than the longest.
pub proof fn law_wait_doubles(policy: DeliveryPolicy, attempts: nat)
    requires
        attempts >= 1,
    ensures
        policy.delay(attempts as int) == (if policy.base_delay_s * power2::pow2((attempts - 1) as nat)
            < policy.max_delay_s {
            policy.base_delay_s * power2::pow2((attempts - 1) as nat)
        } else {
            policy.max_delay_s as int
        }),
    decreases attempts,
{
    let p = power2::pow2((attempts - 1) as nat);
    power2::lemma_pow2_pos((attempts - 1) as nat);
    if attempts == 1 {
        power2::lemma2_to64();
        assert(policy.base_delay_s * p == policy.base_delay_s) by (nonlinear_arith)
            requires
                p == 1,
        ;
    } else {
        law_wait_doubles(policy, (attempts - 1) as nat);
        let q = power2::pow2((attempts - 2) as nat);
        power2::lemma_pow2_unfold((attempts - 1) as nat);
        assert(policy.base_delay_s * p == 2 * (policy.base_delay_s * q)) by (nonlinear_arith)
            requires
                p == 2 * q,
        ;
    }
}

/// Picking what is to be handed over is filtering from the end.
proof fn lemma_deliverable_is_filter(
    s: StoreModel,
    listed: Seq<WakeEventModel>,
    now: Seq<char>,
    keep: spec_fn(WakeEventModel) -> bool,
)
    requires
        forall|m: WakeEventModel| #[trigger] keep(m) == s.is_deliverable(m, now),
    ensures
        s.deliverable(listed, now) == listed.reverse().filter(keep),
    decreases listed.len(),
{
    if listed.len() == 0 {
        reveal(Seq::filter);
        assert(listed.reverse() =~= Seq::<WakeEventModel>::empty());
    } else {
        let rest = listed.drop_last();
        let first = seq![listed.last()];
        lemma_deliverable_is_filter(s, rest, now, keep);
        assert(listed.reverse() =~= first + rest.reverse());
        Seq::filter_distributes_over_add(first, rest.reverse(), keep);
        assert(first.filter(keep) =~= if keep(listed.last()) {
            first
        } else {
            Seq::empty()
        }) by {
            reveal_with_fuel(Seq::<WakeEventModel>::filter, 2);
            assert(first.drop_last() =~= Seq::<WakeEventModel>::empty());
            assert(Seq::<WakeEventModel>::empty().push(listed.last()) =~= first);
        }
    }
}

/// What is handed over at a time: of the events, the earliest first, those that are pending, or whose
/// wait is over, and whose agent has an endpoint that is switched on; no more than asked for, and the
/// earliest of them.
pub proof fn law_due_for_delivery_are_the_earliest_open(s: StoreModel, now: Seq<char>, limit: nat)
    ensures
        ({
            let open = s.list_wake_events(None, None).reverse().filter(
                |m: WakeEventModel|
                    {
                        &&& m.status == WakeEventStatus::Pending || (m.status
                            == WakeEventStatus::RetryWait && (m.next_attempt_at matches Some(at)
                            ==> !text::before(now, at)))
                        &&& s.get_agent_endpoint(m.agent_id) matches Ok(e) && e.enabled
                    },
            );
            s.due_for_delivery(now, limit) == open.take(
                if limit < open.len() {
                    limit as int
                } else {
                    open.len() as int
                },
            )
        }),
{
    let listed = table::newest_first::<WakeEvent>(s.wake_events);
    let keep = |m: WakeEventModel|
        {
            &&& m.status == WakeEventStatus::Pending || (m.status == WakeEventStatus::RetryWait && (
            m.next_attempt_at matches Some(at) ==> !text::before(now, at)))
            &&& s.get_agent_endpoint(m.agent_id) matches Ok(e) && e.enabled
        };
    wake_events::lemma_no_filter_keeps_all(listed);
    lemma_deliverable_is_filter(s, listed, now, keep);
    let open = listed.reverse().filter(keep);
    assert(open.take(open.len() as int) =~= open);
}

/// Claiming an event for an attempt counts the attempt; recording what came of it ends the attempt. Each
/// is done from its own status only, and changes nothing else: not what the event is about, no other
/// event, nothing else in the registry.
pub proof fn law_attempt_changes_only_its_event(
    s: StoreModel,
    id: Seq<char>,
    now: Seq<char>,
    reason: Seq<char>,
    policy: DeliveryPolicy,
    now_ns: int,
    other: Seq<char>,
)
    requires
        other != id,
    ensures
        ({
            let (c, claimed) = s.mark_wake_event_delivering(id);
            let (d, delivered) = s.record_delivery_success(id, now);
            let (f, failed) = s.record_delivery_failure(id, reason, policy, now_ns);
            &&& claimed is Ok <==> (s.get_wake_event(id) matches Ok(m) && (m.status
                == WakeEventStatus::Pending || m.status == WakeEventStatus::RetryWait))
            &&& delivered is Ok <==> (s.get_wake_event(id) matches Ok(m) && m.status
                == WakeEventStatus::Delivering)
            &&& failed is Ok <==> (s.get_wake_event(id) matches Ok(m) && m.status
                == WakeEventStatus::Delivering)
            &&& claimed is Err ==> c == s
            &&& delivered is Err ==> d == s
            &&& failed is Err ==> f == s
            &&& c.get_wake_event(other) == s.get_wake_event(other)
            &&& d.get_wake_event(other) == s.get_wake_event(other)
            &&& f.get_wake_event(other) == s.get_wake_event(other)
            &&& c == (StoreModel { wake_events: c.wake_events, ..s })
            &&& d == (StoreModel { wake_events: d.wake_events, ..s })
            &&& f == (StoreModel { wake_events: f.wake_events, ..s })
            &&& claimed matches Ok(x) ==> {
                let m = s.get_wake_event(id)->Ok_0;
                &&& c.get_wake_event(id) == claimed
                &&& m.attempt_count < i64::MAX ==> x.attempt_count == m.attempt_count + 1
                &&& x == (WakeEventModel {
                    status: WakeEventStatus::Delivering,
                    attempt_count: x.attempt_count,
                    ..m
                })
            }
            &&& delivered matches Ok(x) ==> {
                let m = s.get_wake_event(id)->Ok_0;
                &&& d.get_wake_event(id) == delivered
                &&& x == (WakeEventModel {
                    status: WakeEventStatus::Delivered,
                    delivered_at: Some(now),
                    next_attempt_at: None,
                    last_error: None,
                    ..m
                })
            }
            &&& failed matches Ok(x) ==> {
                let m = s.get_wake_event(id)->Ok_0;
                &&& f.get_wake_event(id) == failed
                &&& x == (WakeEventModel {
                    status: x.status,
                    next_attempt_at: x.next_attempt_at,
                    last_error: Some(reason),
                    ..m
                })
                &&& m.attempt_count < policy.max_attempts ==> x.status == WakeEventStatus::RetryWait
                    && x.next_attempt_at == Some(
                    stamp(now_ns + policy.delay(m.attempt_count as int) * 1_000_000_000),
                )
                &&& m.attempt_count >= policy.max_attempts ==> x.status == WakeEventStatus::DeadLetter
                    && x.next_attempt_at is None
            }
        }),
{
    table::lemma_place::<WakeEvent>(s.wake_events, id);
    let claimed = s.mark_wake_event_delivering(id).1;
    if claimed is Ok {
        table::lemma_put_then_row::<WakeEvent>(s.wake_events, claimed->Ok_0);
        table::lemma_put_keeps_others::<WakeEvent>(s.wake_events, claimed->Ok_0, other);
    }
    let delivered = s.record_delivery_success(id, now).1;
    if delivered is Ok {
        table::lemma_put_then_row::<WakeEvent>(s.wake_events, delivered->Ok_0);
        table::lemma_put_keeps_others::<WakeEvent>(s.wake_events, delivered->Ok_0, other);
    }
    let failed = s.record_delivery_failure(id, reason, policy, now_ns).1;
    if failed is Ok {
        table::lemma_put_then_row::<WakeEvent>(s.wake_events, failed->Ok_0);
        table::lemma_put_keeps_others::<WakeEvent>(s.wake_events, failed->Ok_0, other);
    }
}

/// A stamp is the UTC text of its instant, with the offset written as `+00:00`.
pub proof fn law_stamp_is_the_utc_text(ns: int)
    requires
        -8334601228800 <= ns / 1_000_000_000 <= 8210266876799,
    ensures
        ({
            let s = calendar::rfc3339_text((ns / 1_000_000_000) as i64, (ns % 1_000_000_000) as u32, 0);
            &&& s.len() > 0 && s.last() == 'Z' ==> stamp(ns) == s.drop_last() + "+00:00"@
            &&& s.len() == 0 || s.last() != 'Z' ==> stamp(ns) == s
        }),
{
}

} // verus!

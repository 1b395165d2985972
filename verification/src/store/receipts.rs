//! Decision receipts: what an agent says it did about a wake event. A receipt is filed, and never acted
//! on.
use crate::clock;
use crate::store::error;
use crate::store::error::{StoreError, StoreErrorModel};
use crate::store::table;
use crate::store::table::{Record, Row};
use crate::store::{Store, StoreModel};
use crate::text;
use vstd::prelude::*;

verus! {

/// A receipt. What the agent says of its tool calls, its next wake and its cost is JSON text.
#[derive(Debug, Clone)]
pub struct DecisionReceipt {
    pub receipt_id: String,
    pub event_id: String,
    pub agent_id: String,
    pub run_id: String,
    pub decision: String,
    pub summary: Option<String>,
    pub tool_calls: Option<String>,
    pub next_wake: Option<String>,
    pub cost: Option<String>,
    pub created_at: String,
}

#[verifier::ext_equal]
pub struct ReceiptModel {
    pub receipt_id: Seq<char>,
    pub event_id: Seq<char>,
    pub agent_id: Seq<char>,
    pub run_id: Seq<char>,
    pub decision: Seq<char>,
    pub summary: Option<Seq<char>>,
    pub tool_calls: Option<Seq<char>>,
    pub next_wake: Option<Seq<char>>,
    pub cost: Option<Seq<char>>,
    pub created_at: Seq<char>,
}

impl View for DecisionReceipt {
    type V = ReceiptModel;

    open spec fn view(&self) -> ReceiptModel {
        ReceiptModel {
            receipt_id: self.receipt_id@,
            event_id: self.event_id@,
            agent_id: self.agent_id@,
            run_id: self.run_id@,
            decision: self.decision@,
            summary: text::opt(self.summary),
            tool_calls: text::opt(self.tool_calls),
            next_wake: text::opt(self.next_wake),
            cost: text::opt(self.cost),
            created_at: self.created_at@,
        }
    }
}

impl Record for DecisionReceipt {
    fn copy(&self) -> (r: DecisionReceipt) {
        DecisionReceipt {
            receipt_id: self.receipt_id.clone(),
            event_id: self.event_id.clone(),
            agent_id: self.agent_id.clone(),
            run_id: self.run_id.clone(),
            decision: self.decision.clone(),
            summary: text::copy_opt(&self.summary),
            tool_calls: text::copy_opt(&self.tool_calls),
            next_wake: text::copy_opt(&self.next_wake),
            cost: text::copy_opt(&self.cost),
            created_at: self.created_at.clone(),
        }
    }
}

impl Row for DecisionReceipt {
    open spec fn key_of(m: ReceiptModel) -> Seq<char> {
        m.receipt_id
    }

    open spec fn stamp_of(m: ReceiptModel) -> Seq<char> {
        m.created_at
    }

    fn key(&self) -> (r: &str) {
        self.receipt_id.as_str()
    }

    fn stamp(&self) -> (r: &str) {
        self.created_at.as_str()
    }
}

/// The latest receipt of an event; of several of one time, the one filed last.
pub open spec fn latest_of(s: Seq<ReceiptModel>, event_id: Seq<char>) -> Option<ReceiptModel>
    decreases s.len(),
{
    if s.len() == 0 {
        None
    } else {
        let before = latest_of(s.drop_last(), event_id);
        let m = s.last();
        if m.event_id != event_id {
            before
        } else {
            match before {
                Some(b) => if text::before(m.created_at, b.created_at) {
                    before
                } else {
                    Some(m)
                },
                None => Some(m),
            }
        }
    }
}

impl StoreModel {
    /// Files a receipt for an event that is on record.
    pub open spec fn create_decision_receipt(
        self,
        event_id: Seq<char>,
        agent_id: Seq<char>,
        run_id: Seq<char>,
        decision: Seq<char>,
        summary: Option<Seq<char>>,
        tool_calls: Option<Seq<char>>,
        next_wake: Option<Seq<char>>,
        cost: Option<Seq<char>>,
        uuid: Seq<char>,
        now: Seq<char>,
    ) -> (StoreModel, Result<ReceiptModel, StoreErrorModel>) {
        if decision != "no_action"@ && decision != "action"@ {
            (
                self,
                Err(
                    StoreErrorModel::InvalidInput(
                        "decision must be 'no_action' or 'action', got '"@ + decision + "'"@,
                    ),
                ),
            )
        } else {
            match self.get_wake_event(event_id) {
                Err(e) => (self, Err(e)),
                Ok(_) => if table::row::<DecisionReceipt>(
                    self.decision_receipts,
                    "receipt:"@ + uuid,
                ) is Some {
                    (
                        self,
                        Err(
                            StoreErrorModel::Sqlite(
                                "UNIQUE constraint failed: decision_receipts.receipt_id"@,
                            ),
                        ),
                    )
                } else {
                    let receipt = ReceiptModel {
                        receipt_id: "receipt:"@ + uuid,
                        event_id,
                        agent_id,
                        run_id,
                        decision,
                        summary,
                        tool_calls,
                        next_wake,
                        cost,
                        created_at: now,
                    };
                    (
                        StoreModel {
                            decision_receipts: self.decision_receipts.push(receipt),
                            ..self
                        },
                        Ok(receipt),
                    )
                },
            }
        }
    }

    /// The latest receipt of an event.
    pub open spec fn latest_receipt(self, event_id: Seq<char>) -> Option<ReceiptModel> {
        latest_of(self.decision_receipts, event_id)
    }
}

impl Store {
    /// Files a receipt under a given uuid at a given time.
    pub fn create_decision_receipt_at(
        &mut self,
        event_id: &str,
        agent_id: &str,
        run_id: &str,
        decision: &str,
        summary: Option<&str>,
        tool_calls: Option<&str>,
        next_wake: Option<&str>,
        cost: Option<&str>,
        uuid: &str,
        now: &str,
    ) -> (r: Result<DecisionReceipt, StoreError>)
        ensures
            (final(self)@, error::outcome(r)) == old(self)@.create_decision_receipt(
                event_id@,
                agent_id@,
                run_id@,
                decision@,
                text::opt_str(summary),
                text::opt_str(tool_calls),
                text::opt_str(next_wake),
                text::opt_str(cost),
                uuid@,
                now@,
            ),
    {
        if !text::same(decision, "no_action") && !text::same(decision, "action") {
            return Err(
                StoreError::InvalidInput(
                    text::join3("decision must be 'no_action' or 'action', got '", decision, "'"),
                ),
            );
        }
        match self.get_wake_event(event_id) {
            Ok(_) => {},
            Err(e) => {
                return Err(e);
            },
        }
        let receipt_id = text::join("receipt:", uuid);
        if table::find(&self.decision_receipts, receipt_id.as_str()).is_some() {
            return Err(
                StoreError::Sqlite(
                    "UNIQUE constraint failed: decision_receipts.receipt_id".to_owned(),
                ),
            );
        }
        let receipt = DecisionReceipt {
            receipt_id,
            event_id: event_id.to_owned(),
            agent_id: agent_id.to_owned(),
            run_id: run_id.to_owned(),
            decision: decision.to_owned(),
            summary: text::own_opt(summary),
            tool_calls: text::own_opt(tool_calls),
            next_wake: text::own_opt(next_wake),
            cost: text::own_opt(cost),
            created_at: now.to_owned(),
        };
        let stored: DecisionReceipt = receipt.copy();
        self.decision_receipts.push(stored);
        assert(table::models(self.decision_receipts@) =~= table::models(
            old(self).decision_receipts@,
        ).push(receipt@));
        Ok(receipt)
    }

    /// Files a receipt, under a fresh id, at the time of the device's clock. The event must be on record;
    /// where it stands does not matter.
    pub fn create_decision_receipt(
        &mut self,
        event_id: &str,
        agent_id: &str,
        run_id: &str,
        decision: &str,
        summary: Option<&str>,
        tool_calls: Option<&str>,
        next_wake: Option<&str>,
        cost: Option<&str>,
    ) -> (r: Result<DecisionReceipt, StoreError>)
        ensures
            exists|uuid: Seq<char>, now: Seq<char>|
                clock::is_uuid(uuid) && clock::is_utc_stamp(now) && (
                final(self)@,
                error::outcome(r),
                ) == #[trigger] old(self)@.create_decision_receipt(
                    event_id@,
                    agent_id@,
                    run_id@,
                    decision@,
                    text::opt_str(summary),
                    text::opt_str(tool_calls),
                    text::opt_str(next_wake),
                    text::opt_str(cost),
                    uuid,
                    now,
                ),
    {
        let uuid = clock::fresh_uuid();
        let now = clock::now_text();
        self.create_decision_receipt_at(
            event_id,
            agent_id,
            run_id,
            decision,
            summary,
            tool_calls,
            next_wake,
            cost,
            uuid.as_str(),
            now.as_str(),
        )
    }

    /// The latest receipt of an event, if there is one.
    pub fn get_latest_decision_receipt(&self, event_id: &str) -> (r: Option<DecisionReceipt>)
        ensures
            (match r {
                Some(m) => self@.latest_receipt(event_id@) == Some(m@),
                None => self@.latest_receipt(event_id@) is None,
            }),
    {
        let rows: &Vec<DecisionReceipt> = &self.decision_receipts;
        let ghost s = table::models(rows@);
        let mut found: Option<usize> = None;
        let mut i: usize = 0;
        while i < rows.len()
            invariant
                i <= rows.len(),
                s == table::models(rows@),
                (match found {
                    Some(k) => k < i && latest_of(s.take(i as int), event_id@) == Some(s[k as int]),
                    None => latest_of(s.take(i as int), event_id@) is None,
                }),
            decreases rows.len() - i,
        {
            assert(s.take(i + 1).drop_last() =~= s.take(i as int));
            assert(s.take(i + 1).last() == rows@[i as int]@);
            assert(s[i as int] == rows@[i as int]@);
            if text::same(rows[i].event_id.as_str(), event_id) {
                match found {
                    Some(k) => {
                        assert(s[k as int] == rows@[k as int]@);
                        if !text::is_before(
                            rows[i].created_at.as_str(),
                            rows[k].created_at.as_str(),
                        ) {
                            found = Some(i);
                        }
                    },
                    None => {
                        found = Some(i);
                    },
                }
            }
            i = i + 1;
        }
        assert(s.take(i as int) =~= s);
        match found {
            Some(k) => {
                assert(s[k as int] == rows@[k as int]@);
                Some(rows[k].copy())
            },
            None => None,
        }
    }
}

/// A receipt that is filed, at a time not before the ones on record, is the latest one of its event;
/// other events keep theirs.
pub proof fn law_filed_receipt_is_latest(
    s: StoreModel,
    event_id: Seq<char>,
    agent_id: Seq<char>,
    run_id: Seq<char>,
    decision: Seq<char>,
    summary: Option<Seq<char>>,
    tool_calls: Option<Seq<char>>,
    next_wake: Option<Seq<char>>,
    cost: Option<Seq<char>>,
    uuid: Seq<char>,
    now: Seq<char>,
    other: Seq<char>,
)
    requires
        s.latest_receipt(event_id) matches Some(b) ==> !text::before(now, b.created_at),
        other != event_id,
    ensures
        ({
            let (t, r) = s.create_decision_receipt(
                event_id,
                agent_id,
                run_id,
                decision,
                summary,
                tool_calls,
                next_wake,
                cost,
                uuid,
                now,
            );
            &&& r matches Ok(receipt) ==> t.latest_receipt(event_id) == Some(receipt)
            &&& t.latest_receipt(other) == s.latest_receipt(other)
        }),
{
    let (t, r) = s.create_decision_receipt(
        event_id,
        agent_id,
        run_id,
        decision,
        summary,
        tool_calls,
        next_wake,
        cost,
        uuid,
        now,
    );
    if r is Ok {
        assert(t.decision_receipts.drop_last() =~= s.decision_receipts);
    }
}

/// A receipt is filed if and only if its decision is one of the two and its event is on record, in
/// whatever status, under an id that is free; and filing changes nothing but the receipts.
pub proof fn law_receipt_gates_nothing(
    s: StoreModel,
    event_id: Seq<char>,
    agent_id: Seq<char>,
    run_id: Seq<char>,
    decision: Seq<char>,
    summary: Option<Seq<char>>,
    tool_calls: Option<Seq<char>>,
    next_wake: Option<Seq<char>>,
    cost: Option<Seq<char>>,
    uuid: Seq<char>,
    now: Seq<char>,
)
    ensures
        ({
            let (t, r) = s.create_decision_receipt(
                event_id,
                agent_id,
                run_id,
                decision,
                summary,
                tool_calls,
                next_wake,
                cost,
                uuid,
                now,
            );
            &&& r is Ok <==> (decision == "no_action"@ || decision == "action"@) && s.get_wake_event(
                event_id,
            ) is Ok && table::row::<DecisionReceipt>(s.decision_receipts, "receipt:"@ + uuid) is None
            &&& t == (StoreModel { decision_receipts: t.decision_receipts, ..s })
        }),
{
}

/// The latest receipt of an event is one of those filed for it, and none of them is of a later time;
/// there is one if and only if any was filed.
pub proof fn law_latest_receipt_is_the_last(s: StoreModel, event_id: Seq<char>)
    ensures
        (match s.latest_receipt(event_id) {
            Some(m) => {
                &&& s.decision_receipts.contains(m)
                &&& m.event_id == event_id
                &&& forall|i: int|
                    0 <= i < s.decision_receipts.len() && (
                    #[trigger] s.decision_receipts[i]).event_id == event_id ==> !text::before(
                        m.created_at,
                        s.decision_receipts[i].created_at,
                    )
            },
            None => forall|i: int|
                0 <= i < s.decision_receipts.len() ==> (#[trigger] s.decision_receipts[i]).event_id
                    != event_id,
        }),
{
    lemma_latest_of(s.decision_receipts, event_id);
}

proof fn lemma_latest_of(s: Seq<ReceiptModel>, event_id: Seq<char>)
    ensures
        (match latest_of(s, event_id) {
            Some(m) => {
                &&& s.contains(m)
                &&& m.event_id == event_id
                &&& forall|i: int|
                    0 <= i < s.len() && (#[trigger] s[i]).event_id == event_id ==> !text::before(
                        m.created_at,
                        s[i].created_at,
                    )
            },
            None => forall|i: int| 0 <= i < s.len() ==> (#[trigger] s[i]).event_id != event_id,
        }),
    decreases s.len(),
{
    if s.len() > 0 {
        let rest = s.drop_last();
        let x = s.last();
        lemma_latest_of(rest, event_id);
        text::lemma_before_irreflexive(x.created_at);
        match latest_of(rest, event_id) {
            Some(b) => {
                let k = choose|k: int| 0 <= k < rest.len() && rest[k] == b;
                assert(s[k] == b);
                assert(s[s.len() - 1] == x);
                let m = latest_of(s, event_id)->0;
                assert forall|i: int| 0 <= i < s.len() && (
                #[trigger] s[i]).event_id == event_id implies !text::before(
                    m.created_at,
                    s[i].created_at,
                ) by {
                    if i < rest.len() {
                        assert(rest[i] == s[i]);
                        // b is not before s[i], and x is not before b
                        if m != b && text::before(x.created_at, s[i].created_at) {
                            text::lemma_before_total(x.created_at, b.created_at);
                            if x.created_at != b.created_at {
                                text::lemma_before_transitive(
                                    b.created_at,
                                    x.created_at,
                                    s[i].created_at,
                                );
                            }
                        }
                    } else if m == b && x.event_id == event_id {
                        if text::before(b.created_at, x.created_at) {
                            text::lemma_before_transitive(
                                b.created_at,
                                x.created_at,
                                b.created_at,
                            );
                            text::lemma_before_irreflexive(b.created_at);
                        }
                    }
                }
            },
            None => {
                assert forall|i: int| 0 <= i < s.len() - 1 implies (#[trigger] s[i]).event_id
                    != event_id by {
                    assert(rest[i] == s[i]);
                }
                assert(s[s.len() - 1] == x);
            },
        }
    }
}

/// A receipt is filed as it was given.
pub proof fn law_receipt_is_filed_as_given(
    s: StoreModel,
    event_id: Seq<char>,
    agent_id: Seq<char>,
    run_id: Seq<char>,
    decision: Seq<char>,
    summary: Option<Seq<char>>,
    tool_calls: Option<Seq<char>>,
    next_wake: Option<Seq<char>>,
    cost: Option<Seq<char>>,
    uuid: Seq<char>,
    now: Seq<char>,
)
    ensures
        ({
            let (t, r) = s.create_decision_receipt(
                event_id,
                agent_id,
                run_id,
                decision,
                summary,
                tool_calls,
                next_wake,
                cost,
                uuid,
                now,
            );
            &&& r is Err ==> t == s
            &&& r matches Ok(m) ==> {
                &&& t.decision_receipts == s.decision_receipts.push(m)
                &&& m.receipt_id == "receipt:"@ + uuid && m.event_id == event_id && m.agent_id == agent_id
                &&& m.run_id == run_id && m.decision == decision && m.summary == summary
                &&& m.tool_calls == tool_calls && m.next_wake == next_wake && m.cost == cost
                &&& m.created_at == now
            }
        }),
{
}

} // verus!

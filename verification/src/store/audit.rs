//! The audit log: every call that came in, allowed or refused.
use crate::clock;
use crate::store::error;
use crate::store::error::{StoreError, StoreErrorModel};
use crate::store::table;
use crate::store::table::Record;
use crate::store::{Store, StoreModel};
use crate::text;
use vstd::prelude::*;

verus! {

/// A call on record.
#[derive(Debug, Clone)]
pub struct AuditEntry {
    pub id: i64,
    pub at: String,
    pub method: String,
    pub path: String,
    pub scope: Option<String>,
    pub allowed: bool,
    pub reason: Option<String>,
}

#[verifier::ext_equal]
pub struct AuditModel {
    pub id: i64,
    pub at: Seq<char>,
    pub method: Seq<char>,
    pub path: Seq<char>,
    pub scope: Option<Seq<char>>,
    pub allowed: bool,
    pub reason: Option<Seq<char>>,
}

impl View for AuditEntry {
    type V = AuditModel;

    open spec fn view(&self) -> AuditModel {
        AuditModel {
            id: self.id,
            at: self.at@,
            method: self.method@,
            path: self.path@,
            scope: text::opt(self.scope),
            allowed: self.allowed,
            reason: text::opt(self.reason),
        }
    }
}

impl Record for AuditEntry {
    fn copy(&self) -> (r: AuditEntry) {
        AuditEntry {
            id: self.id,
            at: self.at.clone(),
            method: self.method.clone(),
            path: self.path.clone(),
            scope: text::copy_opt(&self.scope),
            allowed: self.allowed,
            reason: text::copy_opt(&self.reason),
        }
    }
}

impl StoreModel {
    /// The number of the last call on record, zero before the first.
    pub open spec fn last_audit_id(self) -> i64 {
        if self.audit_log.len() == 0 {
            0
        } else {
            self.audit_log.last().id
        }
    }

    /// Puts a call on record, under the next number.
    pub open spec fn log_audit(
        self,
        method: Seq<char>,
        path: Seq<char>,
        scope: Option<Seq<char>>,
        allowed: bool,
        reason: Option<Seq<char>>,
        now: Seq<char>,
    ) -> (StoreModel, Result<(), StoreErrorModel>) {
        if self.last_audit_id() == i64::MAX {
            (self, Err(StoreErrorModel::Sqlite("database or disk is full"@)))
        } else {
            let entry = AuditModel {
                id: (self.last_audit_id() + 1) as i64,
                at: now,
                method,
                path,
                scope,
                allowed,
                reason,
            };
            (StoreModel { audit_log: self.audit_log.push(entry), ..self }, Ok(()))
        }
    }
}

impl Store {
    /// Puts a call on record at a given time.
    pub fn log_audit_at(
        &mut self,
        method: &str,
        path: &str,
        scope: Option<&str>,
        allowed: bool,
        reason: Option<&str>,
        now: &str,
    ) -> (r: Result<(), StoreError>)
        ensures
            (final(self)@, error::done(r)) == old(self)@.log_audit(
                method@,
                path@,
                text::opt_str(scope),
                allowed,
                text::opt_str(reason),
                now@,
            ),
    {
        let n: usize = self.audit_log.len();
        let last: i64 = if n == 0 {
            0
        } else {
            self.audit_log[n - 1].id
        };
        if last == i64::MAX {
            return Err(StoreError::Sqlite("database or disk is full".to_owned()));
        }
        let entry = AuditEntry {
            id: last + 1,
            at: now.to_owned(),
            method: method.to_owned(),
            path: path.to_owned(),
            scope: text::own_opt(scope),
            allowed,
            reason: text::own_opt(reason),
        };
        self.audit_log.push(entry);
        assert(table::models(self.audit_log@) =~= table::models(old(self).audit_log@).push(entry@));
        Ok(())
    }

    /// Puts a call on record at the time of the device's clock.
    pub fn log_audit(
        &mut self,
        method: &str,
        path: &str,
        scope: Option<&str>,
        allowed: bool,
        reason: Option<&str>,
    ) -> (r: Result<(), StoreError>)
        ensures
            exists|now: Seq<char>|
                clock::is_utc_stamp(now) && (final(self)@, error::done(r))
                    == #[trigger] old(self)@.log_audit(
                    method@,
                    path@,
                    text::opt_str(scope),
                    allowed,
                    text::opt_str(reason),
                    now,
                ),
    {
        let now = clock::now_text();
        self.log_audit_at(method, path, scope, allowed, reason, now.as_str())
    }

    /// The last calls on record, the latest first.
    pub fn list_audit_log(&self, limit: u32) -> (r: Vec<AuditEntry>)
        ensures
            table::models(r@) == table::latest(self@.audit_log, limit as nat),
    {
        table::list_latest(&self.audit_log, limit)
    }
}

/// A call that was put on record is the first one listed.
pub proof fn law_logged_call_is_listed_first(
    s: StoreModel,
    method: Seq<char>,
    path: Seq<char>,
    scope: Option<Seq<char>>,
    allowed: bool,
    reason: Option<Seq<char>>,
    now: Seq<char>,
    limit: nat,
)
    requires
        limit > 0,
    ensures
        ({
            let (t, r) = s.log_audit(method, path, scope, allowed, reason, now);
            r is Ok ==> {
                let first = table::latest(t.audit_log, limit)[0];
                &&& first.method == method
                &&& first.path == path
                &&& first.scope == scope
                &&& first.allowed == allowed
                &&& first.reason == reason
            }
        }),
{
}

/// A call is put on record as it was made, under the next number, behind those that are there, and
/// nothing else changes.
pub proof fn law_call_is_logged_as_made(
    s: StoreModel,
    method: Seq<char>,
    path: Seq<char>,
    scope: Option<Seq<char>>,
    allowed: bool,
    reason: Option<Seq<char>>,
    now: Seq<char>,
)
    ensures
        ({
            let (t, r) = s.log_audit(method, path, scope, allowed, reason, now);
            let last = if s.audit_log.len() == 0 {
                0
            } else {
                s.audit_log[s.audit_log.len() - 1].id as int
            };
            &&& r is Ok <==> last < i64::MAX
            &&& r is Err ==> t == s
            &&& r is Ok ==> {
                let x = t.audit_log[t.audit_log.len() - 1];
                &&& t == (StoreModel { audit_log: s.audit_log.push(x), ..s })
                &&& x.id == last + 1 && x.at == now && x.method == method && x.path == path
                &&& x.scope == scope && x.allowed == allowed && x.reason == reason
            }
        }),
{
}

} // verus!

//! Registered instants: named once, and the same count of nanoseconds ever after.
use crate::clock;
use crate::numeral;
use crate::store::error;
use crate::store::error::{StoreError, StoreErrorModel};
use crate::store::table;
use crate::store::table::{Record, Row};
use crate::store::{Store, StoreModel};
use crate::text;
use vstd::prelude::*;

verus! {

/// A registered instant.
#[derive(Debug, Clone)]
pub struct InstantRecord {
    pub id: String,
    pub unix_ns: String,
    pub registered_at: String,
    pub label: Option<String>,
    pub from_wall_clock: bool,
}

#[verifier::ext_equal]
pub struct InstantRecordModel {
    pub id: Seq<char>,
    pub unix_ns: Seq<char>,
    pub registered_at: Seq<char>,
    pub label: Option<Seq<char>>,
    pub from_wall_clock: bool,
}

impl View for InstantRecord {
    type V = InstantRecordModel;

    open spec fn view(&self) -> InstantRecordModel {
        InstantRecordModel {
            id: self.id@,
            unix_ns: self.unix_ns@,
            registered_at: self.registered_at@,
            label: text::opt(self.label),
            from_wall_clock: self.from_wall_clock,
        }
    }
}

/// A row of the table of instants: a record whose `id` lacks the prefix.
#[derive(Debug, Clone)]
pub struct InstantRow {
    pub record: InstantRecord,
}

impl View for InstantRow {
    type V = InstantRecordModel;

    open spec fn view(&self) -> InstantRecordModel {
        self.record@
    }
}

impl InstantRecord {
    /// A copy of the record under another id.
    fn with_id(&self, id: String) -> (r: InstantRecord)
        ensures
            r@ == (InstantRecordModel { id: id@, ..self@ }),
    {
        InstantRecord {
            id,
            unix_ns: self.unix_ns.clone(),
            registered_at: self.registered_at.clone(),
            label: text::copy_opt(&self.label),
            from_wall_clock: self.from_wall_clock,
        }
    }
}

impl Record for InstantRow {
    fn copy(&self) -> (r: InstantRow) {
        InstantRow { record: self.record.with_id(self.record.id.clone()) }
    }
}

impl Row for InstantRow {
    open spec fn key_of(m: InstantRecordModel) -> Seq<char> {
        m.id
    }

    open spec fn stamp_of(m: InstantRecordModel) -> Seq<char> {
        m.registered_at
    }

    fn key(&self) -> (r: &str) {
        self.record.id.as_str()
    }

    fn stamp(&self) -> (r: &str) {
        self.record.registered_at.as_str()
    }
}

/// `s` without the `prefix`, however often `s` starts with it.
pub open spec fn without_prefixes(s: Seq<char>, prefix: Seq<char>) -> Seq<char>
    decreases s.len(),
{
    if prefix.len() > 0 && text::has_prefix(s, prefix) {
        without_prefixes(s.skip(prefix.len() as int), prefix)
    } else {
        s
    }
}

/// The part of an instant's id behind its prefixes.
pub open spec fn bare_id(id: Seq<char>) -> Seq<char> {
    without_prefixes(without_prefixes(id, "ctcl:instant:"@), "instant:"@)
}

/// Strips `prefix` off the start of `s` as often as it stands there.
fn strip_prefixes(s: String, prefix: &str) -> (r: String)
    requires
        prefix@.len() > 0,
    ensures
        r@ == without_prefixes(s@, prefix@),
    decreases s@.len(),
{
    match text::strip_prefix(s.as_str(), prefix) {
        Some(rest) => strip_prefixes(rest, prefix),
        None => s,
    }
}

/// The part of an instant's id behind its prefixes.
pub fn uuid_of(id: &str) -> (r: String)
    ensures
        r@ == bare_id(id@),
{
    proof {
        reveal_strlit("ctcl:instant:");
        reveal_strlit("instant:");
    }
    strip_prefixes(strip_prefixes(id.to_owned(), "ctcl:instant:"), "instant:")
}

impl StoreModel {
    /// Registers an instant under a fresh uuid.
    pub open spec fn register_instant(
        self,
        unix_ns: int,
        label: Option<Seq<char>>,
        from_wall_clock: bool,
        uuid: Seq<char>,
        now: Seq<char>,
    ) -> (StoreModel, Result<InstantRecordModel, StoreErrorModel>) {
        let id = "ctcl:instant:"@ + uuid;
        let record = InstantRecordModel {
            id,
            unix_ns: numeral::numeral(unix_ns),
            registered_at: now,
            label,
            from_wall_clock,
        };
        let stored = InstantRecordModel { id: bare_id(id), ..record };
        if table::row::<InstantRow>(self.instants, bare_id(id)) is Some {
            (self, Err(StoreErrorModel::Sqlite("UNIQUE constraint failed: instants.id"@)))
        } else {
            (StoreModel { instants: self.instants.push(stored), ..self }, Ok(record))
        }
    }

    /// The instant with an id, with or without its prefix.
    pub open spec fn get_instant(self, id: Seq<char>) -> Result<InstantRecordModel, StoreErrorModel> {
        match table::row::<InstantRow>(self.instants, bare_id(id)) {
            Some(m) => Ok(InstantRecordModel { id: "ctcl:instant:"@ + m.id, ..m }),
            None => Err(StoreErrorModel::UnknownInstant(id)),
        }
    }
}

impl Store {
    /// Registers an instant under a given uuid at a given time.
    pub fn register_instant_at(
        &mut self,
        unix_ns: i128,
        label: Option<&str>,
        from_wall_clock: bool,
        uuid: &str,
        now: &str,
    ) -> (r: Result<InstantRecord, StoreError>)
        ensures
            (final(self)@, error::outcome(r)) == old(self)@.register_instant(
                unix_ns as int,
                text::opt_str(label),
                from_wall_clock,
                uuid@,
                now@,
            ),
    {
        let id = text::join("ctcl:instant:", uuid);
        let bare = uuid_of(id.as_str());
        if table::find(&self.instants, bare.as_str()).is_some() {
            return Err(
                StoreError::Sqlite("UNIQUE constraint failed: instants.id".to_owned()),
            );
        }
        let record = InstantRecord {
            id,
            unix_ns: numeral::i128_text(unix_ns),
            registered_at: now.to_owned(),
            label: text::own_opt(label),
            from_wall_clock,
        };
        let row = InstantRow { record: record.with_id(bare) };
        self.instants.push(row);
        assert(table::models(self.instants@) =~= table::models(old(self).instants@).push(row@));
        Ok(record)
    }

    /// Registers an instant, under a fresh id, at the time of the device's clock. The instant itself is
    /// the caller's: nothing here reads it off a clock.
    pub fn register_instant(
        &mut self,
        unix_ns: i128,
        label: Option<&str>,
        from_wall_clock: bool,
    ) -> (r: Result<InstantRecord, StoreError>)
        ensures
            exists|uuid: Seq<char>, now: Seq<char>|
                clock::is_uuid(uuid) && clock::is_utc_stamp(now) && (
                final(self)@,
                error::outcome(r),
                ) == #[trigger] old(self)@.register_instant(
                    unix_ns as int,
                    text::opt_str(label),
                    from_wall_clock,
                    uuid,
                    now,
                ),
    {
        let uuid = clock::fresh_uuid();
        let now = clock::now_text();
        self.register_instant_at(unix_ns, label, from_wall_clock, uuid.as_str(), now.as_str())
    }

    /// The instant with an id, with or without its prefix.
    pub fn get_instant(&self, id: &str) -> (r: Result<InstantRecord, StoreError>)
        ensures
            error::outcome(r) == self@.get_instant(id@),
    {
        let bare = uuid_of(id);
        match table::get(&self.instants, bare.as_str()) {
            Some(row) => {
                let full = text::join("ctcl:instant:", row.record.id.as_str());
                Ok(row.record.with_id(full))
            },
            None => Err(StoreError::UnknownInstant(id.to_owned())),
        }
    }
}

/// A uuid has no prefix to strip, and the full id is stripped to it.
proof fn lemma_uuid_is_bare(uuid: Seq<char>)
    requires
        clock::is_uuid(uuid),
    ensures
        bare_id(uuid) == uuid,
        bare_id("ctcl:instant:"@ + uuid) == uuid,
{
    reveal_strlit("ctcl:instant:");
    reveal_strlit("instant:");
    let long = "ctcl:instant:"@;
    let short = "instant:"@;
    assert(clock::is_hex(uuid[1]));
    assert(clock::is_hex(uuid[0]));
    assert(uuid.take(13)[1] == uuid[1]);
    assert(uuid.take(8)[0] == uuid[0]);
    assert(!text::has_prefix(uuid, long));
    assert(!text::has_prefix(uuid, short));
    let id = long + uuid;
    assert(id.take(13) =~= long);
    assert(id.skip(13) =~= uuid);
    assert(without_prefixes(uuid, long) == uuid);
    assert(without_prefixes(id, long) == uuid);
}

/// A registered instant is found again, by its full id and by its bare uuid, as it was registered.
pub proof fn law_registered_instant_is_found(
    s: StoreModel,
    unix_ns: int,
    label: Option<Seq<char>>,
    from_wall_clock: bool,
    uuid: Seq<char>,
    now: Seq<char>,
)
    requires
        clock::is_uuid(uuid),
    ensures
        ({
            let (t, r) = s.register_instant(unix_ns, label, from_wall_clock, uuid, now);
            r matches Ok(record) ==> {
                &&& record.unix_ns == numeral::numeral(unix_ns)
                &&& t.get_instant(record.id) == Ok::<InstantRecordModel, StoreErrorModel>(record)
                &&& t.get_instant(uuid) == Ok::<InstantRecordModel, StoreErrorModel>(record)
            }
        }),
{
    lemma_uuid_is_bare(uuid);
    let (t, r) = s.register_instant(unix_ns, label, from_wall_clock, uuid, now);
    if r is Ok {
        let stored = InstantRecordModel { id: uuid, ..r->Ok_0 };
        table::lemma_put_then_row::<InstantRow>(s.instants, stored);
    }
}

/// Registering an instant leaves every other one as it was, and everything else in the registry.
pub proof fn law_register_instant_adds_only(
    s: StoreModel,
    unix_ns: int,
    label: Option<Seq<char>>,
    from_wall_clock: bool,
    uuid: Seq<char>,
    now: Seq<char>,
    other: Seq<char>,
)
    requires
        bare_id(other) != bare_id("ctcl:instant:"@ + uuid),
    ensures
        ({
            let (t, r) = s.register_instant(unix_ns, label, from_wall_clock, uuid, now);
            &&& t.get_instant(other) == s.get_instant(other)
            &&& t == (StoreModel { instants: t.instants, ..s })
        }),
{
    let (t, r) = s.register_instant(unix_ns, label, from_wall_clock, uuid, now);
    if r is Ok {
        let stored = InstantRecordModel { id: bare_id("ctcl:instant:"@ + uuid), ..r->Ok_0 };
        table::lemma_put_keeps_others::<InstantRow>(s.instants, stored, bare_id(other));
    }
}

/// A registered instant is on record with its time as a decimal numeral, its label, whether it was read
/// off the clock, and the time of its registration, under an id of its own; an id that is taken is
/// refused, and then nothing changes.
pub proof fn law_instant_is_registered_as_asked(
    s: StoreModel,
    unix_ns: int,
    label: Option<Seq<char>>,
    from_wall_clock: bool,
    uuid: Seq<char>,
    now: Seq<char>,
)
    requires
        clock::is_uuid(uuid),
    ensures
        ({
            let (t, r) = s.register_instant(unix_ns, label, from_wall_clock, uuid, now);
            &&& r is Ok <==> s.get_instant(uuid) is Err
            &&& r is Err ==> t == s
            &&& r matches Ok(m) ==> {
                &&& m.id == "ctcl:instant:"@ + uuid
                &&& numeral::signed_value(m.unix_ns) == Some(unix_ns)
                &&& m.label == label
                &&& m.from_wall_clock == from_wall_clock
                &&& m.registered_at == now
                &&& t.instants.len() == s.instants.len() + 1
                &&& t.instants.drop_last() == s.instants
            }
        }),
{
    lemma_uuid_is_bare(uuid);
    numeral::lemma_numeral_round_trip(unix_ns);
    let (t, r) = s.register_instant(unix_ns, label, from_wall_clock, uuid, now);
    if r is Ok {
        assert(t.instants.drop_last() =~= s.instants);
    }
}

} // verus!

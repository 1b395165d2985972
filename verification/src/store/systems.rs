//! Temporal systems that are remembered by name. Defining one again replaces its definition.
use crate::clock;
use crate::number::{Float, Number};
use crate::store::error;
use crate::store::error::{StoreError, StoreErrorModel};
use crate::store::table;
use crate::store::table::{Record, Row};
use crate::store::{Store, StoreModel};
use crate::system;
use crate::system::{
    ExtraModel, LocalTimeExtra, Pause, PauseModel, Rate, RateModel, Segment, SegmentModel, SystemModel,
    TemporalSystem,
};
use crate::text;
use vstd::prelude::*;

verus! {

/// A remembered system.
#[derive(Debug, Clone)]
pub struct SystemRecord {
    pub id: String,
    pub parent: String,
    pub epoch_parent_sec: Number,
    pub rate: Rate,
    pub offset: Number,
    pub created_at: String,
}

#[verifier::ext_equal]
pub struct SystemRecordModel {
    pub id: Seq<char>,
    pub parent: Seq<char>,
    pub epoch: Float,
    pub rate: RateModel,
    pub offset: Float,
    pub created_at: Seq<char>,
}

impl View for SystemRecord {
    type V = SystemRecordModel;

    open spec fn view(&self) -> SystemRecordModel {
        SystemRecordModel {
            id: self.id@,
            parent: self.parent@,
            epoch: self.epoch_parent_sec@,
            rate: self.rate@,
            offset: self.offset@,
            created_at: self.created_at@,
        }
    }
}

impl Record for SystemRecord {
    fn copy(&self) -> (r: SystemRecord) {
        SystemRecord {
            id: self.id.clone(),
            parent: self.parent.clone(),
            epoch_parent_sec: self.epoch_parent_sec,
            rate: self.rate.copy(),
            offset: self.offset,
            created_at: self.created_at.clone(),
        }
    }
}

impl Row for SystemRecord {
    open spec fn key_of(m: SystemRecordModel) -> Seq<char> {
        m.id
    }

    open spec fn stamp_of(m: SystemRecordModel) -> Seq<char> {
        m.created_at
    }

    fn key(&self) -> (r: &str) {
        self.id.as_str()
    }

    fn stamp(&self) -> (r: &str) {
        self.created_at.as_str()
    }
}

/// Whether a name holds nothing but white space.
pub open spec fn is_blank(s: Seq<char>) -> bool {
    text::trimmed(s).len() == 0
}

/// Whether a name holds nothing but white space.
pub fn blank(s: &str) -> (r: bool)
    ensures
        r == is_blank(s@),
{
    text::trim(s).as_str().is_empty()
}

/// Where a stretch ends, as it is kept: an end that is no finite number is none.
pub open spec fn kept_end(end: Option<Float>) -> Option<Float> {
    match end {
        Some(x) => if x is Finite {
            Some(x)
        } else {
            None
        },
        None => None,
    }
}

/// A rate as it is kept. Rates are kept as JSON, which has no infinities and no NaN.
pub open spec fn on_record(rate: RateModel) -> RateModel {
    match rate {
        RateModel::Piecewise { segments } => RateModel::Piecewise {
            segments: segments.map_values(
                |s: SegmentModel| SegmentModel { until: kept_end(s.until), rate: s.rate },
            ),
        },
        RateModel::Paused { value, pauses } => RateModel::Paused {
            value,
            pauses: pauses.map_values(
                |p: PauseModel| PauseModel { from: p.from, to: kept_end(p.to) },
            ),
        },
        _ => rate,
    }
}

/// Whether a rate on record can be read again: no number is missing that has to be there.
pub open spec fn is_readable(rate: RateModel) -> bool {
    match rate {
        RateModel::Constant { value } => value is Finite,
        RateModel::Piecewise { segments } => forall|i: int|
            0 <= i < segments.len() ==> (#[trigger] segments[i]).rate is Finite,
        RateModel::Paused { value, pauses } => value is Finite && forall|i: int|
            0 <= i < pauses.len() ==> (#[trigger] pauses[i]).from is Finite,
        RateModel::Table { table } => forall|i: int|
            0 <= i < table.len() ==> (#[trigger] table[i]).parent is Finite && table[i].local is Finite,
    }
}

/// Where a stretch ends, as it is kept.
fn keep_end(end: Option<Number>) -> (r: Option<Number>)
    ensures
        system::opt_float(r) == kept_end(system::opt_float(end)),
{
    match end {
        Some(x) => if x.is_finite() {
            Some(x)
        } else {
            None
        },
        None => None,
    }
}

/// A rate as it is kept.
fn keep_rate(rate: &Rate) -> (r: Rate)
    ensures
        r@ == on_record(rate@),
{
    match rate {
        Rate::Piecewise { segments } => {
            let ghost all = system::segments_of(segments@);
            let mut kept: Vec<Segment> = Vec::new();
            let mut i: usize = 0;
            while i < segments.len()
                invariant
                    i <= segments.len(),
                    kept@.len() == i,
                    forall|k: int|
                        0 <= k < i ==> (#[trigger] kept@[k])@ == (SegmentModel {
                            until: kept_end(segments@[k]@.until),
                            rate: segments@[k]@.rate,
                        }),
                decreases segments.len() - i,
            {
                let s: &Segment = &segments[i];
                kept.push(Segment { until: keep_end(s.until), rate: s.rate });
                i = i + 1;
            }
            assert(system::segments_of(kept@) =~= all.map_values(
                |s: SegmentModel| SegmentModel { until: kept_end(s.until), rate: s.rate },
            ));
            Rate::Piecewise { segments: kept }
        },
        Rate::Paused { value, pauses } => {
            let ghost all = system::pauses_of(pauses@);
            let mut kept: Vec<Pause> = Vec::new();
            let mut i: usize = 0;
            while i < pauses.len()
                invariant
                    i <= pauses.len(),
                    kept@.len() == i,
                    forall|k: int|
                        0 <= k < i ==> (#[trigger] kept@[k])@ == (PauseModel {
                            from: pauses@[k]@.from,
                            to: kept_end(pauses@[k]@.to),
                        }),
                decreases pauses.len() - i,
            {
                let p: &Pause = &pauses[i];
                kept.push(Pause { from: p.from, to: keep_end(p.to) });
                i = i + 1;
            }
            assert(system::pauses_of(kept@) =~= all.map_values(
                |p: PauseModel| PauseModel { from: p.from, to: kept_end(p.to) },
            ));
            Rate::Paused { value: *value, pauses: kept }
        },
        _ => rate.copy(),
    }
}

/// Whether a rate on record can be read again.
fn readable(rate: &Rate) -> (r: bool)
    ensures
        r == is_readable(rate@),
{
    match rate {
        Rate::Constant { value } => value.is_finite(),
        Rate::Piecewise { segments } => {
            let ghost all = system::segments_of(segments@);
            let mut i: usize = 0;
            while i < segments.len()
                invariant
                    i <= segments.len(),
                    all == system::segments_of(segments@),
                    rate@ == (RateModel::Piecewise { segments: all }),
                    forall|k: int| 0 <= k < i ==> (#[trigger] all[k]).rate is Finite,
                decreases segments.len() - i,
            {
                assert(all[i as int] == segments@[i as int]@);
                if !segments[i].rate.is_finite() {
                    return false;
                }
                i = i + 1;
            }
            true
        },
        Rate::Paused { value, pauses } => {
            let ghost all = system::pauses_of(pauses@);
            let mut i: usize = 0;
            while i < pauses.len()
                invariant
                    i <= pauses.len(),
                    all == system::pauses_of(pauses@),
                    rate@ == (RateModel::Paused { value: value@, pauses: all }),
                    forall|k: int| 0 <= k < i ==> (#[trigger] all[k]).from is Finite,
                decreases pauses.len() - i,
            {
                assert(all[i as int] == pauses@[i as int]@);
                if !pauses[i].from.is_finite() {
                    return false;
                }
                i = i + 1;
            }
            value.is_finite()
        },
        Rate::Table { table } => {
            let ghost all = system::points_of(table@);
            let mut i: usize = 0;
            while i < table.len()
                invariant
                    i <= table.len(),
                    all == system::points_of(table@),
                    rate@ == (RateModel::Table { table: all }),
                    forall|k: int|
                        0 <= k < i ==> (#[trigger] all[k]).parent is Finite && all[k].local is Finite,
                decreases table.len() - i,
            {
                assert(all[i as int] == table@[i as int]@);
                if !table[i].parent.is_finite() || !table[i].local.is_finite() {
                    return false;
                }
                i = i + 1;
            }
            true
        },
    }
}

impl SystemRecordModel {
    /// The clock that the record describes.
    pub open spec fn clock(self) -> SystemModel {
        SystemModel { id: self.id, epoch: self.epoch, rate: self.rate, offset: self.offset }
    }
}

impl StoreModel {
    /// Defines a system. A second definition under the same id replaces the first, but for the time of
    /// creation that is on record.
    pub open spec fn create_system(
        self,
        id: Seq<char>,
        parent: Option<Seq<char>>,
        epoch: Float,
        rate: RateModel,
        offset: Float,
        now: Seq<char>,
    ) -> (StoreModel, Result<SystemRecordModel, StoreErrorModel>) {
        if is_blank(id) {
            (self, Err(StoreErrorModel::InvalidInput("system id must not be empty"@)))
        } else if epoch is Nan {
            (
                self,
                Err(
                    StoreErrorModel::Sqlite("NOT NULL constraint failed: systems.epoch_parent_sec"@),
                ),
            )
        } else if offset is Nan {
            (self, Err(StoreErrorModel::Sqlite("NOT NULL constraint failed: systems.offset_sec"@)))
        } else {
            let record = SystemRecordModel {
                id,
                parent: match parent {
                    Some(p) => p,
                    None => "ctcl:system:unix"@,
                },
                epoch,
                rate,
                offset,
                created_at: now,
            };
            let stored = SystemRecordModel {
                rate: on_record(rate),
                created_at: match table::row::<SystemRecord>(self.systems, id) {
                    Some(old_record) => old_record.created_at,
                    None => now,
                },
                ..record
            };
            (
                StoreModel { systems: table::put::<SystemRecord>(self.systems, stored), ..self },
                Ok(record),
            )
        }
    }

    /// The system with an id, where its rate can be read.
    pub open spec fn get_system(self, id: Seq<char>) -> Result<SystemRecordModel, StoreErrorModel> {
        match table::row::<SystemRecord>(self.systems, id) {
            Some(m) => if is_readable(m.rate) {
                Ok(m)
            } else {
                Err(error::no_number())
            },
            None => Err(StoreErrorModel::UnknownSystem(id)),
        }
    }

    /// The local time of the system with an id.
    pub open spec fn system_now(self, id: Seq<char>, parent_sec: Float) -> Result<
        (Float, ExtraModel),
        StoreErrorModel,
    > {
        match self.get_system(id) {
            Ok(m) => Ok(m.clock().local_time(parent_sec)),
            Err(e) => Err(e),
        }
    }
}

impl Store {
    /// Defines a system at a given time.
    pub fn create_system_at(
        &mut self,
        id: &str,
        parent: Option<&str>,
        epoch_parent_sec: Number,
        rate: Rate,
        offset: Number,
        now: &str,
    ) -> (r: Result<SystemRecord, StoreError>)
        ensures
            (final(self)@, error::outcome(r)) == old(self)@.create_system(
                id@,
                text::opt_str(parent),
                epoch_parent_sec@,
                rate@,
                offset@,
                now@,
            ),
    {
        if blank(id) {
            return Err(StoreError::InvalidInput("system id must not be empty".to_owned()));
        }
        if epoch_parent_sec.is_nan() {
            return Err(
                StoreError::Sqlite(
                    "NOT NULL constraint failed: systems.epoch_parent_sec".to_owned(),
                ),
            );
        }
        if offset.is_nan() {
            return Err(
                StoreError::Sqlite("NOT NULL constraint failed: systems.offset_sec".to_owned()),
            );
        }
        let parent: String = match parent {
            Some(p) => p.to_owned(),
            None => "ctcl:system:unix".to_owned(),
        };
        let record = SystemRecord {
            id: id.to_owned(),
            parent,
            epoch_parent_sec,
            rate,
            offset,
            created_at: now.to_owned(),
        };
        let mut stored: SystemRecord = record.copy();
        stored.rate = keep_rate(&record.rate);
        match table::get(&self.systems, id) {
            Some(old_record) => {
                stored.created_at = old_record.created_at;
            },
            None => {},
        }
        table::put_row(&mut self.systems, stored);
        Ok(record)
    }

    /// Defines a system at the time of the device's clock.
    pub fn create_system(
        &mut self,
        id: &str,
        parent: Option<&str>,
        epoch_parent_sec: Number,
        rate: Rate,
        offset: Number,
    ) -> (r: Result<SystemRecord, StoreError>)
        ensures
            exists|now: Seq<char>|
                clock::is_utc_stamp(now) && (final(self)@, error::outcome(r))
                    == #[trigger] old(self)@.create_system(
                    id@,
                    text::opt_str(parent),
                    epoch_parent_sec@,
                    rate@,
                    offset@,
                    now,
                ),
    {
        let now = clock::now_text();
        self.create_system_at(id, parent, epoch_parent_sec, rate, offset, now.as_str())
    }

    /// The system with an id, where its rate can be read.
    pub fn get_system(&self, id: &str) -> (r: Result<SystemRecord, StoreError>)
        ensures
            error::outcome(r) == self@.get_system(id@),
    {
        match table::get(&self.systems, id) {
            Some(m) => if readable(&m.rate) {
                Ok(m)
            } else {
                Err(error::no_number_there())
            },
            None => Err(StoreError::UnknownSystem(id.to_owned())),
        }
    }

    /// The ids of the systems, in order.
    pub fn list_systems(&self) -> (r: Vec<String>)
        ensures
            text::all(r@) == text::sorted(table::keys::<SystemRecord>(self@.systems)),
    {
        table::sorted_keys(&self.systems)
    }

    /// The local time of the system with an id, at a parent time in seconds.
    pub fn system_now(&self, id: &str, parent_sec: Number) -> (r: Result<
        (Number, LocalTimeExtra),
        StoreError,
    >)
        ensures
            error::outcome(r) == self@.system_now(id@, parent_sec@),
    {
        match self.get_system(id) {
            Ok(m) => {
                let system = TemporalSystem {
                    id: m.id,
                    epoch_parent_sec: m.epoch_parent_sec,
                    rate: m.rate,
                    offset: m.offset,
                };
                Ok(system.local_seconds(parent_sec))
            },
            Err(e) => Err(e),
        }
    }
}

/// A system that was defined is found as it was defined last, whatever was there before, where its rate
/// holds numbers that can be kept; every other system stays as it was.
pub proof fn law_last_definition_counts(
    s: StoreModel,
    id: Seq<char>,
    parent: Option<Seq<char>>,
    epoch: Float,
    rate: RateModel,
    offset: Float,
    now: Seq<char>,
    other: Seq<char>,
)
    requires
        !is_blank(id),
        epoch !is Nan,
        offset !is Nan,
        is_readable(rate),
        other != id,
    ensures
        ({
            let t = s.create_system(id, parent, epoch, rate, offset, now).0;
            &&& t.get_system(id) matches Ok(m) && m.clock() == (SystemModel {
                id,
                epoch,
                rate: on_record(rate),
                offset,
            })
            &&& t.get_system(other) == s.get_system(other)
        }),
{
    let record = s.create_system(id, parent, epoch, rate, offset, now).1->Ok_0;
    let stored = SystemRecordModel {
        rate: on_record(rate),
        created_at: match table::row::<SystemRecord>(s.systems, id) {
            Some(old_record) => old_record.created_at,
            None => now,
        },
        ..record
    };
    table::lemma_put_then_row::<SystemRecord>(s.systems, stored);
    table::lemma_put_keeps_others::<SystemRecord>(s.systems, stored, other);
}

/// The time of a system on record is the local time of the clock that was defined last under its id:
/// what is shown depends on the epoch, the rate and the offset of that definition, and on nothing else
/// in the registry.
pub proof fn law_system_shows_its_definition(
    s: StoreModel,
    id: Seq<char>,
    parent: Option<Seq<char>>,
    epoch: Float,
    rate: RateModel,
    offset: Float,
    at: Seq<char>,
    now: Float,
    other: Seq<char>,
)
    requires
        !is_blank(id),
        epoch !is Nan,
        offset !is Nan,
        is_readable(rate),
        other != id,
    ensures
        ({
            let t = s.create_system(id, parent, epoch, rate, offset, at).0;
            &&& t.system_now(id, now) == Ok::<(Float, ExtraModel), StoreErrorModel>(
                (SystemModel { id, epoch, rate: on_record(rate), offset }).local_time(now),
            )
            &&& t.system_now(other, now) == s.system_now(other, now)
        }),
{
    law_last_definition_counts(s, id, parent, epoch, rate, offset, at, other);
}

/// A system is defined if and only if it has a name, an epoch and an offset. What is returned is what was
/// asked for, and a second definition keeps the time at which the first was made.
pub proof fn law_system_is_defined_as_asked(
    s: StoreModel,
    id: Seq<char>,
    parent: Option<Seq<char>>,
    epoch: Float,
    rate: RateModel,
    offset: Float,
    now: Seq<char>,
)
    ensures
        ({
            let (t, r) = s.create_system(id, parent, epoch, rate, offset, now);
            let before = table::row::<SystemRecord>(s.systems, id);
            let after = table::row::<SystemRecord>(t.systems, id);
            &&& r is Ok <==> !is_blank(id) && epoch !is Nan && offset !is Nan
            &&& r is Err ==> t == s
            &&& t == (StoreModel { systems: t.systems, ..s })
            &&& r matches Ok(m) ==> {
                &&& m.id == id && m.epoch == epoch && m.rate == rate && m.offset == offset
                &&& m.created_at == now
                &&& parent matches Some(p) ==> m.parent == p
                &&& parent is None ==> m.parent == "ctcl:system:unix"@
                &&& after matches Some(kept) && kept.id == id && kept.parent == m.parent && kept.epoch
                    == epoch && kept.offset == offset
                &&& before matches Some(old_record) ==> after->0.created_at == old_record.created_at
                &&& before is None ==> after->0.created_at == now
            }
        }),
{
    let (t, r) = s.create_system(id, parent, epoch, rate, offset, now);
    if r is Ok {
        let stored = SystemRecordModel {
            rate: on_record(rate),
            created_at: match table::row::<SystemRecord>(s.systems, id) {
                Some(old_record) => old_record.created_at,
                None => now,
            },
            ..r->Ok_0
        };
        table::lemma_put_then_row::<SystemRecord>(s.systems, stored);
    }
}

/// A rate is kept as it was given, but that an end that is no finite number is no end at all: the
/// stretch stays open.
pub proof fn law_rate_is_kept(rate: RateModel, i: int)
    ensures
        rate is Constant || rate is Table ==> on_record(rate) == rate,
        rate matches RateModel::Piecewise { segments } ==> {
            &&& on_record(rate) is Piecewise
            &&& on_record(rate)->segments.len() == segments.len()
            &&& 0 <= i < segments.len() ==> {
                let kept = on_record(rate)->segments[i];
                &&& kept.rate == segments[i].rate
                &&& (segments[i].until matches Some(end) && end is Finite) ==> kept.until
                    == segments[i].until
                &&& !(segments[i].until matches Some(end) && end is Finite) ==> kept.until is None
            }
        },
        rate matches RateModel::Paused { value, pauses } ==> {
            &&& on_record(rate) is Paused
            &&& on_record(rate)->Paused_value == value
            &&& on_record(rate)->pauses.len() == pauses.len()
            &&& 0 <= i < pauses.len() ==> {
                let kept = on_record(rate)->pauses[i];
                &&& kept.from == pauses[i].from
                &&& (pauses[i].to matches Some(end) && end is Finite) ==> kept.to == pauses[i].to
                &&& !(pauses[i].to matches Some(end) && end is Finite) ==> kept.to is None
            }
        },
{
}

/// A system can be read if and only if it is on record and its rate holds no number that cannot be kept;
/// why it cannot be read tells the two apart.
pub proof fn law_system_is_read_where_it_can_be(s: StoreModel, id: Seq<char>, now: Float)
    ensures
        (match table::row::<SystemRecord>(s.systems, id) {
            None => s.get_system(id) == Err::<SystemRecordModel, StoreErrorModel>(
                StoreErrorModel::UnknownSystem(id),
            ),
            Some(m) => {
                let whole = match m.rate {
                    RateModel::Constant { value } => value is Finite,
                    RateModel::Piecewise { segments } => forall|i: int|
                        0 <= i < segments.len() ==> (#[trigger] segments[i]).rate is Finite,
                    RateModel::Paused { value, pauses } => value is Finite && forall|i: int|
                        0 <= i < pauses.len() ==> (#[trigger] pauses[i]).from is Finite,
                    RateModel::Table { table } => forall|i: int|
                        0 <= i < table.len() ==> (#[trigger] table[i]).parent is Finite
                            && table[i].local is Finite,
                };
                &&& whole ==> s.get_system(id) == Ok::<SystemRecordModel, StoreErrorModel>(m)
                &&& !whole ==> s.get_system(id) is Err && s.get_system(id)->Err_0 is Json
            },
        }),
        s.system_now(id, now) is Ok <==> s.get_system(id) is Ok,
        s.get_system(id) matches Ok(m) ==> s.system_now(id, now)->Ok_0 == (SystemModel {
            id: m.id,
            epoch: m.epoch,
            rate: m.rate,
            offset: m.offset,
        }).local_time(now),
{
}

/// A name counts as none if and only if it holds white space only.
pub proof fn law_blank_is_white_space(s: Seq<char>)
    ensures
        is_blank(s) <==> forall|i: int| 0 <= i < s.len() ==> text::is_white(#[trigger] s[i]),
    decreases s.len(),
{
    if s.len() > 0 {
        let rest = s.drop_first();
        law_blank_is_white_space(rest);
        if text::is_white(s[0]) {
            if is_blank(s) {
                assert forall|i: int| 0 <= i < s.len() implies text::is_white(#[trigger] s[i]) by {
                    if i > 0 {
                        assert(rest[i - 1] == s[i]);
                    }
                }
            }
            if forall|i: int| 0 <= i < s.len() ==> text::is_white(#[trigger] s[i]) {
                assert forall|i: int| 0 <= i < rest.len() implies text::is_white(
                    #[trigger] rest[i],
                ) by {
                    assert(rest[i] == s[i + 1]);
                }
            }
        } else {
            lemma_end_keeps_start(s);
        }
    }
}

/// What does not start with white space is not trimmed away from its end.
proof fn lemma_end_keeps_start(s: Seq<char>)
    requires
        s.len() > 0,
        !text::is_white(s[0]),
    ensures
        text::trimmed_end(s).len() > 0,
    decreases s.len(),
{
    if text::is_white(s.last()) {
        lemma_end_keeps_start(s.drop_last());
    }
}

} // verus!

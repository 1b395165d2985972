//! What the command line asks of the registry, and how it fails.
use crate::clock;
use crate::encoding;
use crate::encoding::to_ns;
use crate::error::{CtclError, CtclErrorModel};
use crate::number::{Float, Number};
use crate::numeral;
use crate::store::error::{StoreError, StoreErrorModel};
use crate::store::groups;
use crate::store::groups::{seconds_of, GroupExpansion, GroupRecord};
use crate::store::instants::{InstantRecord, InstantRecordModel};
use crate::store::systems::{SystemRecord, SystemRecordModel};
use crate::store::{Store, StoreModel};
use crate::system::{ExtraModel, LocalTimeExtra, Rate, RateModel};
use crate::text;
use vstd::prelude::*;

verus! {

/// Why a command failed: a value on the command line that cannot be read, which is told in one line, or
/// an error of the registry, which is told with its code.
#[derive(Debug, Clone)]
pub enum Failure {
    Line(String),
    Coded { code: String, message: String },
}

pub enum FailureModel {
    Line(Seq<char>),
    Coded { code: Seq<char>, message: Seq<char> },
}

impl View for Failure {
    type V = FailureModel;

    open spec fn view(&self) -> FailureModel {
        match *self {
            Failure::Line(s) => FailureModel::Line(s@),
            Failure::Coded { code, message } => FailureModel::Coded {
                code: code@,
                message: message@,
            },
        }
    }
}

/// What came of a command.
pub open spec fn outcome<T: View>(r: Result<T, Failure>) -> Result<T::V, FailureModel> {
    match r {
        Ok(v) => Ok(v@),
        Err(e) => Err(e@),
    }
}

/// The failure that a value which cannot be read leads to.
pub open spec fn unreadable(what: Seq<char>, e: CtclErrorModel) -> FailureModel {
    FailureModel::Line(what + e.message())
}

/// The failure that an error of the registry leads to.
pub open spec fn refused(e: StoreErrorModel) -> FailureModel {
    FailureModel::Coded { code: e.code(), message: e.message() }
}

/// What the registry answered, as what came of a command.
pub open spec fn told<T>(r: Result<T, StoreErrorModel>) -> Result<T, FailureModel> {
    match r {
        Ok(v) => Ok(v),
        Err(e) => Err(refused(e)),
    }
}

/// The failure that a value which cannot be read leads to.
fn unreadable_value(what: &str, e: CtclError) -> (r: Failure)
    ensures
        r@ == unreadable(what@, e@),
{
    let message = e.message();
    Failure::Line(text::join(what, message.as_str()))
}

/// The failure that an error of the registry leads to.
fn refused_by_store(e: StoreError) -> (r: Failure)
    ensures
        r@ == refused(e@),
{
    let message = e.message();
    Failure::Coded { code: e.code().to_owned(), message }
}

/// The instant that is named on the command line, and whether it was read off the clock.
pub open spec fn named_instant(value: Option<Seq<char>>, from: Seq<char>, now_ns: int) -> Result<
    (int, bool),
    FailureModel,
> {
    match value {
        Some(v) => match encoding::instant_of(v, from) {
            Ok(ns) => Ok((ns, false)),
            Err(e) => Err(unreadable("invalid value: "@, e)),
        },
        None => Ok((now_ns, true)),
    }
}

/// The instant that is named on the command line, or else the present one, and whether it was read off
/// the clock.
pub fn read_instant(value: Option<&str>, from: &str, now_ns: i128) -> (r: Result<
    (i128, bool),
    Failure,
>)
    ensures
        (match r {
            Ok((ns, from_wall_clock)) => named_instant(text::opt_str(value), from@, now_ns as int)
                == Ok::<(int, bool), FailureModel>((ns as int, from_wall_clock)),
            Err(e) => named_instant(text::opt_str(value), from@, now_ns as int) == Err::<
                (int, bool),
                FailureModel,
            >(e@),
        }),
{
    match value {
        Some(v) => match to_ns(v, from) {
            Ok(ns) => Ok((ns, false)),
            Err(e) => Err(unreadable_value("invalid value: ", e)),
        },
        None => Ok((now_ns, true)),
    }
}

impl StoreModel {
    /// Registers the instant that is named, or the present one.
    pub open spec fn instant_register(
        self,
        value: Option<Seq<char>>,
        from: Seq<char>,
        label: Option<Seq<char>>,
        now_ns: int,
        uuid: Seq<char>,
        now: Seq<char>,
    ) -> (StoreModel, Result<InstantRecordModel, FailureModel>) {
        match named_instant(value, from, now_ns) {
            Err(e) => (self, Err(e)),
            Ok((ns, from_wall_clock)) => {
                let (s, r) = self.register_instant(ns, label, from_wall_clock, uuid, now);
                (s, told(r))
            },
        }
    }

    /// Defines a system of constant rate, with its epoch in seconds since the Unix epoch.
    pub open spec fn system_create(
        self,
        id: Seq<char>,
        epoch_unix_s: Seq<char>,
        rate: Float,
        offset: Float,
        now: Seq<char>,
    ) -> (StoreModel, Result<SystemRecordModel, FailureModel>) {
        match encoding::instant_of(epoch_unix_s, "unix_s"@) {
            Err(e) => (self, Err(unreadable("invalid epoch: "@, e))),
            Ok(ns) => {
                let (s, r) = self.create_system(
                    id,
                    None,
                    groups::seconds_number(ns),
                    RateModel::Constant { value: rate },
                    offset,
                    now,
                );
                (s, told(r))
            },
        }
    }

    /// Whether the time of a registered instant, where one is named, is on record as a numeral.
    pub open spec fn has_numeral(self, instant_id: Option<Seq<char>>) -> bool {
        instant_id matches Some(id) ==> (self.get_instant(id) matches Ok(m)
            ==> numeral::i128_value(m.unix_ns) is Some)
    }

    /// The instant at which a group is to be shown: a registered one, else the one that is named, else
    /// the present one.
    pub open spec fn instant_to_show(
        self,
        instant_id: Option<Seq<char>>,
        value: Option<Seq<char>>,
        from: Seq<char>,
        now_ns: int,
    ) -> Result<int, FailureModel> {
        match instant_id {
            Some(id) => match self.get_instant(id) {
                Ok(m) => Ok(numeral::i128_value(m.unix_ns)->0),
                Err(e) => Err(refused(e)),
            },
            None => match named_instant(value, from, now_ns) {
                Ok((ns, _)) => Ok(ns),
                Err(e) => Err(e),
            },
        }
    }

    /// A system and its local time at an instant.
    pub open spec fn system_at(self, id: Seq<char>, ns: int) -> Result<
        (SystemRecordModel, Float, ExtraModel),
        StoreErrorModel,
    > {
        match self.get_system(id) {
            Err(e) => Err(e),
            Ok(m) => {
                let (local, extra) = m.clock().local_time(groups::seconds_number(ns));
                Ok((m, local, extra))
            },
        }
    }
}

impl Store {
    /// Registers the instant that is named, or the present one, under a given uuid at a given time.
    pub fn instant_register_at(
        &mut self,
        value: Option<&str>,
        from: &str,
        label: Option<&str>,
        now_ns: i128,
        uuid: &str,
        now: &str,
    ) -> (r: Result<InstantRecord, Failure>)
        ensures
            (final(self)@, outcome(r)) == old(self)@.instant_register(
                text::opt_str(value),
                from@,
                text::opt_str(label),
                now_ns as int,
                uuid@,
                now@,
            ),
    {
        match read_instant(value, from, now_ns) {
            Err(e) => Err(e),
            Ok((ns, from_wall_clock)) => match self.register_instant_at(
                ns,
                label,
                from_wall_clock,
                uuid,
                now,
            ) {
                Ok(m) => Ok(m),
                Err(e) => Err(refused_by_store(e)),
            },
        }
    }

    /// Defines a system of constant rate at a given time, with its epoch in seconds since the Unix
    /// epoch.
    pub fn system_create_at(
        &mut self,
        id: &str,
        epoch_unix_s: &str,
        rate: Number,
        offset: Number,
        now: &str,
    ) -> (r: Result<SystemRecord, Failure>)
        ensures
            (final(self)@, outcome(r)) == old(self)@.system_create(
                id@,
                epoch_unix_s@,
                rate@,
                offset@,
                now@,
            ),
    {
        match to_ns(epoch_unix_s, "unix_s") {
            Err(e) => Err(unreadable_value("invalid epoch: ", e)),
            Ok(ns) => match self.create_system_at(
                id,
                None,
                seconds_of(ns),
                Rate::Constant { value: rate },
                offset,
                now,
            ) {
                Ok(m) => Ok(m),
                Err(e) => Err(refused_by_store(e)),
            },
        }
    }

    /// The instant at which a group is to be shown: a registered one, else the one that is named, else
    /// the present one.
    pub fn choose_instant_to_show(
        &self,
        instant_id: Option<&str>,
        value: Option<&str>,
        from: &str,
        now_ns: i128,
    ) -> (r: Result<i128, Failure>)
        requires
            self@.has_numeral(text::opt_str(instant_id)),
        ensures
            (match r {
                Ok(ns) => self@.instant_to_show(
                    text::opt_str(instant_id),
                    text::opt_str(value),
                    from@,
                    now_ns as int,
                ) == Ok::<int, FailureModel>(ns as int),
                Err(e) => self@.instant_to_show(
                    text::opt_str(instant_id),
                    text::opt_str(value),
                    from@,
                    now_ns as int,
                ) == Err::<int, FailureModel>(e@),
            }),
    {
        match instant_id {
            Some(id) => match self.get_instant(id) {
                Ok(m) => match numeral::parse_i128(m.unix_ns.as_str()) {
                    Some(ns) => Ok(ns),
                    None => {
                        assert(false);
                        Ok(0)
                    },
                },
                Err(e) => Err(refused_by_store(e)),
            },
            None => match read_instant(value, from, now_ns) {
                Ok((ns, _)) => Ok(ns),
                Err(e) => Err(e),
            },
        }
    }

    /// A system and its local time at an instant.
    pub fn system_at(&self, id: &str, ns: i128) -> (r: Result<
        (SystemRecord, Number, LocalTimeExtra),
        StoreError,
    >)
        ensures
            crate::store::error::outcome(r) == self@.system_at(id@, ns as int),
    {
        match self.get_system(id) {
            Err(e) => Err(e),
            Ok(record) => match self.system_now(id, seconds_of(ns)) {
                Err(e) => Err(e),
                Ok((local, extra)) => Ok((record, local, extra)),
            },
        }
    }
}

/// Registers the instant that is named, or the present one, under a fresh id.
pub fn instant_register(store: &mut Store, value: Option<&str>, from: &str, label: Option<&str>) -> (r:
    Result<InstantRecord, Failure>)
    ensures
        exists|now_ns: int, uuid: Seq<char>, now: Seq<char>|
            -(clock::MAX_DURATION_NS as int) <= now_ns <= clock::MAX_DURATION_NS && clock::is_uuid(
                uuid,
            ) && clock::is_utc_stamp(now) && (final(store)@, outcome(r)) == #[trigger] old(store)@.instant_register(
                text::opt_str(value),
                from@,
                text::opt_str(label),
                now_ns,
                uuid,
                now,
            ),
{
    let now_ns: i128 = clock::now_ns();
    let uuid = clock::fresh_uuid();
    let now = clock::now_text();
    store.instant_register_at(value, from, label, now_ns, uuid.as_str(), now.as_str())
}

/// The instant with an id.
pub fn instant_get(store: &Store, id: &str) -> (r: Result<InstantRecord, Failure>)
    ensures
        outcome(r) == told(store@.get_instant(id@)),
{
    match store.get_instant(id) {
        Ok(m) => Ok(m),
        Err(e) => Err(refused_by_store(e)),
    }
}

/// Defines a system of constant rate, with its epoch in seconds since the Unix epoch.
pub fn system_create(store: &mut Store, id: &str, epoch_unix_s: &str, rate: Number, offset: Number) -> (
r: Result<SystemRecord, Failure>)
    ensures
        exists|now: Seq<char>|
            clock::is_utc_stamp(now) && (final(store)@, outcome(r))
                == #[trigger] old(store)@.system_create(id@, epoch_unix_s@, rate@, offset@, now),
{
    let now = clock::now_text();
    store.system_create_at(id, epoch_unix_s, rate, offset, now.as_str())
}

/// The system with an id.
pub fn system_get(store: &Store, id: &str) -> (r: Result<SystemRecord, Failure>)
    ensures
        outcome(r) == told(store@.get_system(id@)),
{
    match store.get_system(id) {
        Ok(m) => Ok(m),
        Err(e) => Err(refused_by_store(e)),
    }
}

/// The local time of a system at an instant.
pub fn system_now_at(store: &Store, id: &str, ns: i128) -> (r: Result<
    (Number, LocalTimeExtra),
    Failure,
>)
    ensures
        outcome(r) == told(store@.system_now(id@, groups::seconds_number(ns as int))),
{
    match store.system_now(id, seconds_of(ns)) {
        Ok(x) => Ok(x),
        Err(e) => Err(refused_by_store(e)),
    }
}

/// The local time of a system at the time of the device's clock.
pub fn system_now(store: &Store, id: &str) -> (r: Result<(Number, LocalTimeExtra), Failure>)
    ensures
        exists|ns: int|
            -(clock::MAX_DURATION_NS as int) <= ns <= clock::MAX_DURATION_NS && outcome(r) == told(store@.system_now(id@, #[trigger] groups::seconds_number(ns))),
{
    system_now_at(store, id, clock::now_ns())
}

/// Defines a group without an owner.
pub fn group_create(store: &mut Store, id: &str, members: &Vec<String>) -> (r: Result<
    GroupRecord,
    Failure,
>)
    requires
        old(store)@.get_group(id@) matches Ok(g) ==> g.version < i64::MAX,
    ensures
        exists|created: Seq<char>, updated: Seq<char>|
            clock::is_utc_stamp(created) && clock::is_utc_stamp(updated) && {
                let (s, x) = #[trigger] old(store)@.create_group(
                    id@,
                    text::all(members@),
                    None,
                    created,
                    updated,
                );
                final(store)@ == s && outcome(r) == told(x)
            },
{
    match store.create_group(id, members, None) {
        Ok(m) => Ok(m),
        Err(e) => Err(refused_by_store(e)),
    }
}

/// The group with an id.
pub fn group_get(store: &Store, id: &str) -> (r: Result<GroupRecord, Failure>)
    ensures
        outcome(r) == told(store@.get_group(id@)),
{
    match store.get_group(id) {
        Ok(m) => Ok(m),
        Err(e) => Err(refused_by_store(e)),
    }
}

/// An instant projected onto every member of a group.
pub fn group_expand(store: &Store, id: &str, ns: i128) -> (r: Result<GroupExpansion, Failure>)
    requires
        store@.reaches(id@, ns as int),
    ensures
        outcome(r) == told(store@.expand_group(id@, ns as int)),
{
    match store.expand_group(id, ns) {
        Ok(x) => Ok(x),
        Err(e) => Err(refused_by_store(e)),
    }
}

/// What follows the first `--db` among the arguments, where something does.
pub open spec fn db_argument(args: Seq<Seq<char>>) -> Option<Seq<char>>
    decreases args.len(),
{
    if args.len() == 0 {
        None
    } else if args[0] == "--db"@ {
        if args.len() > 1 {
            Some(args[1])
        } else {
            None
        }
    } else {
        db_argument(args.drop_first())
    }
}

/// The file that the tool server keeps its registry in: what follows `--db`, else the file that the
/// desktop application uses.
pub fn parse_db_path(args: &Vec<String>) -> (r: String)
    ensures
        r@ == (match db_argument(text::all(args@)) {
            Some(path) => path,
            None => "ctcl-desktop-data.sqlite3"@,
        }),
{
    let ghost names = text::all(args@);
    let mut i: usize = 0;
    assert(names.skip(0) =~= names);
    while i < args.len()
        invariant
            i <= args@.len(),
            names == text::all(args@),
            db_argument(names) == db_argument(names.skip(i as int)),
        decreases args@.len() - i,
    {
        assert(names.skip(i as int)[0] == args@[i as int]@);
        assert(names.skip(i as int).drop_first() =~= names.skip(i + 1));
        if text::same(args[i].as_str(), "--db") {
            if i + 1 < args.len() {
                assert(names.skip(i as int)[1] == args@[i + 1]@);
                return args[i + 1].clone();
            }
            return "ctcl-desktop-data.sqlite3".to_owned();
        }
        i = i + 1;
    }
    assert(names.skip(i as int).len() == 0);
    "ctcl-desktop-data.sqlite3".to_owned()
}

/// Showing a group at an instant that was just registered uses the time that was registered.
pub proof fn law_registered_time_is_shown(
    s: StoreModel,
    ns: int,
    label: Option<Seq<char>>,
    from_wall_clock: bool,
    uuid: Seq<char>,
    now: Seq<char>,
    value: Option<Seq<char>>,
    from: Seq<char>,
    now_ns: int,
)
    requires
        i128::MIN <= ns <= i128::MAX,
        clock::is_uuid(uuid),
        s.register_instant(ns, label, from_wall_clock, uuid, now).1 is Ok,
    ensures
        ({
            let (t, r) = s.register_instant(ns, label, from_wall_clock, uuid, now);
            let id = Some(r->Ok_0.id);
            t.has_numeral(id) && t.instant_to_show(id, value, from, now_ns) == Ok::<
                int,
                FailureModel,
            >(ns)
        }),
{
    crate::store::instants::law_registered_instant_is_found(
        s,
        ns,
        label,
        from_wall_clock,
        uuid,
        now,
    );
    numeral::lemma_numeral_round_trip(ns);
}

/// The instant that is named is the one that its value stands for in its encoding, and was not read off
/// the clock; where none is named it is the present one, which was.
pub proof fn law_named_instant_or_the_present(value: Seq<char>, from: Seq<char>, now_ns: int)
    ensures
        named_instant(None, from, now_ns) == Ok::<(int, bool), FailureModel>((now_ns, true)),
        (match encoding::instant_of(value, from) {
            Ok(ns) => named_instant(Some(value), from, now_ns) == Ok::<(int, bool), FailureModel>(
                (ns, false),
            ),
            Err(e) => named_instant(Some(value), from, now_ns) == Err::<(int, bool), FailureModel>(
                FailureModel::Line("invalid value: "@ + e.message()),
            ),
        }),
{
}

/// Registering from the command line puts the instant that is named, or the present one, on record, with
/// its label; a value that cannot be read changes nothing.
pub proof fn law_command_registers_the_named_instant(
    s: StoreModel,
    value: Option<Seq<char>>,
    from: Seq<char>,
    label: Option<Seq<char>>,
    now_ns: int,
    uuid: Seq<char>,
    now: Seq<char>,
)
    ensures
        ({
            let (t, r) = s.instant_register(value, from, label, now_ns, uuid, now);
            &&& value is None ==> t == s.register_instant(now_ns, label, true, uuid, now).0
            &&& value matches Some(v) ==> (match encoding::instant_of(v, from) {
                Ok(ns) => t == s.register_instant(ns, label, false, uuid, now).0,
                Err(_) => t == s && r is Err,
            })
            &&& r matches Ok(x) ==> numeral::signed_value(x.unix_ns) == Some(
                match value {
                    Some(v) => encoding::instant_of(v, from)->Ok_0,
                    None => now_ns,
                },
            ) && x.label == label && x.from_wall_clock == (value is None)
        }),
{
    let ns = match value {
        Some(v) => encoding::instant_of(v, from)->Ok_0,
        None => now_ns,
    };
    numeral::lemma_numeral_round_trip(ns);
}

/// A system that is defined from the command line has a constant rate, and its epoch at the seconds of
/// the instant that is given; an epoch that cannot be read changes nothing.
pub proof fn law_command_defines_a_constant_system(
    s: StoreModel,
    id: Seq<char>,
    epoch_unix_s: Seq<char>,
    rate: Float,
    offset: Float,
    now: Seq<char>,
)
    ensures
        ({
            let (t, r) = s.system_create(id, epoch_unix_s, rate, offset, now);
            match encoding::instant_of(epoch_unix_s, "unix_s"@) {
                Err(_) => t == s && r is Err,
                Ok(ns) => {
                    let (u, came) = s.create_system(
                        id,
                        None,
                        groups::seconds_number(ns),
                        RateModel::Constant { value: rate },
                        offset,
                        now,
                    );
                    &&& t == u
                    &&& came matches Ok(x) ==> r == Ok::<SystemRecordModel, FailureModel>(x)
                    &&& came matches Err(e) ==> r == Err::<SystemRecordModel, FailureModel>(
                        FailureModel::Coded { code: e.code(), message: e.message() },
                    )
                },
            }
        }),
{
}

/// A group is shown at the registered instant that is named, whatever value is named besides; without
/// one, at the value that is named; and without either, at the present.
pub proof fn law_registered_instant_comes_first(
    s: StoreModel,
    id: Seq<char>,
    value: Option<Seq<char>>,
    other: Option<Seq<char>>,
    from: Seq<char>,
    now_ns: int,
)
    ensures
        s.instant_to_show(Some(id), value, from, now_ns) == s.instant_to_show(
            Some(id),
            other,
            from,
            now_ns,
        ),
        s.get_instant(id) is Err ==> s.instant_to_show(Some(id), value, from, now_ns) is Err,
        s.get_instant(id) matches Ok(m) ==> (numeral::signed_value(m.unix_ns) matches Some(ns) ==> (
        i128::MIN <= ns <= i128::MAX ==> s.instant_to_show(Some(id), value, from, now_ns) == Ok::<
            int,
            FailureModel,
        >(ns))),
        s.instant_to_show(None, None, from, now_ns) == Ok::<int, FailureModel>(now_ns),
        value matches Some(v) ==> (encoding::instant_of(v, from) matches Ok(ns)
            ==> s.instant_to_show(None, value, from, now_ns) == Ok::<int, FailureModel>(ns)),
{
}

/// A system is shown, with its definition, as it is at the seconds of the instant.
pub proof fn law_system_is_shown_at_the_instant(s: StoreModel, id: Seq<char>, ns: int)
    ensures
        s.system_at(id, ns) is Ok <==> s.get_system(id) is Ok,
        s.system_at(id, ns) matches Ok((m, local, extra)) ==> s.get_system(id) == Ok::<
            SystemRecordModel,
            StoreErrorModel,
        >(m) && s.system_now(id, groups::seconds_number(ns)) == Ok::<
            (Float, ExtraModel),
            StoreErrorModel,
        >((local, extra)),
{
}

/// The registry is kept in the file that follows the first `--db`, whatever stands around the two.
pub proof fn law_file_follows_its_argument(args: Seq<Seq<char>>, path: Seq<char>, rest: Seq<Seq<char>>)
    requires
        forall|i: int| 0 <= i < args.len() ==> #[trigger] args[i] != "--db"@,
    ensures
        db_argument(args) is None,
        db_argument(args + seq!["--db"@]) is None,
        db_argument(args + seq!["--db"@, path] + rest) == Some(path),
    decreases args.len(),
{
    let alone = args + seq!["--db"@];
    let all = args + seq!["--db"@, path] + rest;
    if args.len() == 0 {
        assert(alone[0] == "--db"@);
        assert(all[0] == "--db"@ && all[1] == path);
    } else {
        let more = args.drop_first();
        assert forall|i: int| 0 <= i < more.len() implies #[trigger] more[i] != "--db"@ by {
            assert(more[i] == args[i + 1]);
        }
        law_file_follows_its_argument(more, path, rest);
        assert(alone[0] == args[0] && all[0] == args[0]);
        assert(alone.drop_first() =~= more + seq!["--db"@]);
        assert(all.drop_first() =~= more + seq!["--db"@, path] + rest);
    }
}

} // verus!

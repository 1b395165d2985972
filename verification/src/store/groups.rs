//! Temporal groups: named, versioned lists of members, onto each of which one instant is projected.
use crate::calendar;
use crate::clock;
use crate::encoding;
use crate::encoding::{rfc3339, seconds_cut};
use crate::number;
use crate::number::{Float, Number};
use crate::numeral;
use crate::store::error;
use crate::store::error::{StoreError, StoreErrorModel};
use crate::store::systems;
use crate::store::table;
use crate::store::table::{Record, Row};
use crate::store::{Store, StoreModel};
use crate::text;
use crate::timescale::{gps_approx_ns, tai_approx_ns};
use vstd::arithmetic::power2;
use vstd::prelude::*;

verus! {

/// A remembered group.
#[derive(Debug, Clone)]
pub struct GroupRecord {
    pub id: String,
    pub members: Vec<String>,
    pub owner: Option<String>,
    pub version: i64,
    pub created_at: String,
    pub updated_at: String,
}

#[verifier::ext_equal]
pub struct GroupModel {
    pub id: Seq<char>,
    pub members: Seq<Seq<char>>,
    pub owner: Option<Seq<char>>,
    pub version: i64,
    pub created_at: Seq<char>,
    pub updated_at: Seq<char>,
}

impl View for GroupRecord {
    type V = GroupModel;

    open spec fn view(&self) -> GroupModel {
        GroupModel {
            id: self.id@,
            members: text::all(self.members@),
            owner: text::opt(self.owner),
            version: self.version,
            created_at: self.created_at@,
            updated_at: self.updated_at@,
        }
    }
}

impl Record for GroupRecord {
    fn copy(&self) -> (r: GroupRecord) {
        GroupRecord {
            id: self.id.clone(),
            members: text::copy_all(&self.members),
            owner: text::copy_opt(&self.owner),
            version: self.version,
            created_at: self.created_at.clone(),
            updated_at: self.updated_at.clone(),
        }
    }
}

impl Row for GroupRecord {
    open spec fn key_of(m: GroupModel) -> Seq<char> {
        m.id
    }

    open spec fn stamp_of(m: GroupModel) -> Seq<char> {
        m.created_at
    }

    fn key(&self) -> (r: &str) {
        self.id.as_str()
    }

    fn stamp(&self) -> (r: &str) {
        self.created_at.as_str()
    }
}

/// An instant as one member of a group shows it.
#[derive(Debug, Clone)]
pub enum MemberView {
    /// A timescale that needs no definition: `utc`, `posix`, `tai` or `gps`.
    Builtin { member: String, value: String },
    /// A civil time zone, named `tz:` and its IANA name.
    Timezone { member: String, timezone: String, value: String },
    /// A member that looks like a time zone and is none.
    UnknownTimezone { member: String, message: String },
    /// A remembered system, and its local time.
    System { member: String, value: Number },
    /// A member that is neither of these, nor the id of a system.
    UnknownSystem { member: String, message: String },
}

pub enum MemberModel {
    Builtin { member: Seq<char>, value: Seq<char> },
    Timezone { member: Seq<char>, timezone: Seq<char>, value: Seq<char> },
    UnknownTimezone { member: Seq<char>, message: Seq<char> },
    System { member: Seq<char>, value: Float },
    UnknownSystem { member: Seq<char>, message: Seq<char> },
}

impl View for MemberView {
    type V = MemberModel;

    open spec fn view(&self) -> MemberModel {
        match *self {
            MemberView::Builtin { member, value } => MemberModel::Builtin {
                member: member@,
                value: value@,
            },
            MemberView::Timezone { member, timezone, value } => MemberModel::Timezone {
                member: member@,
                timezone: timezone@,
                value: value@,
            },
            MemberView::UnknownTimezone { member, message } => MemberModel::UnknownTimezone {
                member: member@,
                message: message@,
            },
            MemberView::System { member, value } => MemberModel::System {
                member: member@,
                value: value@,
            },
            MemberView::UnknownSystem { member, message } => MemberModel::UnknownSystem {
                member: member@,
                message: message@,
            },
        }
    }
}

impl MemberView {
    /// The kind of member.
    pub fn kind(&self) -> (r: &'static str)
        ensures
            r@ == (match self@ {
                MemberModel::Builtin { .. } => "builtin"@,
                MemberModel::Timezone { .. } => "timezone"@,
                MemberModel::UnknownTimezone { .. } => "timezone"@,
                MemberModel::System { .. } => "system"@,
                MemberModel::UnknownSystem { .. } => "system"@,
            }),
    {
        match self {
            MemberView::Builtin { .. } => "builtin",
            MemberView::Timezone { .. } => "timezone",
            MemberView::UnknownTimezone { .. } => "timezone",
            MemberView::System { .. } => "system",
            MemberView::UnknownSystem { .. } => "system",
        }
    }

    /// The code of what is wrong with the member, if anything is.
    pub fn error(&self) -> (r: Option<&'static str>)
        ensures
            (match self@ {
                MemberModel::UnknownTimezone { .. } => r matches Some(c) && c@
                    == "INVALID_TIMEZONE"@,
                MemberModel::UnknownSystem { .. } => r matches Some(c) && c@ == "UNKNOWN_SYSTEM"@,
                _ => r is None,
            }),
    {
        match self {
            MemberView::UnknownTimezone { .. } => Some("INVALID_TIMEZONE"),
            MemberView::UnknownSystem { .. } => Some("UNKNOWN_SYSTEM"),
            _ => None,
        }
    }
}

/// An instant projected onto every member of a group.
#[derive(Debug, Clone)]
pub struct GroupExpansion {
    pub group_id: String,
    pub group_version: i64,
    pub unix_ns: String,
    pub rfc3339: String,
    pub members: Vec<MemberView>,
}

#[verifier::ext_equal]
pub struct ExpansionModel {
    pub group_id: Seq<char>,
    pub group_version: i64,
    pub unix_ns: Seq<char>,
    pub rfc3339: Seq<char>,
    pub members: Seq<MemberModel>,
}

impl View for GroupExpansion {
    type V = ExpansionModel;

    open spec fn view(&self) -> ExpansionModel {
        ExpansionModel {
            group_id: self.group_id@,
            group_version: self.group_version,
            unix_ns: self.unix_ns@,
            rfc3339: self.rfc3339@,
            members: table::models(self.members@),
        }
    }
}

/// The UTC text of an instant, or nothing where it has none.
pub open spec fn utc_or_empty(ns: int) -> Seq<char> {
    match encoding::rfc3339_of(ns, None) {
        Ok(s) => s,
        Err(_) => Seq::empty(),
    }
}

/// The UTC text of an instant, or nothing where it has none.
pub fn utc_text(ns: i128) -> (r: String)
    ensures
        r@ == utc_or_empty(ns as int),
{
    match rfc3339(ns, None) {
        Ok(s) => s,
        Err(_) => String::new(),
    }
}

/// The seconds since the epoch that an instant is at, as a number.
pub open spec fn seconds_number(ns: int) -> Float {
    number::nearest_to(ns).over(number::nearest_to(1_000_000_000))
}

/// The seconds since the epoch that an instant is at, as a number.
pub fn seconds_of(ns: i128) -> (r: Number)
    ensures
        r@ == seconds_number(ns as int),
{
    Number::from_int(ns).over(&Number::from_int(1_000_000_000))
}

/// Whether a member can count as far as an instant: TAI and GPS time, which run ahead of it, count in
/// 128 bits as well.
pub open spec fn can_count(member: Seq<char>, ns: int) -> bool {
    &&& member == "tai"@ ==> ns + 37_000_000_000 <= i128::MAX
    &&& member == "gps"@ ==> ns + 18_000_000_000 <= i128::MAX
}

impl StoreModel {
    /// The group with an id.
    pub open spec fn get_group(self, id: Seq<char>) -> Result<GroupModel, StoreErrorModel> {
        match table::row::<GroupRecord>(self.groups, id) {
            Some(m) => Ok(m),
            None => Err(StoreErrorModel::UnknownGroup(id)),
        }
    }

    /// Defines a group. A second definition under the same id raises the version, keeps the time of
    /// creation, and keeps the owner where none is named.
    pub open spec fn create_group(
        self,
        id: Seq<char>,
        members: Seq<Seq<char>>,
        owner: Option<Seq<char>>,
        created: Seq<char>,
        updated: Seq<char>,
    ) -> (StoreModel, Result<GroupModel, StoreErrorModel>) {
        if systems::is_blank(id) {
            (self, Err(StoreErrorModel::InvalidInput("group id must not be empty"@)))
        } else if members.len() == 0 {
            (self, Err(StoreErrorModel::InvalidInput("group.members must be a non-empty array"@)))
        } else {
            let record = match table::row::<GroupRecord>(self.groups, id) {
                Some(g) => GroupModel {
                    id,
                    members,
                    owner: if owner is Some {
                        owner
                    } else {
                        g.owner
                    },
                    version: (g.version + 1) as i64,
                    created_at: g.created_at,
                    updated_at: updated,
                },
                None => GroupModel {
                    id,
                    members,
                    owner,
                    version: 1,
                    created_at: created,
                    updated_at: updated,
                },
            };
            (
                StoreModel { groups: table::put::<GroupRecord>(self.groups, record), ..self },
                Ok(record),
            )
        }
    }

    /// How a member shows an instant. A member that says nothing of it shows what is wrong with it.
    pub open spec fn member_view(self, member: Seq<char>, ns: int) -> MemberModel {
        if member == "utc"@ {
            MemberModel::Builtin { member, value: utc_or_empty(ns) }
        } else if member == "posix"@ {
            MemberModel::Builtin { member, value: numeral::numeral(encoding::cut_seconds(ns)) }
        } else if member == "tai"@ {
            MemberModel::Builtin {
                member,
                value: numeral::numeral(encoding::cut_seconds(ns + 37_000_000_000)),
            }
        } else if member == "gps"@ {
            MemberModel::Builtin {
                member,
                value: numeral::numeral(encoding::cut_seconds(ns + 18_000_000_000)),
            }
        } else {
            match text::after_prefix(member, "tz:"@) {
                Some(timezone) => match encoding::rfc3339_of(ns, Some(timezone)) {
                    Ok(value) => MemberModel::Timezone { member, timezone, value },
                    Err(_) => MemberModel::UnknownTimezone {
                        member,
                        message: "unrecognized IANA timezone: "@ + timezone,
                    },
                },
                None => match self.system_now(member, seconds_number(ns)) {
                    Ok((value, _)) => MemberModel::System { member, value },
                    Err(_) => MemberModel::UnknownSystem {
                        member,
                        message: "no such system: "@ + member,
                    },
                },
            }
        }
    }

    /// Whether every member of a group can count as far as an instant.
    pub open spec fn reaches(self, id: Seq<char>, ns: int) -> bool {
        self.get_group(id) matches Ok(g) ==> forall|i: int|
            0 <= i < g.members.len() ==> can_count(#[trigger] g.members[i], ns)
    }

    /// An instant projected onto every member of a group.
    pub open spec fn expand_group(self, id: Seq<char>, ns: int) -> Result<
        ExpansionModel,
        StoreErrorModel,
    > {
        match self.get_group(id) {
            Ok(g) => Ok(
                ExpansionModel {
                    group_id: g.id,
                    group_version: g.version,
                    unix_ns: numeral::numeral(ns),
                    rfc3339: utc_or_empty(ns),
                    members: g.members.map_values(|m: Seq<char>| self.member_view(m, ns)),
                },
            ),
            Err(e) => Err(e),
        }
    }
}

impl Store {
    /// The group with an id.
    pub fn get_group(&self, id: &str) -> (r: Result<GroupRecord, StoreError>)
        ensures
            error::outcome(r) == self@.get_group(id@),
    {
        match table::get(&self.groups, id) {
            Some(m) => Ok(m),
            None => Err(StoreError::UnknownGroup(id.to_owned())),
        }
    }

    /// The ids of the groups, in order.
    pub fn list_groups(&self) -> (r: Vec<String>)
        ensures
            text::all(r@) == text::sorted(table::keys::<GroupRecord>(self@.groups)),
    {
        table::sorted_keys(&self.groups)
    }

    /// Defines a group at given times.
    pub fn create_group_at(
        &mut self,
        id: &str,
        members: &Vec<String>,
        owner: Option<&str>,
        created: &str,
        updated: &str,
    ) -> (r: Result<GroupRecord, StoreError>)
        requires
            old(self)@.get_group(id@) matches Ok(g) ==> g.version < i64::MAX,
        ensures
            (final(self)@, error::outcome(r)) == old(self)@.create_group(
                id@,
                text::all(members@),
                text::opt_str(owner),
                created@,
                updated@,
            ),
    {
        if systems::blank(id) {
            return Err(StoreError::InvalidInput("group id must not be empty".to_owned()));
        }
        if members.len() == 0 {
            return Err(
                StoreError::InvalidInput("group.members must be a non-empty array".to_owned()),
            );
        }
        let record: GroupRecord = match table::get(&self.groups, id) {
            Some(g) => GroupRecord {
                id: id.to_owned(),
                members: text::copy_all(members),
                owner: match owner {
                    Some(o) => Some(o.to_owned()),
                    None => g.owner,
                },
                version: g.version + 1,
                created_at: g.created_at,
                updated_at: updated.to_owned(),
            },
            None => GroupRecord {
                id: id.to_owned(),
                members: text::copy_all(members),
                owner: text::own_opt(owner),
                version: 1,
                created_at: created.to_owned(),
                updated_at: updated.to_owned(),
            },
        };
        let stored: GroupRecord = record.copy();
        table::put_row(&mut self.groups, stored);
        Ok(record)
    }

    /// Defines a group at the time of the device's clock.
    pub fn create_group(
        &mut self,
        id: &str,
        members: &Vec<String>,
        owner: Option<&str>,
    ) -> (r: Result<GroupRecord, StoreError>)
        requires
            old(self)@.get_group(id@) matches Ok(g) ==> g.version < i64::MAX,
        ensures
            exists|created: Seq<char>, updated: Seq<char>|
                clock::is_utc_stamp(created) && clock::is_utc_stamp(updated) && (
                final(self)@,
                error::outcome(r),
                ) == #[trigger] old(self)@.create_group(
                    id@,
                    text::all(members@),
                    text::opt_str(owner),
                    created,
                    updated,
                ),
    {
        let created = clock::now_text();
        let updated = clock::now_text();
        self.create_group_at(id, members, owner, created.as_str(), updated.as_str())
    }

    /// How a member shows an instant.
    pub fn resolve_member(&self, member: &str, unix_ns: i128) -> (r: MemberView)
        requires
            can_count(member@, unix_ns as int),
        ensures
            r@ == self@.member_view(member@, unix_ns as int),
    {
        let name: String = member.to_owned();
        if text::same(member, "utc") {
            MemberView::Builtin { member: name, value: utc_text(unix_ns) }
        } else if text::same(member, "posix") {
            MemberView::Builtin { member: name, value: numeral::i128_text(seconds_cut(unix_ns)) }
        } else if text::same(member, "tai") {
            MemberView::Builtin {
                member: name,
                value: numeral::i128_text(seconds_cut(tai_approx_ns(unix_ns))),
            }
        } else if text::same(member, "gps") {
            MemberView::Builtin {
                member: name,
                value: numeral::i128_text(seconds_cut(gps_approx_ns(unix_ns))),
            }
        } else {
            match text::strip_prefix(member, "tz:") {
                Some(timezone) => match rfc3339(unix_ns, Some(timezone.as_str())) {
                    Ok(value) => MemberView::Timezone { member: name, timezone, value },
                    Err(_) => MemberView::UnknownTimezone {
                        member: name,
                        message: text::join("unrecognized IANA timezone: ", timezone.as_str()),
                    },
                },
                None => match self.system_now(member, seconds_of(unix_ns)) {
                    Ok((value, _)) => MemberView::System { member: name, value },
                    Err(_) => MemberView::UnknownSystem {
                        member: name,
                        message: text::join("no such system: ", member),
                    },
                },
            }
        }
    }

    /// An instant projected onto every member of a group. A member that says nothing of the instant
    /// shows what is wrong with it, and the others are shown all the same.
    pub fn expand_group(&self, id: &str, unix_ns: i128) -> (r: Result<GroupExpansion, StoreError>)
        requires
            self@.reaches(id@, unix_ns as int),
        ensures
            error::outcome(r) == self@.expand_group(id@, unix_ns as int),
    {
        let group: GroupRecord = match self.get_group(id) {
            Ok(g) => g,
            Err(e) => {
                return Err(e);
            },
        };
        let ghost names = text::all(group.members@);
        let mut members: Vec<MemberView> = Vec::new();
        let mut i: usize = 0;
        while i < group.members.len()
            invariant
                i <= group.members.len(),
                members@.len() == i,
                names == text::all(group.members@),
                forall|k: int|
                    0 <= k < names.len() ==> can_count(#[trigger] names[k], unix_ns as int),
                forall|k: int|
                    0 <= k < i ==> (#[trigger] members@[k])@ == self@.member_view(
                        group.members@[k]@,
                        unix_ns as int,
                    ),
            decreases group.members.len() - i,
        {
            assert(names[i as int] == group.members@[i as int]@);
            members.push(self.resolve_member(group.members[i].as_str(), unix_ns));
            i = i + 1;
        }
        assert(table::models(members@) =~= names.map_values(
            |m: Seq<char>| self@.member_view(m, unix_ns as int),
        ));
        Ok(
            GroupExpansion {
                group_id: group.id,
                group_version: group.version,
                unix_ns: numeral::i128_text(unix_ns),
                rfc3339: utc_text(unix_ns),
                members,
            },
        )
    }
}

/// Defining a group again raises its version by one, keeps its time of creation, takes the new members,
/// and keeps the owner where none is named.
pub proof fn law_redefined_group_is_next_version(
    s: StoreModel,
    id: Seq<char>,
    members: Seq<Seq<char>>,
    owner: Option<Seq<char>>,
    created: Seq<char>,
    updated: Seq<char>,
)
    requires
        !systems::is_blank(id),
        members.len() > 0,
        s.get_group(id) is Ok,
        s.get_group(id)->Ok_0.version < i64::MAX,
    ensures
        ({
            let t = s.create_group(id, members, owner, created, updated).0;
            let before = s.get_group(id)->Ok_0;
            &&& t.get_group(id) matches Ok(after) && after.version == before.version + 1
                && after.created_at == before.created_at && after.members == members && (owner is None
                ==> after.owner == before.owner)
        }),
{
    let record = s.create_group(id, members, owner, created, updated).1->Ok_0;
    table::lemma_put_then_row::<GroupRecord>(s.groups, record);
}

/// A new group starts at version one.
pub proof fn law_new_group_is_first_version(
    s: StoreModel,
    id: Seq<char>,
    members: Seq<Seq<char>>,
    owner: Option<Seq<char>>,
    created: Seq<char>,
    updated: Seq<char>,
)
    requires
        !systems::is_blank(id),
        members.len() > 0,
        s.get_group(id) is Err,
    ensures
        ({
            let t = s.create_group(id, members, owner, created, updated).0;
            t.get_group(id) matches Ok(after) && after.version == 1 && after.members == members
        }),
{
    let record = s.create_group(id, members, owner, created, updated).1->Ok_0;
    table::lemma_put_then_row::<GroupRecord>(s.groups, record);
}

/// An expansion shows every member of the group, each as it would be shown alone: what is wrong with
/// one takes nothing from the others.
pub proof fn law_every_member_is_shown(s: StoreModel, id: Seq<char>, ns: int, i: int)
    requires
        s.get_group(id) is Ok,
        0 <= i < s.get_group(id)->Ok_0.members.len(),
    ensures
        s.expand_group(id, ns) is Ok,
        s.expand_group(id, ns)->Ok_0.members.len() == s.get_group(id)->Ok_0.members.len(),
        s.expand_group(id, ns)->Ok_0.members[i] == s.member_view(
            s.get_group(id)->Ok_0.members[i],
            ns,
        ),
{
}

/// A group is defined if and only if it has a name and members. It is on record as asked for, with the
/// time of this definition as its last change; every other group, and the rest of the registry, stay as
/// they are, and what is refused changes nothing.
pub proof fn law_group_is_defined_as_asked(
    s: StoreModel,
    id: Seq<char>,
    members: Seq<Seq<char>>,
    owner: Option<Seq<char>>,
    created: Seq<char>,
    updated: Seq<char>,
    other: Seq<char>,
)
    requires
        other != id,
    ensures
        ({
            let (t, r) = s.create_group(id, members, owner, created, updated);
            &&& r is Ok <==> !systems::is_blank(id) && members.len() > 0
            &&& r is Err ==> t == s
            &&& t.get_group(other) == s.get_group(other)
            &&& t == (StoreModel { groups: t.groups, ..s })
            &&& r matches Ok(m) ==> {
                &&& t.get_group(id) == r
                &&& m.id == id && m.members == members && m.updated_at == updated
                &&& owner is Some ==> m.owner == owner
                &&& s.get_group(id) is Err ==> m.owner == owner && m.created_at == created && m.version == 1
                &&& s.get_group(id) matches Ok(g) ==> {
                    &&& owner is None ==> m.owner == g.owner
                    &&& m.created_at == g.created_at
                    &&& g.version < i64::MAX ==> m.version == g.version + 1
                }
            }
        }),
{
    let r = s.create_group(id, members, owner, created, updated).1;
    if r is Ok {
        table::lemma_put_then_row::<GroupRecord>(s.groups, r->Ok_0);
        table::lemma_put_keeps_others::<GroupRecord>(s.groups, r->Ok_0, other);
    }
}

/// A number of seconds without its fraction, toward the epoch, as a numeral.
pub open spec fn counts_seconds_of(value: Seq<char>, ns: int) -> bool {
    numeral::signed_value(value) matches Some(secs) && (if ns >= 0 {
        secs * 1_000_000_000 <= ns < (secs + 1) * 1_000_000_000
    } else {
        (secs - 1) * 1_000_000_000 < ns <= secs * 1_000_000_000
    })
}

/// How a member shows an instant. UTC shows its calendar text; POSIX time, TAI and GPS time show whole
/// seconds, the latter two 37 and 18 seconds ahead; a time zone shows the calendar text at the offset it
/// has at that instant; a system shows its local time at the seconds of that instant. A zone that is
/// unknown, and a member that is none of these, say so.
pub proof fn law_member_shows_the_instant(s: StoreModel, member: Seq<char>, ns: int, zone: Seq<char>)
    ensures
        ({
            let secs = (ns / 1_000_000_000) as i64;
            let nanos = (ns % 1_000_000_000) as u32;
            let known = -8334601228800 <= ns / 1_000_000_000 <= 8210266876799;
            let offset = calendar::zone_offset(zone, secs);
            &&& known ==> s.member_view("utc"@, ns) == (MemberModel::Builtin {
                member: "utc"@,
                value: calendar::rfc3339_text(secs, nanos, 0),
            })
            &&& s.member_view("posix"@, ns) matches MemberModel::Builtin { member: m, value }
                && m == "posix"@ && counts_seconds_of(value, ns)
            &&& s.member_view("tai"@, ns) matches MemberModel::Builtin { member: m, value } && m == "tai"@
                && counts_seconds_of(value, ns + 37_000_000_000)
            &&& s.member_view("gps"@, ns) matches MemberModel::Builtin { member: m, value } && m == "gps"@
                && counts_seconds_of(value, ns + 18_000_000_000)
            &&& known && zone != "UTC"@ && zone != "Z"@ && zone != "utc"@ ==> {
                &&& offset is Some && -8334601228800 <= ns / 1_000_000_000 + offset->0 <= 8210266876799
                    ==> s.member_view("tz:"@ + zone, ns) == (MemberModel::Timezone {
                    member: "tz:"@ + zone,
                    timezone: zone,
                    value: calendar::rfc3339_text(secs, nanos, offset->0),
                })
                &&& offset is None ==> s.member_view("tz:"@ + zone, ns) == (MemberModel::UnknownTimezone {
                    member: "tz:"@ + zone,
                    message: "unrecognized IANA timezone: "@ + zone,
                })
            }
            &&& member != "utc"@ && member != "posix"@ && member != "tai"@ && member != "gps"@
                && text::after_prefix(member, "tz:"@) is None ==> match s.system_now(
                member,
                seconds_number(ns),
            ) {
                Ok((local, _)) => s.member_view(member, ns) == (MemberModel::System {
                    member,
                    value: local,
                }),
                Err(_) => s.member_view(member, ns) == (MemberModel::UnknownSystem {
                    member,
                    message: "no such system: "@ + member,
                }),
            }
        }),
{
    reveal_strlit("utc");
    reveal_strlit("posix");
    reveal_strlit("tai");
    reveal_strlit("gps");
    reveal_strlit("tz:");
    assert("utc"@[0] == 'u' && "posix"@[0] == 'p' && "tai"@[0] == 't' && "gps"@[0] == 'g');
    let tz = "tz:"@ + zone;
    assert(tz[0] == 't' && tz[1] == 'z');
    assert("tai"@[1] == 'a');
    assert(tz.take(3) =~= "tz:"@);
    assert(tz.skip(3) =~= zone);
    numeral::lemma_numeral_round_trip(encoding::cut_seconds(ns));
    numeral::lemma_numeral_round_trip(encoding::cut_seconds(ns + 37_000_000_000));
    numeral::lemma_numeral_round_trip(encoding::cut_seconds(ns + 18_000_000_000));
    encoding::law_text_is_at_the_offset_of_the_zone(ns, zone);
}

/// The seconds that systems are shown at are those of the instant, up to rounding: by less than one part
/// in `2^51` and a tick.
pub proof fn law_systems_are_shown_at_the_seconds(ns: int)
    requires
        encoding::in_i128(ns),
    ensures
        seconds_number(ns) is Finite,
        power2::pow2(53) * number::size(
            seconds_number(ns).signed_ticks() * 1_000_000_000 - ns * power2::pow2(1074),
        ) <= 4 * (number::size(ns) * power2::pow2(1074)) + power2::pow2(53) * 1_000_000_000,
{
    let e = power2::pow2(53) as int;
    let h = power2::pow2(52) as int;
    let u = power2::pow2(1074) as int;
    power2::lemma2_to64();
    power2::lemma2_to64_rest();
    power2::lemma_pow2_unfold(53);
    power2::lemma_pow2_pos(1074);
    power2::lemma_pow2_adds(64, 64);
    power2::lemma_pow2_adds(128, 1074);
    power2::lemma_pow2_strictly_increases(1202, 2097);
    power2::lemma_pow2_adds(2, 1202);
    power2::lemma_pow2_strictly_increases(1204, 2097);
    number::lemma_whole_number(1_000_000_000);
    let billion = number::nearest_to(1_000_000_000);
    let size = number::size(ns);
    assert(size * u < power2::pow2(1202)) by (nonlinear_arith)
        requires
            0 <= size <= 0x8000_0000_0000_0000_0000_0000_0000_0000,
            power2::pow2(1202) == 0x1_0000_0000_0000_0000 * 0x1_0000_0000_0000_0000 * u,
            u > 0,
    ;
    number::lemma_nearest(ns);
    let x = number::nearest_to(ns);
    let xs = x.signed_ticks();
    number::lemma_size_of_product(ns, u);
    number::lemma_part(number::size(xs - ns * u), number::size(ns * u), e);
    assert(number::size(xs) <= 2 * (size * u));
    let b = billion->ticks as int;
    assert(x->ticks * u < power2::pow2(2097) * b) by (nonlinear_arith)
        requires
            x->ticks < power2::pow2(2097),
            b >= u,
            u > 0,
    ;
    number::lemma_quotient(x, billion);
    let r = x.over(billion).signed_ticks();
    assert(r * b - xs * u == (r * 1_000_000_000 - xs) * u) by (nonlinear_arith)
        requires
            b == 1_000_000_000 * u,
    ;
    number::lemma_size_of_product(r * 1_000_000_000 - xs, u);
    number::lemma_size_of_product(xs, u);
    let off = number::size(r * 1_000_000_000 - xs);
    assert(e * off <= number::size(xs) + h * 1_000_000_000) by (nonlinear_arith)
        requires
            e * (off * u) <= number::size(xs) * u + h * b,
            b == 1_000_000_000 * u,
            u > 0,
    ;
    let total = number::size(r * 1_000_000_000 - ns * u);
    assert(total <= off + number::size(xs - ns * u));
    assert(e * total <= e * off + e * number::size(xs - ns * u)) by (nonlinear_arith)
        requires
            total <= off + number::size(xs - ns * u),
            e > 0,
    ;
}

/// An expansion names its group and the version of it, and the instant by its count and in UTC.
pub proof fn law_expansion_names_the_instant(s: StoreModel, id: Seq<char>, ns: int)
    ensures
        s.expand_group(id, ns) is Ok <==> s.get_group(id) is Ok,
        s.expand_group(id, ns) matches Ok(x) ==> {
            let g = s.get_group(id)->Ok_0;
            &&& x.group_id == g.id && x.group_version == g.version
            &&& numeral::signed_value(x.unix_ns) == Some(ns)
            &&& -8334601228800 <= ns / 1_000_000_000 <= 8210266876799 ==> x.rfc3339
                == calendar::rfc3339_text((ns / 1_000_000_000) as i64, (ns % 1_000_000_000) as u32, 0)
        },
{
    numeral::lemma_numeral_round_trip(ns);
}

} // verus!

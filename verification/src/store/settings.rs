//! Settings: what is switched on, and which capabilities are granted. What has a side effect, or reads
//! more than time, is off until someone grants it.
use crate::clock;
use crate::json;
use crate::number;
use crate::number::{Float, Number};
use crate::numeral;
use crate::store::error;
use crate::store::error::{StoreError, StoreErrorModel};
use crate::store::table;
use crate::store::table::{Record, Row};
use crate::store::{Store, StoreModel};
use crate::text;
use vstd::arithmetic::power2;
use vstd::prelude::*;

verus! {

/// A capability, and whether it is granted.
#[derive(Debug, Clone)]
pub struct ScopeEntry {
    pub name: String,
    pub granted: bool,
}

#[verifier::ext_equal]
pub struct ScopeModel {
    pub name: Seq<char>,
    pub granted: bool,
}

impl View for ScopeEntry {
    type V = ScopeModel;

    open spec fn view(&self) -> ScopeModel {
        ScopeModel { name: self.name@, granted: self.granted }
    }
}

impl Record for ScopeEntry {
    fn copy(&self) -> (r: ScopeEntry) {
        ScopeEntry { name: self.name.clone(), granted: self.granted }
    }
}

impl Row for ScopeEntry {
    open spec fn key_of(m: ScopeModel) -> Seq<char> {
        m.name
    }

    open spec fn stamp_of(m: ScopeModel) -> Seq<char> {
        m.name
    }

    fn key(&self) -> (r: &str) {
        self.name.as_str()
    }

    fn stamp(&self) -> (r: &str) {
        self.name.as_str()
    }
}

/// The capabilities, by name.
#[derive(Debug, Clone)]
pub struct Scopes {
    pub entries: Vec<ScopeEntry>,
}

impl View for Scopes {
    type V = Seq<ScopeModel>;

    open spec fn view(&self) -> Seq<ScopeModel> {
        table::models(self.entries@)
    }
}

/// Whether a capability is granted; `None` where it has no entry.
pub open spec fn scope_entry(scopes: Seq<ScopeModel>, name: Seq<char>) -> Option<bool> {
    match table::row::<ScopeEntry>(scopes, name) {
        Some(m) => Some(m.granted),
        None => None,
    }
}

impl Scopes {
    /// Whether a capability is granted; `None` where it has no entry.
    pub fn get(&self, name: &str) -> (r: Option<bool>)
        ensures
            r == scope_entry(self@, name@),
    {
        match table::get(&self.entries, name) {
            Some(entry) => Some(entry.granted),
            None => None,
        }
    }

    /// Whether a capability has an entry.
    pub fn contains_key(&self, name: &str) -> (r: bool)
        ensures
            r == (scope_entry(self@, name@) is Some),
    {
        self.get(name).is_some()
    }

    /// Grants or refuses a capability.
    pub fn insert(&mut self, name: String, granted: bool)
        ensures
            final(self)@ == table::put::<ScopeEntry>(
                old(self)@,
                (ScopeModel { name: name@, granted }),
            ),
    {
        table::put_row(&mut self.entries, ScopeEntry { name, granted });
    }

    /// A copy of the capabilities.
    pub fn copy(&self) -> (r: Scopes)
        ensures
            r@ == self@,
    {
        let mut entries: Vec<ScopeEntry> = Vec::new();
        let mut i: usize = 0;
        while i < self.entries.len()
            invariant
                i <= self.entries.len(),
                entries@.len() == i,
                forall|k: int| 0 <= k < i ==> (#[trigger] entries@[k])@ == self.entries@[k]@,
            decreases self.entries.len() - i,
        {
            entries.push(self.entries[i].copy());
            i = i + 1;
        }
        assert(table::models(entries@) =~= table::models(self.entries@));
        Scopes { entries }
    }
}

/// The capabilities that there are.
pub open spec fn scope_names() -> Seq<Seq<char>> {
    seq![
        "instant.read"@,
        "instant.create"@,
        "convert.execute"@,
        "systems.read"@,
        "systems.write"@,
        "groups.read"@,
        "groups.write"@,
        "triggers.read"@,
        "triggers.write"@,
        "triggers.cancel"@,
        "device_clock.read"@,
        "history.read"@,
        "wake_events.read"@,
        "wake_events.ack"@,
        "wake_events.complete"@,
        "decision_receipts.write"@,
        "agents.read"@,
        "agents.write"@,
        "agent_wake.dispatch"@,
    ]
}

/// Whether a capability is granted from the start: only what reads time, or computes with it.
pub open spec fn granted_from_start(name: Seq<char>) -> bool {
    name == "instant.read"@ || name == "convert.execute"@ || name == "systems.read"@ || name
        == "groups.read"@
}

/// The capabilities that there are.
pub fn all_scopes() -> (r: Vec<String>)
    ensures
        text::all(r@) == scope_names(),
{
    let mut out: Vec<String> = Vec::new();
    out.push("instant.read".to_owned());
    out.push("instant.create".to_owned());
    out.push("convert.execute".to_owned());
    out.push("systems.read".to_owned());
    out.push("systems.write".to_owned());
    out.push("groups.read".to_owned());
    out.push("groups.write".to_owned());
    out.push("triggers.read".to_owned());
    out.push("triggers.write".to_owned());
    out.push("triggers.cancel".to_owned());
    out.push("device_clock.read".to_owned());
    out.push("history.read".to_owned());
    out.push("wake_events.read".to_owned());
    out.push("wake_events.ack".to_owned());
    out.push("wake_events.complete".to_owned());
    out.push("decision_receipts.write".to_owned());
    out.push("agents.read".to_owned());
    out.push("agents.write".to_owned());
    out.push("agent_wake.dispatch".to_owned());
    assert(text::all(out@) =~= scope_names());
    out
}

/// The capabilities as they are granted from the start.
pub open spec fn initial_scopes() -> Seq<ScopeModel> {
    scope_names().map_values(
        |name: Seq<char>| ScopeModel { name, granted: granted_from_start(name) },
    )
}

/// The capabilities as they are granted from the start.
pub fn default_scopes() -> (r: Scopes)
    ensures
        r@ == initial_scopes(),
{
    let names = all_scopes();
    let mut entries: Vec<ScopeEntry> = Vec::new();
    let mut i: usize = 0;
    while i < names.len()
        invariant
            i <= names.len(),
            entries@.len() == i,
            forall|k: int|
                0 <= k < i ==> (#[trigger] entries@[k])@ == (ScopeModel {
                    name: names@[k]@,
                    granted: granted_from_start(names@[k]@),
                }),
        decreases names.len() - i,
    {
        let name: String = names[i].clone();
        let s: &str = name.as_str();
        let granted: bool = text::same(s, "instant.read") || text::same(s, "convert.execute")
            || text::same(s, "systems.read") || text::same(s, "groups.read");
        entries.push(ScopeEntry { name, granted });
        i = i + 1;
    }
    proof {
        let all = text::all(names@);
        assert(table::models(entries@) =~= all.map_values(
            |name: Seq<char>| ScopeModel { name, granted: granted_from_start(name) },
        ));
    }
    Scopes { entries }
}

/// The settings.
#[derive(Debug, Clone)]
pub struct Settings {
    /// Whether the local interface listens at all.
    pub local_api_enabled: bool,
    pub local_api_port: u16,
    /// The token that callers of the local interface present.
    pub local_api_token: String,
    pub scopes: Scopes,
    pub audit_log_enabled: bool,
    pub device_clock_observer_enabled: bool,
    pub device_clock_sample_interval_s: u64,
    pub device_clock_drift_threshold_s: Number,
    pub triggers_enabled: bool,
    pub trigger_check_interval_s: u64,
    pub wake_delivery_enabled: bool,
    pub wake_delivery_check_interval_s: u64,
    pub encrypted_storage_enabled: bool,
    pub retention_days: Option<u32>,
}

#[verifier::ext_equal]
pub struct SettingsModel {
    pub local_api_enabled: bool,
    pub local_api_port: u16,
    pub local_api_token: Seq<char>,
    pub scopes: Seq<ScopeModel>,
    pub audit_log_enabled: bool,
    pub device_clock_observer_enabled: bool,
    pub device_clock_sample_interval_s: u64,
    pub device_clock_drift_threshold_s: Float,
    pub triggers_enabled: bool,
    pub trigger_check_interval_s: u64,
    pub wake_delivery_enabled: bool,
    pub wake_delivery_check_interval_s: u64,
    pub encrypted_storage_enabled: bool,
    pub retention_days: Option<u32>,
}

impl View for Settings {
    type V = SettingsModel;

    open spec fn view(&self) -> SettingsModel {
        SettingsModel {
            local_api_enabled: self.local_api_enabled,
            local_api_port: self.local_api_port,
            local_api_token: self.local_api_token@,
            scopes: self.scopes@,
            audit_log_enabled: self.audit_log_enabled,
            device_clock_observer_enabled: self.device_clock_observer_enabled,
            device_clock_sample_interval_s: self.device_clock_sample_interval_s,
            device_clock_drift_threshold_s: self.device_clock_drift_threshold_s@,
            triggers_enabled: self.triggers_enabled,
            trigger_check_interval_s: self.trigger_check_interval_s,
            wake_delivery_enabled: self.wake_delivery_enabled,
            wake_delivery_check_interval_s: self.wake_delivery_check_interval_s,
            encrypted_storage_enabled: self.encrypted_storage_enabled,
            retention_days: self.retention_days,
        }
    }
}

/// The settings at the start: nothing listens, nothing runs in the background, calls are put on record.
pub open spec fn initial_settings(token: Seq<char>) -> SettingsModel {
    SettingsModel {
        local_api_enabled: false,
        local_api_port: 4180,
        local_api_token: token,
        scopes: initial_scopes(),
        audit_log_enabled: true,
        device_clock_observer_enabled: false,
        device_clock_sample_interval_s: 20,
        device_clock_drift_threshold_s: number::nearest_to(5),
        triggers_enabled: false,
        trigger_check_interval_s: 5,
        wake_delivery_enabled: false,
        wake_delivery_check_interval_s: 5,
        encrypted_storage_enabled: false,
        retention_days: None,
    }
}

impl SettingsModel {
    /// Whether a capability is granted.
    pub open spec fn grants(self, scope: Seq<char>) -> bool {
        scope_entry(self.scopes, scope) == Some(true)
    }
}

/// Whether a setting has an effect yet.
#[derive(Debug, Clone, Copy)]
pub struct FeatureStatus {
    pub key: &'static str,
    pub phase: &'static str,
    pub implemented: bool,
}

/// A feature's key, phase and state.
pub open spec fn feature(f: FeatureStatus) -> (Seq<char>, Seq<char>, bool) {
    (f.key@, f.phase@, f.implemented)
}

impl Settings {
    /// The settings at the start, with a given token.
    pub fn with_token(token: String) -> (r: Settings)
        ensures
            r@ == initial_settings(token@),
    {
        Settings {
            local_api_enabled: false,
            local_api_port: 4180,
            local_api_token: token,
            scopes: default_scopes(),
            audit_log_enabled: true,
            device_clock_observer_enabled: false,
            device_clock_sample_interval_s: 20,
            device_clock_drift_threshold_s: Number::from_int(5),
            triggers_enabled: false,
            trigger_check_interval_s: 5,
            wake_delivery_enabled: false,
            wake_delivery_check_interval_s: 5,
            encrypted_storage_enabled: false,
            retention_days: None,
        }
    }

    /// The features, and whether each has an effect yet.
    pub fn status() -> (r: Vec<FeatureStatus>)
        ensures
            r@.map_values(|f: FeatureStatus| feature(f)) == seq![
                ("local_api"@, "Phase 2"@, true),
                ("scopes"@, "Phase 2"@, true),
                ("audit_log"@, "Phase 2"@, true),
                ("device_clock_observer"@, "Phase 3"@, true),
                ("triggers"@, "Phase 4"@, true),
                ("encrypted_storage"@, "\u{00a7}12.3"@, false),
                ("retention_policy"@, "\u{00a7}12.3"@, false),
            ],
    {
        let mut out: Vec<FeatureStatus> = Vec::new();
        out.push(FeatureStatus { key: "local_api", phase: "Phase 2", implemented: true });
        out.push(FeatureStatus { key: "scopes", phase: "Phase 2", implemented: true });
        out.push(FeatureStatus { key: "audit_log", phase: "Phase 2", implemented: true });
        out.push(
            FeatureStatus { key: "device_clock_observer", phase: "Phase 3", implemented: true },
        );
        out.push(FeatureStatus { key: "triggers", phase: "Phase 4", implemented: true });
        out.push(
            FeatureStatus { key: "encrypted_storage", phase: "\u{00a7}12.3", implemented: false },
        );
        out.push(
            FeatureStatus { key: "retention_policy", phase: "\u{00a7}12.3", implemented: false },
        );
        assert(out@.map_values(|f: FeatureStatus| feature(f)) =~= seq![
            ("local_api"@, "Phase 2"@, true),
            ("scopes"@, "Phase 2"@, true),
            ("audit_log"@, "Phase 2"@, true),
            ("device_clock_observer"@, "Phase 3"@, true),
            ("triggers"@, "Phase 4"@, true),
            ("encrypted_storage"@, "\u{00a7}12.3"@, false),
            ("retention_policy"@, "\u{00a7}12.3"@, false),
        ]);
        out
    }

    /// Whether a capability is granted; one without an entry is not.
    pub fn is_granted(&self, scope: &str) -> (r: bool)
        ensures
            r == self@.grants(scope@),
    {
        match self.scopes.get(scope) {
            Some(granted) => granted,
            None => false,
        }
    }

    /// A copy of the settings.
    pub fn copy(&self) -> (r: Settings)
        ensures
            r@ == self@,
    {
        Settings {
            local_api_enabled: self.local_api_enabled,
            local_api_port: self.local_api_port,
            local_api_token: self.local_api_token.clone(),
            scopes: self.scopes.copy(),
            audit_log_enabled: self.audit_log_enabled,
            device_clock_observer_enabled: self.device_clock_observer_enabled,
            device_clock_sample_interval_s: self.device_clock_sample_interval_s,
            device_clock_drift_threshold_s: self.device_clock_drift_threshold_s,
            triggers_enabled: self.triggers_enabled,
            trigger_check_interval_s: self.trigger_check_interval_s,
            wake_delivery_enabled: self.wake_delivery_enabled,
            wake_delivery_check_interval_s: self.wake_delivery_check_interval_s,
            encrypted_storage_enabled: self.encrypted_storage_enabled,
            retention_days: self.retention_days,
        }
    }
}

impl Default for Settings {
    /// The settings at the start, with a fresh token.
    fn default() -> (r: Settings)
        ensures
            exists|token: Seq<char>| clock::is_token(token) && r@ == #[trigger] initial_settings(token),
    {
        Settings::with_token(clock::fresh_token())
    }
}

/// The entry of a capability, as it is saved.
pub open spec fn scope_text(m: ScopeModel) -> Seq<char> {
    json::string_text(m.name) + ":"@ + json::bool_text(m.granted)
}

/// The entries of capabilities, as they are saved.
pub open spec fn scopes_text(scopes: Seq<ScopeModel>) -> Seq<char>
    decreases scopes.len(),
{
    if scopes.len() == 0 {
        Seq::empty()
    } else if scopes.len() == 1 {
        scope_text(scopes[0])
    } else {
        scopes_text(scopes.drop_last()) + ","@ + scope_text(scopes.last())
    }
}

/// The settings as they are saved, a JSON object, up to a threshold that JSON has no number for. The
/// entries of the capabilities are saved in the order of their names; here they stand in their own.
pub open spec fn text_to_threshold(s: SettingsModel) -> Seq<char> {
    "{\"local_api_enabled\":"@ + json::bool_text(s.local_api_enabled) + ",\"local_api_port\":"@
        + numeral::digits_of(s.local_api_port as nat) + ",\"local_api_token\":"@ + json::string_text(
        s.local_api_token,
    ) + ",\"scopes\":{"@ + scopes_text(s.scopes) + "},\"audit_log_enabled\":"@ + json::bool_text(
        s.audit_log_enabled,
    ) + ",\"device_clock_observer_enabled\":"@ + json::bool_text(s.device_clock_observer_enabled)
        + ",\"device_clock_drift_threshold_s\":null"@
}

/// Why settings cannot be read again whose threshold is no finite number: the number is missing, and its
/// place is the column, in bytes, that the text reaches with it.
pub open spec fn no_threshold(s: SettingsModel) -> StoreErrorModel {
    StoreErrorModel::Json(
        "invalid type: null, expected f64 at line 1 column "@ + numeral::digits_of(
            vstd::utf8::encode_utf8(text_to_threshold(s)).len(),
        ),
    )
}

/// The entries of capabilities, as they are saved.
fn write_scopes(scopes: &Scopes) -> (r: String)
    ensures
        r@ == scopes_text(scopes@),
{
    let ghost all = scopes@;
    let mut out = String::new();
    let mut i: usize = 0;
    assert(all.take(0) =~= Seq::<ScopeModel>::empty());
    assert(out@ =~= scopes_text(all.take(0)));
    while i < scopes.entries.len()
        invariant
            i <= scopes.entries.len(),
            all == table::models(scopes.entries@),
            out@ == scopes_text(all.take(i as int)),
        decreases scopes.entries.len() - i,
    {
        let e: &ScopeEntry = &scopes.entries[i];
        assert(all[i as int] == e@);
        assert(all.take(i + 1).drop_last() =~= all.take(i as int));
        assert(all.take(i + 1).last() == e@);
        let name = json::quote(e.name.as_str());
        let entry = text::join3(name.as_str(), ":", json::bool_word(e.granted));
        if i == 0 {
            assert(all.take(1)[0] == e@);
            out = entry;
        } else {
            out = text::join3(out.as_str(), ",", entry.as_str());
        }
        i = i + 1;
    }
    assert(all.take(i as int) =~= all);
    out
}

impl Settings {
    /// The settings as they are saved, up to a threshold that JSON has no number for.
    fn write_to_threshold(&self) -> (r: String)
        ensures
            r@ == text_to_threshold(self@),
    {
        let a = text::join3(
            "{\"local_api_enabled\":",
            json::bool_word(self.local_api_enabled),
            ",\"local_api_port\":",
        );
        let port = numeral::u128_text(self.local_api_port as u128);
        let b = text::join3(a.as_str(), port.as_str(), ",\"local_api_token\":");
        let token = json::quote(self.local_api_token.as_str());
        let c = text::join3(b.as_str(), token.as_str(), ",\"scopes\":{");
        let scopes = write_scopes(&self.scopes);
        let d = text::join3(c.as_str(), scopes.as_str(), "},\"audit_log_enabled\":");
        let e = text::join3(
            d.as_str(),
            json::bool_word(self.audit_log_enabled),
            ",\"device_clock_observer_enabled\":",
        );
        text::join3(
            e.as_str(),
            json::bool_word(self.device_clock_observer_enabled),
            ",\"device_clock_drift_threshold_s\":null",
        )
    }

    /// Why the settings cannot be read again where their threshold is no finite number.
    fn explain_no_threshold(&self) -> (r: StoreError)
        ensures
            r@ == no_threshold(self@),
    {
        let head = self.write_to_threshold();
        let column: usize = head.as_str().as_bytes().len();
        let digits = numeral::u128_text(column as u128);
        StoreError::Json(
            text::join("invalid type: null, expected f64 at line 1 column ", digits.as_str()),
        )
    }
}

impl StoreModel {
    /// The settings; those at the start where none were saved, which are saved then. Settings are kept
    /// as JSON, which has no infinities and no NaN: those with such a threshold cannot be read again.
    pub open spec fn get_settings(self, token: Seq<char>) -> (
        StoreModel,
        Result<SettingsModel, StoreErrorModel>,
    ) {
        match self.settings {
            Some(s) => (
                self,
                if s.device_clock_drift_threshold_s is Finite {
                    Ok(s)
                } else {
                    Err(no_threshold(s))
                },
            ),
            None => (
                StoreModel { settings: Some(initial_settings(token)), ..self },
                Ok(initial_settings(token)),
            ),
        }
    }

    /// Saves the settings.
    pub open spec fn save_settings(self, settings: SettingsModel) -> StoreModel {
        StoreModel { settings: Some(settings), ..self }
    }

    /// Replaces the token of the local interface.
    pub open spec fn regenerate_api_token(self, first: Seq<char>, token: Seq<char>) -> (
        StoreModel,
        Result<SettingsModel, StoreErrorModel>,
    ) {
        match self.get_settings(first).1 {
            Ok(settings) => {
                let after = SettingsModel { local_api_token: token, ..settings };
                (self.save_settings(after), Ok(after))
            },
            Err(e) => (self, Err(e)),
        }
    }
}

impl Store {
    /// The settings; those at the start, with a given token, where none were saved.
    pub fn get_settings_with(&mut self, token: &str) -> (r: Result<Settings, StoreError>)
        ensures
            (final(self)@, error::outcome(r)) == old(self)@.get_settings(token@),
    {
        match &self.settings {
            Some(s) => {
                return if s.device_clock_drift_threshold_s.is_finite() {
                    Ok(s.copy())
                } else {
                    Err(s.explain_no_threshold())
                };
            },
            None => {},
        }
        let settings = Settings::with_token(token.to_owned());
        self.settings = Some(settings.copy());
        Ok(settings)
    }

    /// The settings; those at the start, with a fresh token, where none were saved.
    pub fn get_settings(&mut self) -> (r: Result<Settings, StoreError>)
        ensures
            exists|token: Seq<char>|
                clock::is_token(token) && (final(self)@, error::outcome(r))
                    == #[trigger] old(self)@.get_settings(token),
    {
        let token = clock::fresh_token();
        self.get_settings_with(token.as_str())
    }

    /// Saves the settings.
    pub fn save_settings(&mut self, settings: &Settings)
        ensures
            final(self)@ == old(self)@.save_settings(settings@),
    {
        self.settings = Some(settings.copy());
    }

    /// Replaces the token of the local interface by a given one.
    pub fn regenerate_api_token_with(&mut self, first: &str, token: &str) -> (r: Result<
        Settings,
        StoreError,
    >)
        ensures
            (final(self)@, error::outcome(r)) == old(self)@.regenerate_api_token(first@, token@),
    {
        let mut settings: Settings = match self.get_settings_with(first) {
            Ok(s) => s,
            Err(e) => {
                return Err(e);
            },
        };
        settings.local_api_token = token.to_owned();
        self.save_settings(&settings);
        Ok(settings)
    }

    /// Replaces the token of the local interface by a fresh one.
    pub fn regenerate_api_token(&mut self) -> (r: Result<Settings, StoreError>)
        ensures
            exists|first: Seq<char>, token: Seq<char>|
                clock::is_token(first) && clock::is_token(token) && (final(self)@, error::outcome(r))
                    == #[trigger] old(self)@.regenerate_api_token(first, token),
    {
        let first = clock::fresh_token();
        let token = clock::fresh_token();
        self.regenerate_api_token_with(first.as_str(), token.as_str())
    }
}

/// Saved settings are the ones that are read, until others are saved.
pub proof fn law_saved_settings_are_read(s: StoreModel, settings: SettingsModel, token: Seq<char>)
    requires
        settings.device_clock_drift_threshold_s is Finite,
    ensures
        s.save_settings(settings).get_settings(token) == (
            s.save_settings(settings),
            Ok::<SettingsModel, StoreErrorModel>(settings),
        ),
{
}

/// At the start nothing is switched on that listens, runs in the background or reaches out, and only
/// four capabilities are granted.
pub proof fn law_off_by_default(token: Seq<char>, scope: Seq<char>)
    ensures
        ({
            let s = initial_settings(token);
            &&& !s.local_api_enabled
            &&& !s.device_clock_observer_enabled
            &&& !s.triggers_enabled
            &&& !s.wake_delivery_enabled
            &&& s.audit_log_enabled
            &&& s.grants(scope) ==> granted_from_start(scope)
        }),
{
    table::lemma_place::<ScopeEntry>(initial_scopes(), scope);
}

/// Every capability has an entry from the start, and it says what is granted from the start.
pub proof fn law_every_scope_has_a_default(i: int)
    requires
        0 <= i < scope_names().len(),
    ensures
        scope_entry(initial_scopes(), scope_names()[i]) == Some(
            granted_from_start(scope_names()[i]),
        ),
{
    let name = scope_names()[i];
    table::lemma_place::<ScopeEntry>(initial_scopes(), name);
    assert(initial_scopes()[i].name == name);
}

/// A capability counts as it was set last, and setting it leaves the others alone.
pub proof fn law_scope_counts_as_set(scopes: Seq<ScopeModel>, name: Seq<char>, granted: bool, other: Seq<char>)
    requires
        other != name,
    ensures
        ({
            let t = table::put::<ScopeEntry>(scopes, ScopeModel { name, granted });
            &&& scope_entry(t, name) == Some(granted)
            &&& scope_entry(t, other) == scope_entry(scopes, other)
        }),
{
    table::lemma_put_then_row::<ScopeEntry>(scopes, ScopeModel { name, granted });
    table::lemma_put_keeps_others::<ScopeEntry>(scopes, ScopeModel { name, granted }, other);
}

/// The settings at the start.
pub proof fn law_settings_at_the_start(s: StoreModel, token: Seq<char>)
    requires
        s.settings is None,
    ensures
        ({
            let (t, r) = s.get_settings(token);
            &&& t == (StoreModel { settings: t.settings, ..s })
            &&& r matches Ok(x) && t.settings == Some(x) && x.local_api_token == token
                && x.local_api_port == 4180 && x.device_clock_sample_interval_s == 20
                && x.trigger_check_interval_s == 5 && x.wake_delivery_check_interval_s == 5
                && !x.encrypted_storage_enabled && x.retention_days is None && !x.local_api_enabled
                && !x.device_clock_observer_enabled && !x.triggers_enabled && !x.wake_delivery_enabled
                && x.audit_log_enabled
            &&& r->Ok_0.device_clock_drift_threshold_s == (Float::Finite {
                negative: false,
                ticks: (5 * power2::pow2(1074)) as nat,
            })
        }),
{
    number::lemma_whole_number(5);
}

/// Reading settings that were saved changes nothing, and saving them changes nothing else.
pub proof fn law_settings_are_kept(s: StoreModel, settings: SettingsModel, token: Seq<char>)
    ensures
        s.settings is Some ==> s.get_settings(token).0 == s,
        s.settings matches Some(x) ==> (s.get_settings(token).1 is Ok
            <==> x.device_clock_drift_threshold_s is Finite),
        s.get_settings(token).1 matches Ok(x) ==> (s.settings is Some ==> s.settings == Some(x)),
        s.save_settings(settings) == (StoreModel { settings: Some(settings), ..s }),
{
}

/// A new token takes the place of the old one, and nothing else changes in the settings.
pub proof fn law_new_token_replaces_only_the_token(s: StoreModel, first: Seq<char>, token: Seq<char>)
    ensures
        ({
            let (t, r) = s.regenerate_api_token(first, token);
            &&& r is Ok <==> s.get_settings(first).1 is Ok
            &&& r is Err ==> t == s
            &&& r matches Ok(x) ==> {
                &&& x == (SettingsModel { local_api_token: token, ..s.get_settings(first).1->Ok_0 })
                &&& x.local_api_token == token
                &&& t == (StoreModel { settings: Some(x), ..s })
            }
        }),
{
}

/// A capability is granted if and only if its entry says so; one without an entry is not granted.
pub proof fn law_granted_means_an_entry_says_so(s: SettingsModel, scope: Seq<char>)
    ensures
        s.grants(scope) ==> exists|i: int|
            0 <= i < s.scopes.len() && (#[trigger] s.scopes[i]).name == scope && s.scopes[i].granted,
        (forall|i: int| 0 <= i < s.scopes.len() ==> (#[trigger] s.scopes[i]).name != scope)
            ==> !s.grants(scope),
        (exists|i: int| 0 <= i < s.scopes.len() && (#[trigger] s.scopes[i]).name == scope) && (forall|
            i: int,
        |
            0 <= i < s.scopes.len() && (#[trigger] s.scopes[i]).name == scope ==> s.scopes[i].granted)
            ==> s.grants(scope),
{
    table::lemma_place::<ScopeEntry>(s.scopes, scope);
}

/// From the start what reads time or computes with it is granted, and nothing else is.
pub proof fn law_granted_at_the_start(token: Seq<char>, scope: Seq<char>)
    ensures
        initial_settings(token).grants(scope) <==> (scope == "instant.read"@ || scope
            == "convert.execute"@ || scope == "systems.read"@ || scope == "groups.read"@),
{
    law_off_by_default(token, scope);
    law_every_scope_has_a_default(0);
    law_every_scope_has_a_default(2);
    law_every_scope_has_a_default(3);
    law_every_scope_has_a_default(5);
    assert(scope_names()[0] == "instant.read"@);
    assert(scope_names()[2] == "convert.execute"@);
    assert(scope_names()[3] == "systems.read"@);
    assert(scope_names()[5] == "groups.read"@);
}

/// The capabilities that there are, one by one.
pub proof fn lemma_scope_names()
    ensures
        scope_names().len() == 19,
        scope_names().contains("instant.read"@),
        scope_names().contains("instant.create"@),
        scope_names().contains("convert.execute"@),
        scope_names().contains("systems.read"@),
        scope_names().contains("systems.write"@),
        scope_names().contains("groups.read"@),
        scope_names().contains("groups.write"@),
        scope_names().contains("triggers.read"@),
        scope_names().contains("triggers.write"@),
        scope_names().contains("triggers.cancel"@),
        scope_names().contains("device_clock.read"@),
        scope_names().contains("history.read"@),
        scope_names().contains("wake_events.read"@),
        scope_names().contains("wake_events.ack"@),
        scope_names().contains("wake_events.complete"@),
        scope_names().contains("decision_receipts.write"@),
        scope_names().contains("agents.read"@),
        scope_names().contains("agents.write"@),
        scope_names().contains("agent_wake.dispatch"@),
{
    assert(scope_names()[0] == "instant.read"@);
    assert(scope_names()[1] == "instant.create"@);
    assert(scope_names()[2] == "convert.execute"@);
    assert(scope_names()[3] == "systems.read"@);
    assert(scope_names()[4] == "systems.write"@);
    assert(scope_names()[5] == "groups.read"@);
    assert(scope_names()[6] == "groups.write"@);
    assert(scope_names()[7] == "triggers.read"@);
    assert(scope_names()[8] == "triggers.write"@);
    assert(scope_names()[9] == "triggers.cancel"@);
    assert(scope_names()[10] == "device_clock.read"@);
    assert(scope_names()[11] == "history.read"@);
    assert(scope_names()[12] == "wake_events.read"@);
    assert(scope_names()[13] == "wake_events.ack"@);
    assert(scope_names()[14] == "wake_events.complete"@);
    assert(scope_names()[15] == "decision_receipts.write"@);
    assert(scope_names()[16] == "agents.read"@);
    assert(scope_names()[17] == "agents.write"@);
    assert(scope_names()[18] == "agent_wake.dispatch"@);
}

} // verus!

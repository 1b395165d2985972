//! One step of watching the device's clock: what a sample shows, and whether it goes on record.
use crate::clock;
use crate::number::{Float, Number};
use crate::store::device;
use crate::store::device::{classify_gap, EventKind};
use crate::store::{Store, StoreModel};
use vstd::prelude::*;

verus! {

/// The last sample that was taken, kept for whoever asks how the clock is doing.
#[derive(Debug, Clone)]
pub struct LastSample {
    pub at: String,
    pub kind: EventKind,
    pub delta_ms: i64,
    pub wall_gap_ms: i64,
    pub mono_gap_ms: i64,
}

pub struct SampleModel {
    pub at: Seq<char>,
    pub kind: EventKind,
    pub delta_ms: i64,
    pub wall_gap_ms: i64,
    pub mono_gap_ms: i64,
}

impl View for LastSample {
    type V = SampleModel;

    open spec fn view(&self) -> SampleModel {
        SampleModel {
            at: self.at@,
            kind: self.kind,
            delta_ms: self.delta_ms,
            wall_gap_ms: self.wall_gap_ms,
            mono_gap_ms: self.mono_gap_ms,
        }
    }
}

/// The seconds between two rounds of a background task: what was asked for, and at least one.
pub open spec fn paced(interval_s: u64) -> u64 {
    if interval_s < 1 {
        1
    } else {
        interval_s
    }
}

/// The seconds between two rounds of a background task: what was asked for, and at least one.
pub fn pace(interval_s: u64) -> (r: u64)
    ensures
        r == paced(interval_s),
{
    if interval_s < 1 {
        1
    } else {
        interval_s
    }
}

/// The gap in milliseconds that the wall clock shows: `Ok` with how far it went forward, `Err` with how
/// far it went back.
pub open spec fn signed_gap(moved: Result<u64, u64>) -> int {
    match moved {
        Ok(ms) => ms as int,
        Err(ms) => -(ms as int),
    }
}

/// The gap in milliseconds that the wall clock shows: `Ok` with how far it went forward, `Err` with how
/// far it went back.
pub fn wall_gap(moved: Result<u64, u64>) -> (r: i64)
    requires
        -i64::MAX <= signed_gap(moved) <= i64::MAX,
    ensures
        r == signed_gap(moved),
{
    match moved {
        Ok(ms) => ms as i64,
        Err(ms) => -(ms as i64),
    }
}

/// What a sample shows. `gaps` is how far the wall clock and the monotonic clock have moved since the
/// sample before; at the first sample there is nothing to compare with.
pub open spec fn sample_of(
    gaps: Option<(i64, i64)>,
    interval_s: u64,
    drift_warn_s: Float,
    at: Seq<char>,
) -> SampleModel {
    match gaps {
        Some((wall, mono)) => SampleModel {
            at,
            kind: device::gap_kind(wall as int, mono as int, interval_s, drift_warn_s),
            delta_ms: (wall - mono) as i64,
            wall_gap_ms: wall,
            mono_gap_ms: mono,
        },
        None => SampleModel {
            at,
            kind: EventKind::Normal,
            delta_ms: 0,
            wall_gap_ms: 0,
            mono_gap_ms: 0,
        },
    }
}

/// Whether two gaps lie no further apart than 64 bits can tell.
pub open spec fn are_comparable(gaps: Option<(i64, i64)>) -> bool {
    gaps matches Some((wall, mono)) ==> i64::MIN <= wall - mono <= i64::MAX
}

/// What a sample shows.
pub fn read_sample(
    gaps: Option<(i64, i64)>,
    interval_s: u64,
    drift_warn_s: Number,
    at: &str,
) -> (r: LastSample)
    requires
        are_comparable(gaps),
    ensures
        r@ == sample_of(gaps, interval_s, drift_warn_s@, at@),
{
    match gaps {
        Some((wall_gap_ms, mono_gap_ms)) => {
            let (kind, delta_ms) = classify_gap(wall_gap_ms, mono_gap_ms, interval_s, drift_warn_s);
            LastSample { at: at.to_owned(), kind, delta_ms, wall_gap_ms, mono_gap_ms }
        },
        None => LastSample {
            at: at.to_owned(),
            kind: EventKind::Normal,
            delta_ms: 0,
            wall_gap_ms: 0,
            mono_gap_ms: 0,
        },
    }
}

impl StoreModel {
    /// The registry after a sample: an irregularity goes on record, what is normal does not.
    pub open spec fn keep_sample(self, sample: SampleModel, logged_at: Seq<char>) -> StoreModel {
        if sample.kind == EventKind::Normal {
            self
        } else {
            self.log_device_event(
                sample.kind,
                sample.delta_ms,
                sample.wall_gap_ms,
                sample.mono_gap_ms,
                logged_at,
            ).0
        }
    }
}

impl Store {
    /// Takes a sample at given times: of the sample itself, and of the entry in the registry.
    pub fn take_sample_at(
        &mut self,
        gaps: Option<(i64, i64)>,
        interval_s: u64,
        drift_warn_s: Number,
        at: &str,
        logged_at: &str,
    ) -> (r: LastSample)
        requires
            are_comparable(gaps),
        ensures
            r@ == sample_of(gaps, interval_s, drift_warn_s@, at@),
            final(self)@ == old(self)@.keep_sample(r@, logged_at@),
    {
        let sample = read_sample(gaps, interval_s, drift_warn_s, at);
        if sample.kind != EventKind::Normal {
            let _ = self.log_device_event_at(
                sample.kind,
                sample.delta_ms,
                sample.wall_gap_ms,
                sample.mono_gap_ms,
                logged_at,
            );
        }
        sample
    }

    /// Takes a sample at the time of the device's clock.
    pub fn take_sample(
        &mut self,
        gaps: Option<(i64, i64)>,
        interval_s: u64,
        drift_warn_s: Number,
    ) -> (r: LastSample)
        requires
            are_comparable(gaps),
        ensures
            clock::is_utc_stamp(r@.at),
            r@ == sample_of(gaps, interval_s, drift_warn_s@, r@.at),
            exists|logged_at: Seq<char>|
                clock::is_utc_stamp(logged_at) && final(self)@ == #[trigger] old(self)@.keep_sample(
                    r@,
                    logged_at,
                ),
    {
        let at = clock::now_text();
        let logged_at = clock::now_text();
        self.take_sample_at(gaps, interval_s, drift_warn_s, at.as_str(), logged_at.as_str())
    }
}

/// Only irregularities go on record: a normal sample, and the first of all, leave the registry as it
/// was, and any other adds one entry that says what the sample showed.
pub proof fn law_only_irregularities_are_kept(
    s: StoreModel,
    gaps: Option<(i64, i64)>,
    interval_s: u64,
    drift_warn_s: Float,
    at: Seq<char>,
    logged_at: Seq<char>,
)
    requires
        s.last_device_event_id() < i64::MAX,
    ensures
        ({
            let sample = sample_of(gaps, interval_s, drift_warn_s, at);
            let t = s.keep_sample(sample, logged_at);
            &&& gaps is None || sample.kind == EventKind::Normal ==> t == s
            &&& sample.kind != EventKind::Normal ==> {
                &&& t.device_events.drop_last() == s.device_events
                &&& t.device_events.last().kind == sample.kind.name()
                &&& t.device_events.last().delta_ms == sample.delta_ms
                &&& t.device_events.last().at == logged_at
                &&& t == (StoreModel { device_events: t.device_events, ..s })
            }
        }),
{
    let sample = sample_of(gaps, interval_s, drift_warn_s, at);
    let t = s.keep_sample(sample, logged_at);
    if sample.kind != EventKind::Normal {
        assert(t.device_events.drop_last() =~= s.device_events);
    }
}

/// A sample shows how far both clocks moved since the one before, how far the wall clock moved beyond the
/// monotonic one, and what that means; the first one has nothing to compare with and is normal.
pub proof fn law_sample_shows_the_gaps(
    wall: i64,
    mono: i64,
    interval_s: u64,
    drift_warn_s: Float,
    at: Seq<char>,
)
    requires
        i64::MIN <= wall - mono <= i64::MAX,
    ensures
        ({
            let x = sample_of(Some((wall, mono)), interval_s, drift_warn_s, at);
            &&& x.at == at && x.wall_gap_ms == wall && x.mono_gap_ms == mono
            &&& x.delta_ms == wall - mono
            &&& x.kind == device::gap_kind(wall as int, mono as int, interval_s, drift_warn_s)
        }),
        ({
            let x = sample_of(None, interval_s, drift_warn_s, at);
            &&& x.at == at && x.wall_gap_ms == 0 && x.mono_gap_ms == 0
            &&& x.delta_ms == 0 && x.kind == EventKind::Normal
        }),
{
}

/// A wall clock that went back shows a gap below zero, and one that went on a gap above it.
pub proof fn law_gap_has_a_sign(ms: u64)
    ensures
        signed_gap(Ok(ms)) == ms,
        signed_gap(Err(ms)) == 0 - ms,
{
}

/// Rounds are as far apart as was asked for, and at least a second.
pub proof fn law_rounds_keep_their_pace(interval_s: u64)
    ensures
        interval_s >= 1 ==> paced(interval_s) == interval_s,
        paced(0) == 1,
{
}

} // verus!

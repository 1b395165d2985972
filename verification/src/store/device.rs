//! The device's own clock, watched for consistency with itself: at each sample the gaps since the
//! last one, by the wall clock and by the monotonic clock, are held against the requested interval and
//! against each other. No other clock is asked.
use crate::clock;
use crate::number;
use crate::number::{Float, Number};
use crate::rounding;
use crate::store::error;
use crate::store::error::{StoreError, StoreErrorModel};
use crate::store::table;
use crate::store::table::Record;
use crate::store::{Store, StoreModel};
use crate::system;
use vstd::arithmetic::power2;
use vstd::prelude::*;

verus! {

/// What happened between two samples.
#[derive(Debug, Clone, Copy, PartialEq, Eq, Structural)]
pub enum EventKind {
    Normal,
    Drift,
    SleepWake,
    Rollback,
}

impl EventKind {
    /// The kind's name.
    pub open spec fn name(self) -> Seq<char> {
        match self {
            EventKind::Normal => "normal"@,
            EventKind::Drift => "drift"@,
            EventKind::SleepWake => "sleep_wake"@,
            EventKind::Rollback => "rollback"@,
        }
    }

    /// The kind's name.
    pub fn as_str(&self) -> (r: &'static str)
        ensures
            r@ == self.name(),
    {
        match self {
            EventKind::Normal => "normal",
            EventKind::Drift => "drift",
            EventKind::SleepWake => "sleep_wake",
            EventKind::Rollback => "rollback",
        }
    }
}

/// `n`, or the nearest number that 64 bits hold.
pub open spec fn saturated(n: int) -> int {
    if n > i64::MAX {
        i64::MAX as int
    } else if n < i64::MIN {
        i64::MIN as int
    } else {
        n
    }
}

/// `n`, or the nearest number that 64 bits hold.
fn saturate(n: i128) -> (r: i64)
    ensures
        r == saturated(n as int),
{
    if n > i64::MAX as i128 {
        i64::MAX
    } else if n < i64::MIN as i128 {
        i64::MIN
    } else {
        n as i64
    }
}

/// The wall-clock gap beyond which the process cannot have been running all the time: three times the
/// requested interval, and at least half a minute over it.
pub open spec fn sleep_gap(interval_s: u64) -> int {
    let interval_ms = saturated((interval_s as i64) * 1000);
    let tripled = saturated(interval_ms * 3);
    let padded = saturated(interval_ms + 30_000);
    if tripled > padded {
        tripled
    } else {
        padded
    }
}

/// The wall-clock gap beyond which the process cannot have been running all the time.
pub fn sleep_wake_threshold_ms(interval_s: u64) -> (r: i64)
    ensures
        r == sleep_gap(interval_s),
{
    let interval: i64 = #[verifier::truncate]
    (interval_s as i64);
    let interval_ms: i64 = saturate(interval as i128 * 1000);
    let tripled: i64 = saturate(interval_ms as i128 * 3);
    let padded: i64 = saturate(interval_ms as i128 + 30_000);
    if tripled > padded {
        tripled
    } else {
        padded
    }
}

/// Less than this behind is the jitter of a clock that is being corrected, not a clock set back.
pub const ROLLBACK_SLACK_MS: i64 = 500;

/// The milliseconds of drift that are tolerated.
pub open spec fn tolerated_ms(drift_warn_s: Float) -> int {
    drift_warn_s.larger(system::zero()).times(number::nearest_to(1000)).to_i64()
}

/// What a pair of gaps means, the long gap before the disagreement: whether a monotonic clock counts
/// the time of a suspended device differs between systems, and the length of the wall-clock gap does
/// not.
pub open spec fn gap_kind(wall: int, mono: int, interval_s: u64, drift_warn_s: Float) -> EventKind {
    let delta = wall - mono;
    if wall > sleep_gap(interval_s) {
        EventKind::SleepWake
    } else if delta < -ROLLBACK_SLACK_MS {
        EventKind::Rollback
    } else if (if delta < 0 {
        -delta
    } else {
        delta
    }) > tolerated_ms(drift_warn_s) {
        EventKind::Drift
    } else {
        EventKind::Normal
    }
}

/// What happened between two samples, and how far the wall clock moved beyond the monotonic clock.
pub fn classify_gap(
    wall_gap_ms: i64,
    mono_gap_ms: i64,
    interval_s: u64,
    drift_warn_s: Number,
) -> (r: (EventKind, i64))
    requires
        i64::MIN <= wall_gap_ms - mono_gap_ms <= i64::MAX,
    ensures
        r.0 == gap_kind(wall_gap_ms as int, mono_gap_ms as int, interval_s, drift_warn_s@),
        r.1 == wall_gap_ms - mono_gap_ms,
{
    let delta_ms: i64 = wall_gap_ms - mono_gap_ms;
    if wall_gap_ms > sleep_wake_threshold_ms(interval_s) {
        return (EventKind::SleepWake, delta_ms);
    }
    if delta_ms < -ROLLBACK_SLACK_MS {
        return (EventKind::Rollback, delta_ms);
    }
    let tolerated: i64 = drift_warn_s.larger(&Number::zero(false)).times(
        &Number::from_int(1000),
    ).to_i64();
    let distance: i64 = if delta_ms < 0 {
        -delta_ms
    } else {
        delta_ms
    };
    if distance > tolerated {
        return (EventKind::Drift, delta_ms);
    }
    (EventKind::Normal, delta_ms)
}

/// An irregularity on record.
#[derive(Debug, Clone)]
pub struct DeviceEvent {
    pub id: i64,
    pub at: String,
    pub kind: String,
    pub delta_ms: i64,
    pub wall_gap_ms: i64,
    pub mono_gap_ms: i64,
}

#[verifier::ext_equal]
pub struct DeviceEventModel {
    pub id: i64,
    pub at: Seq<char>,
    pub kind: Seq<char>,
    pub delta_ms: i64,
    pub wall_gap_ms: i64,
    pub mono_gap_ms: i64,
}

impl View for DeviceEvent {
    type V = DeviceEventModel;

    open spec fn view(&self) -> DeviceEventModel {
        DeviceEventModel {
            id: self.id,
            at: self.at@,
            kind: self.kind@,
            delta_ms: self.delta_ms,
            wall_gap_ms: self.wall_gap_ms,
            mono_gap_ms: self.mono_gap_ms,
        }
    }
}

impl Record for DeviceEvent {
    fn copy(&self) -> (r: DeviceEvent) {
        DeviceEvent {
            id: self.id,
            at: self.at.clone(),
            kind: self.kind.clone(),
            delta_ms: self.delta_ms,
            wall_gap_ms: self.wall_gap_ms,
            mono_gap_ms: self.mono_gap_ms,
        }
    }
}

impl StoreModel {
    /// The number of the last irregularity on record, zero before the first.
    pub open spec fn last_device_event_id(self) -> i64 {
        if self.device_events.len() == 0 {
            0
        } else {
            self.device_events.last().id
        }
    }

    /// Puts an irregularity on record, under the next number.
    pub open spec fn log_device_event(
        self,
        kind: EventKind,
        delta_ms: i64,
        wall_gap_ms: i64,
        mono_gap_ms: i64,
        now: Seq<char>,
    ) -> (StoreModel, Result<(), StoreErrorModel>) {
        if self.last_device_event_id() == i64::MAX {
            (self, Err(StoreErrorModel::Sqlite("database or disk is full"@)))
        } else {
            let event = DeviceEventModel {
                id: (self.last_device_event_id() + 1) as i64,
                at: now,
                kind: kind.name(),
                delta_ms,
                wall_gap_ms,
                mono_gap_ms,
            };
            (StoreModel { device_events: self.device_events.push(event), ..self }, Ok(()))
        }
    }
}

impl Store {
    /// Puts an irregularity on record at a given time.
    pub fn log_device_event_at(
        &mut self,
        kind: EventKind,
        delta_ms: i64,
        wall_gap_ms: i64,
        mono_gap_ms: i64,
        now: &str,
    ) -> (r: Result<(), StoreError>)
        ensures
            (final(self)@, error::done(r)) == old(self)@.log_device_event(
                kind,
                delta_ms,
                wall_gap_ms,
                mono_gap_ms,
                now@,
            ),
    {
        let n: usize = self.device_events.len();
        let last: i64 = if n == 0 {
            0
        } else {
            self.device_events[n - 1].id
        };
        if last == i64::MAX {
            return Err(StoreError::Sqlite("database or disk is full".to_owned()));
        }
        let event = DeviceEvent {
            id: last + 1,
            at: now.to_owned(),
            kind: kind.as_str().to_owned(),
            delta_ms,
            wall_gap_ms,
            mono_gap_ms,
        };
        self.device_events.push(event);
        assert(table::models(self.device_events@) =~= table::models(old(self).device_events@).push(
            event@,
        ));
        Ok(())
    }

    /// Puts an irregularity on record at the time of the device's clock. Callers leave out what is
    /// normal.
    pub fn log_device_event(
        &mut self,
        kind: EventKind,
        delta_ms: i64,
        wall_gap_ms: i64,
        mono_gap_ms: i64,
    ) -> (r: Result<(), StoreError>)
        ensures
            exists|now: Seq<char>|
                clock::is_utc_stamp(now) && (final(self)@, error::done(r))
                    == #[trigger] old(self)@.log_device_event(
                    kind,
                    delta_ms,
                    wall_gap_ms,
                    mono_gap_ms,
                    now,
                ),
    {
        let now = clock::now_text();
        self.log_device_event_at(kind, delta_ms, wall_gap_ms, mono_gap_ms, now.as_str())
    }

    /// The last irregularities on record, the latest first.
    pub fn list_device_events(&self, limit: u32) -> (r: Vec<DeviceEvent>)
        ensures
            table::models(r@) == table::latest(self@.device_events, limit as nat),
    {
        table::list_latest(&self.device_events, limit)
    }
}

/// A gap far beyond the interval is a sleep, whatever the monotonic clock says.
pub proof fn law_long_gap_is_sleep(wall: int, mono: int, other: int, interval_s: u64, drift_warn_s: Float)
    requires
        wall > sleep_gap(interval_s),
    ensures
        gap_kind(wall, mono, interval_s, drift_warn_s) == EventKind::SleepWake,
        gap_kind(wall, mono, interval_s, drift_warn_s) == gap_kind(
            wall,
            other,
            interval_s,
            drift_warn_s,
        ),
{
}

/// What is normal is neither long, nor far behind, nor off by more than is tolerated.
pub proof fn law_normal_is_within_bounds(wall: int, mono: int, interval_s: u64, drift_warn_s: Float)
    ensures
        gap_kind(wall, mono, interval_s, drift_warn_s) == EventKind::Normal <==> {
            &&& wall <= sleep_gap(interval_s)
            &&& wall - mono >= -500
            &&& -tolerated_ms(drift_warn_s) <= wall - mono <= tolerated_ms(drift_warn_s)
        },
{
}

/// How far a wall clock may run ahead between two samples before it is a sleep: three intervals, and at
/// least half a minute over one, for every interval short enough for that to be counted.
pub proof fn law_sleep_is_three_intervals(interval_s: u64)
    requires
        interval_s <= 3_000_000_000_000_000,
    ensures
        sleep_gap(interval_s) == (if interval_s >= 15 {
            3000 * interval_s
        } else {
            1000 * interval_s + 30_000
        }),
{
    assert(interval_s as i64 == interval_s);
}

/// A clock that was set back by more than half a second is a rollback, however far it was set back and
/// whatever drift is tolerated, unless the gap is a sleep; and drift is what is off by more than is
/// tolerated, ahead or within that half second behind.
pub proof fn law_set_back_is_rollback(wall: int, mono: int, interval_s: u64, drift_warn_s: Float, other: Float)
    ensures
        gap_kind(wall, mono, interval_s, drift_warn_s) == EventKind::Rollback <==> wall <= sleep_gap(
            interval_s,
        ) && wall - mono < -500,
        gap_kind(wall, mono, interval_s, drift_warn_s) == EventKind::Drift <==> {
            &&& wall <= sleep_gap(interval_s)
            &&& wall - mono >= -500
            &&& wall - mono > tolerated_ms(drift_warn_s) || mono - wall > tolerated_ms(drift_warn_s)
        },
        gap_kind(wall, mono, interval_s, drift_warn_s) == EventKind::SleepWake <==> wall > sleep_gap(
            interval_s,
        ),
        wall - mono < -500 ==> gap_kind(wall, mono, interval_s, drift_warn_s) == gap_kind(
            wall,
            mono,
            interval_s,
            other,
        ),
{
}

/// The tolerated drift is the threshold in milliseconds, to the nearest one, but for roundings of less
/// than one part in a thousand of it, for every threshold of less than thirty years; a threshold below
/// zero, or none, tolerates nothing.
pub proof fn law_tolerance_is_the_threshold(drift_warn_s: Float)
    ensures
        drift_warn_s is Nan ==> tolerated_ms(drift_warn_s) == 0,
        drift_warn_s.is_negative() ==> tolerated_ms(drift_warn_s) == 0,
        drift_warn_s matches Float::Finite { negative: false, ticks } && ticks < power2::pow2(30)
            * power2::pow2(1074) ==> {
            let off = tolerated_ms(drift_warn_s) * power2::pow2(1074) - 1000 * drift_warn_s->ticks;
            -(1001 * power2::pow2(1074)) <= 2000 * off <= 1001 * power2::pow2(1074)
        },
{
    let u = power2::pow2(1074) as int;
    let e = power2::pow2(53) as int;
    let h = power2::pow2(52) as int;
    power2::lemma2_to64();
    power2::lemma2_to64_rest();
    power2::lemma_pow2_pos(1074);
    power2::lemma_pow2_unfold(53);
    power2::lemma_pow2_unfold(1075);
    number::lemma_whole_number(1000);
    rounding::lemma_zero(power2::pow2(1074));
    let thousand = number::nearest_to(1000);
    let kept = drift_warn_s.larger(system::zero());
    if kept->ticks == 0 {
        assert(0 * thousand->ticks == 0) by (nonlinear_arith);
        power2::lemma_pow2_pos(2098);
        rounding::lemma_nearest_whole(0);
        assert(rounding::nearest_whole(0) == 0) by {
            let v = rounding::nearest_whole(0) as int;
            assert(v == 0) by (nonlinear_arith)
                requires
                    -u < 2 * (v * u) <= u,
                    u > 0,
                    v >= 0,
            ;
        }
    } else if drift_warn_s matches Float::Finite { negative: false, ticks } && ticks < power2::pow2(
        30,
    ) * power2::pow2(1074) {
        let t = drift_warn_s->ticks as int;
        assert(kept == drift_warn_s);
        power2::lemma_pow2_adds(30, 1074);
        power2::lemma_pow2_adds(10, 1104);
        power2::lemma_pow2_strictly_increases(1114, 2097);
        power2::lemma_pow2_strictly_increases(53, 1074);
        let product = t * thousand->ticks;
        assert(product == (1000 * t) * u) by (nonlinear_arith)
            requires
                product == t * (1000 * u),
        ;
        assert(product < power2::pow2(2097) * u) by (nonlinear_arith)
            requires
                product == (1000 * t) * u,
                1000 * t < power2::pow2(2097),
                u > 0,
        ;
        number::lemma_product(kept, thousand);
        let y = kept.times(thousand).signed_ticks();
        assert(kept.signed_ticks() * thousand.signed_ticks() == product);
        assert(y * u - product == (y - 1000 * t) * u) by (nonlinear_arith)
            requires
                product == (1000 * t) * u,
        ;
        number::lemma_size_of_product(y - 1000 * t, u);
        assert(e * number::size(y - 1000 * t) <= 1000 * t + h) by (nonlinear_arith)
            requires
                e * (number::size(y - 1000 * t) * u) <= (1000 * t) * u + h * u,
                u > 0,
        ;
        assert(y >= 0) by {
            assert(!kept.times(thousand).is_negative());
        }
        let off1 = y - 1000 * t;
        assert(2000 * number::size(off1) <= u) by (nonlinear_arith)
            requires
                e * number::size(off1) <= 1000 * t + h,
                t < 1073741824 * u,
                e == 0x20_0000_0000_0000,
                h <= e,
                u >= e,
                number::size(off1) >= 0,
        ;
        rounding::lemma_nearest_whole(y as nat);
        let v = rounding::nearest_whole(y as nat) as int;
        assert(v <= i64::MAX) by (nonlinear_arith)
            requires
                2 * (v * u - y) <= u,
                y <= 1000 * t + u,
                t < 1073741824 * u,
                u > 0,
        ;
        assert(v * u - 1000 * t == (v * u - y) + off1);
    }
}

/// An irregularity is put on record as it was seen, under the next number, behind those that are there,
/// and nothing else changes.
pub proof fn law_irregularity_is_logged_as_seen(
    s: StoreModel,
    kind: EventKind,
    delta_ms: i64,
    wall_gap_ms: i64,
    mono_gap_ms: i64,
    now: Seq<char>,
)
    ensures
        ({
            let (t, r) = s.log_device_event(kind, delta_ms, wall_gap_ms, mono_gap_ms, now);
            let last = if s.device_events.len() == 0 {
                0
            } else {
                s.device_events[s.device_events.len() - 1].id as int
            };
            &&& r is Ok <==> last < i64::MAX
            &&& r is Err ==> t == s
            &&& r is Ok ==> {
                let x = t.device_events[t.device_events.len() - 1];
                &&& t == (StoreModel { device_events: s.device_events.push(x), ..s })
                &&& x.id == last + 1 && x.at == now && x.delta_ms == delta_ms
                &&& x.wall_gap_ms == wall_gap_ms && x.mono_gap_ms == mono_gap_ms
                &&& x.kind == match kind {
                    EventKind::Normal => "normal"@,
                    EventKind::Drift => "drift"@,
                    EventKind::SleepWake => "sleep_wake"@,
                    EventKind::Rollback => "rollback"@,
                }
            }
        }),
{
}

} // verus!

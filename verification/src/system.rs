//! Temporal systems: clocks of their own that follow a parent timeline at a constant, piecewise,
//! paused or tabulated rate.
use crate::number;
use crate::number::{Float, Number};
use vstd::arithmetic::power2;
use vstd::prelude::*;

verus! {

/// A stretch of the parent timeline with one rate; the last one may be open.
#[derive(Debug, Clone, Copy)]
pub struct Segment {
    pub until: Option<Number>,
    pub rate: Number,
}

/// A stretch of the parent timeline during which the system stands still; it may be open.
#[derive(Debug, Clone, Copy)]
pub struct Pause {
    pub from: Number,
    pub to: Option<Number>,
}

/// A parent time and the local time that belongs to it.
#[derive(Debug, Clone, Copy)]
pub struct TablePoint {
    pub parent: Number,
    pub local: Number,
}

/// How local time follows parent time.
#[derive(Debug, Clone)]
pub enum Rate {
    Constant { value: Number },
    Piecewise { segments: Vec<Segment> },
    Paused { value: Number, pauses: Vec<Pause> },
    Table { table: Vec<TablePoint> },
}

/// A clock that follows its rate from `epoch_parent_sec` seconds of parent time on, `offset` seconds
/// ahead.
#[derive(Debug, Clone)]
pub struct TemporalSystem {
    pub id: String,
    pub epoch_parent_sec: Number,
    pub rate: Rate,
    pub offset: Number,
}

/// What is known of a local time besides the time itself.
#[derive(Debug, Clone, Copy)]
pub struct LocalTimeExtra {
    pub wall_elapsed_s: Option<Number>,
    pub paused_elapsed_s: Option<Number>,
    pub active_elapsed_s: Option<Number>,
    pub currently_paused: Option<bool>,
}

pub struct SegmentModel {
    pub until: Option<Float>,
    pub rate: Float,
}

pub struct PauseModel {
    pub from: Float,
    pub to: Option<Float>,
}

pub struct TablePointModel {
    pub parent: Float,
    pub local: Float,
}

pub enum RateModel {
    Constant { value: Float },
    Piecewise { segments: Seq<SegmentModel> },
    Paused { value: Float, pauses: Seq<PauseModel> },
    Table { table: Seq<TablePointModel> },
}

#[verifier::ext_equal]
pub struct SystemModel {
    pub id: Seq<char>,
    pub epoch: Float,
    pub rate: RateModel,
    pub offset: Float,
}

pub struct ExtraModel {
    pub wall_elapsed_s: Option<Float>,
    pub paused_elapsed_s: Option<Float>,
    pub active_elapsed_s: Option<Float>,
    pub currently_paused: Option<bool>,
}

/// The value of an optional number.
pub open spec fn opt_float(n: Option<Number>) -> Option<Float> {
    match n {
        Some(x) => Some(x@),
        None => None,
    }
}

impl View for Segment {
    type V = SegmentModel;

    open spec fn view(&self) -> SegmentModel {
        SegmentModel { until: opt_float(self.until), rate: self.rate@ }
    }
}

impl View for Pause {
    type V = PauseModel;

    open spec fn view(&self) -> PauseModel {
        PauseModel { from: self.from@, to: opt_float(self.to) }
    }
}

impl View for TablePoint {
    type V = TablePointModel;

    open spec fn view(&self) -> TablePointModel {
        TablePointModel { parent: self.parent@, local: self.local@ }
    }
}

pub open spec fn segments_of(s: Seq<Segment>) -> Seq<SegmentModel> {
    s.map_values(|x: Segment| x@)
}

pub open spec fn pauses_of(s: Seq<Pause>) -> Seq<PauseModel> {
    s.map_values(|x: Pause| x@)
}

pub open spec fn points_of(s: Seq<TablePoint>) -> Seq<TablePointModel> {
    s.map_values(|x: TablePoint| x@)
}

impl View for Rate {
    type V = RateModel;

    open spec fn view(&self) -> RateModel {
        match *self {
            Rate::Constant { value } => RateModel::Constant { value: value@ },
            Rate::Piecewise { segments } => RateModel::Piecewise { segments: segments_of(segments@) },
            Rate::Paused { value, pauses } => RateModel::Paused {
                value: value@,
                pauses: pauses_of(pauses@),
            },
            Rate::Table { table } => RateModel::Table { table: points_of(table@) },
        }
    }
}

impl View for TemporalSystem {
    type V = SystemModel;

    open spec fn view(&self) -> SystemModel {
        SystemModel {
            id: self.id@,
            epoch: self.epoch_parent_sec@,
            rate: self.rate@,
            offset: self.offset@,
        }
    }
}

impl View for LocalTimeExtra {
    type V = ExtraModel;

    open spec fn view(&self) -> ExtraModel {
        ExtraModel {
            wall_elapsed_s: opt_float(self.wall_elapsed_s),
            paused_elapsed_s: opt_float(self.paused_elapsed_s),
            active_elapsed_s: opt_float(self.active_elapsed_s),
            currently_paused: self.currently_paused,
        }
    }
}

/// Positive zero.
pub open spec fn zero() -> Float {
    Float::Finite { negative: false, ticks: 0 }
}

/// Where a pause ends: never, if it is open.
pub open spec fn pause_end(p: PauseModel) -> Float {
    match p.to {
        Some(t) => t,
        None => Float::Infinite { negative: false },
    }
}

/// How much of the time from the epoch to now falls into the pauses, summed in their order.
pub open spec fn paused_time(pauses: Seq<PauseModel>, epoch: Float, now: Float) -> Float
    decreases pauses.len(),
{
    if pauses.len() == 0 {
        zero()
    } else {
        let before = paused_time(pauses.drop_last(), epoch, now);
        let lo = pauses.last().from.larger(epoch);
        let hi = pause_end(pauses.last()).smaller(now);
        if lo.less(hi) {
            before.plus(hi.minus(lo))
        } else {
            before
        }
    }
}

/// Whether now lies in a pause.
pub open spec fn in_pause(p: PauseModel, now: Float) -> bool {
    p.from.at_most(now) && now.less(pause_end(p))
}

/// Whether now lies in one of the pauses.
pub open spec fn is_paused(pauses: Seq<PauseModel>, now: Float) -> bool {
    exists|i: int| 0 <= i < pauses.len() && in_pause(#[trigger] pauses[i], now)
}

/// Follows the segments from the `i`th on, starting with `local` at `cursor`, until now is reached:
/// the local time and the parent time that were reached.
pub open spec fn follow(
    segments: Seq<SegmentModel>,
    i: nat,
    local: Float,
    cursor: Float,
    now: Float,
) -> (Float, Float)
    decreases segments.len() - i,
{
    if i >= segments.len() {
        (local, cursor)
    } else {
        let segment = segments[i as int];
        let until = match segment.until {
            Some(u) => u,
            None => now,
        };
        let hi = until.smaller(now);
        let moved = cursor.less(hi);
        let local2 = if moved {
            local.plus(segment.rate.times(hi.minus(cursor)))
        } else {
            local
        };
        let cursor2 = if moved {
            hi
        } else {
            cursor
        };
        if now.at_most(cursor2) {
            (local2, cursor2)
        } else {
            follow(segments, i + 1, local2, cursor2, now)
        }
    }
}

/// The local time of a piecewise rate: what the segments add up to, and after the last one its rate.
pub open spec fn piecewise_time(segments: Seq<SegmentModel>, epoch: Float, now: Float) -> Float {
    let (local, cursor) = follow(segments, 0, zero(), epoch, now);
    if cursor.less(now) && segments.len() > 0 {
        local.plus(segments.last().rate.times(now.minus(cursor)))
    } else {
        local
    }
}

/// The points with one more, which goes in front of the first one of a later parent time.
pub open spec fn insert_point(points: Seq<TablePointModel>, p: TablePointModel) -> Seq<
    TablePointModel,
>
    decreases points.len(),
{
    if points.len() > 0 && p.parent.less(points.last().parent) {
        insert_point(points.drop_last(), p).push(points.last())
    } else {
        points.push(p)
    }
}

/// The points in the order of their parent times, those of equal time in the order given.
pub open spec fn sorted_points(points: Seq<TablePointModel>) -> Seq<TablePointModel>
    decreases points.len(),
{
    if points.len() == 0 {
        points
    } else {
        insert_point(sorted_points(points.drop_last()), points.last())
    }
}

/// Whether now lies between point `i` and the one after it.
pub open spec fn between(points: Seq<TablePointModel>, i: int, now: Float) -> bool {
    points[i].parent.at_most(now) && now.at_most(points[i + 1].parent)
}

/// The local time on the straight line between two points.
pub open spec fn interpolated(a: TablePointModel, b: TablePointModel, now: Float) -> Float {
    let f = if b.parent.same(a.parent) {
        zero()
    } else {
        now.minus(a.parent).over(b.parent.minus(a.parent))
    };
    a.local.plus(f.times(b.local.minus(a.local)))
}

/// The local time in the first gap from the `i`th point on that now lies in, if any.
pub open spec fn in_gaps(points: Seq<TablePointModel>, i: nat, now: Float) -> Option<Float>
    decreases points.len() - i,
{
    if i + 1 >= points.len() {
        None
    } else if between(points, i as int, now) {
        Some(interpolated(points[i as int], points[i as int + 1], now))
    } else {
        in_gaps(points, i + 1, now)
    }
}

/// The local time of a table, without the offset; `None` where the table says nothing of now.
pub open spec fn table_time(table: Seq<TablePointModel>, now: Float) -> Option<Float> {
    let points = sorted_points(table);
    if points.len() == 0 {
        None
    } else if now.at_most(points[0].parent) {
        Some(points[0].local)
    } else if points.last().parent.at_most(now) {
        Some(points.last().local)
    } else {
        in_gaps(points, 0, now)
    }
}

pub open spec fn no_extra() -> ExtraModel {
    ExtraModel {
        wall_elapsed_s: None,
        paused_elapsed_s: None,
        active_elapsed_s: None,
        currently_paused: None,
    }
}

impl SystemModel {
    /// The local time, in seconds, at a parent time, and what is known besides.
    pub open spec fn local_time(self, now: Float) -> (Float, ExtraModel) {
        let elapsed = now.minus(self.epoch);
        match self.rate {
            RateModel::Constant { value } => (
                value.times(elapsed).plus(self.offset),
                ExtraModel { wall_elapsed_s: Some(elapsed), ..no_extra() },
            ),
            RateModel::Paused { value, pauses } => {
                let paused = paused_time(pauses, self.epoch, now);
                let active = elapsed.minus(paused);
                (
                    active.times(value).plus(self.offset),
                    ExtraModel {
                        wall_elapsed_s: Some(elapsed),
                        paused_elapsed_s: Some(paused),
                        active_elapsed_s: Some(active),
                        currently_paused: Some(is_paused(pauses, now)),
                    },
                )
            },
            RateModel::Piecewise { segments } => (
                piecewise_time(segments, self.epoch, now).plus(self.offset),
                ExtraModel { wall_elapsed_s: Some(elapsed), ..no_extra() },
            ),
            RateModel::Table { table } => (
                match table_time(table, now) {
                    Some(t) => t.plus(self.offset),
                    None => self.offset,
                },
                ExtraModel { wall_elapsed_s: Some(elapsed), ..no_extra() },
            ),
        }
    }
}

/// A copy of a list of plain values.
fn copy_values<T: Copy>(v: &Vec<T>) -> (r: Vec<T>)
    ensures
        r@ == v@,
{
    let mut out: Vec<T> = Vec::new();
    let mut i: usize = 0;
    while i < v.len()
        invariant
            i <= v.len(),
            out@ == v@.take(i as int),
        decreases v.len() - i,
    {
        out.push(v[i]);
        assert(out@ =~= v@.take(i + 1));
        i = i + 1;
    }
    assert(v@.take(i as int) =~= v@);
    out
}

impl Rate {
    /// A copy of the rate.
    pub fn copy(&self) -> (r: Rate)
        ensures
            r@ == self@,
    {
        match self {
            Rate::Constant { value } => Rate::Constant { value: *value },
            Rate::Piecewise { segments } => Rate::Piecewise { segments: copy_values(segments) },
            Rate::Paused { value, pauses } => Rate::Paused {
                value: *value,
                pauses: copy_values(pauses),
            },
            Rate::Table { table } => Rate::Table { table: copy_values(table) },
        }
    }
}

impl LocalTimeExtra {
    /// Nothing known.
    pub fn none() -> (r: LocalTimeExtra)
        ensures
            r@ == no_extra(),
    {
        LocalTimeExtra {
            wall_elapsed_s: None,
            paused_elapsed_s: None,
            active_elapsed_s: None,
            currently_paused: None,
        }
    }
}

/// The pauses up to now: their sum, and whether now lies in one.
fn sum_pauses(pauses: &Vec<Pause>, epoch: &Number, now: &Number) -> (r: (Number, bool))
    ensures
        r.0@ == paused_time(pauses_of(pauses@), epoch@, now@),
        r.1 == is_paused(pauses_of(pauses@), now@),
{
    let ghost all = pauses_of(pauses@);
    let mut paused: Number = Number::zero(false);
    let mut currently: bool = false;
    let mut i: usize = 0;
    while i < pauses.len()
        invariant
            i <= pauses.len(),
            all == pauses_of(pauses@),
            paused@ == paused_time(all.take(i as int), epoch@, now@),
            currently == exists|k: int| 0 <= k < i && in_pause(#[trigger] all[k], now@),
        decreases pauses.len() - i,
    {
        let p: &Pause = &pauses[i];
        assert(all[i as int] == p@);
        assert(all.take(i + 1).drop_last() =~= all.take(i as int));
        let end: Number = match p.to {
            Some(t) => t,
            None => Number::infinity(false),
        };
        let lo: Number = p.from.larger(epoch);
        let hi: Number = end.smaller(now);
        if lo.less(&hi) {
            paused = paused.plus(&hi.minus(&lo));
        }
        if p.from.at_most(now) && now.less(&end) {
            assert(in_pause(all[i as int], now@));
            currently = true;
        }
        i = i + 1;
    }
    assert(all.take(i as int) =~= all);
    (paused, currently)
}

/// The local time that the segments give.
fn sum_segments(segments: &Vec<Segment>, epoch: &Number, now: &Number) -> (r: Number)
    ensures
        r@ == piecewise_time(segments_of(segments@), epoch@, now@),
{
    let ghost all = segments_of(segments@);
    let mut local: Number = Number::zero(false);
    let mut cursor: Number = *epoch;
    let mut i: usize = 0;
    while i < segments.len()
        invariant_except_break
            follow(all, 0, zero(), epoch@, now@) == follow(all, i as nat, local@, cursor@, now@),
        invariant
            i <= segments.len(),
            all == segments_of(segments@),
        ensures
            follow(all, 0, zero(), epoch@, now@) == (local@, cursor@),
        decreases segments.len() - i,
    {
        let segment: &Segment = &segments[i];
        assert(all[i as int] == segment@);
        let until: Number = match segment.until {
            Some(u) => u,
            None => *now,
        };
        let hi: Number = until.smaller(now);
        if cursor.less(&hi) {
            local = local.plus(&segment.rate.times(&hi.minus(&cursor)));
            cursor = hi;
        }
        if now.at_most(&cursor) {
            break;
        }
        i = i + 1;
    }
    if cursor.less(now) && segments.len() > 0 {
        let last: &Segment = &segments[segments.len() - 1];
        assert(all.last() == last@);
        local = local.plus(&last.rate.times(&now.minus(&cursor)));
    }
    local
}

/// The points in the order of their parent times.
fn sort_points(table: &Vec<TablePoint>) -> (r: Vec<TablePoint>)
    ensures
        points_of(r@) == sorted_points(points_of(table@)),
{
    let ghost all = points_of(table@);
    let mut out: Vec<TablePoint> = Vec::new();
    let mut i: usize = 0;
    assert(points_of(out@) =~= all.take(0));
    while i < table.len()
        invariant
            i <= table.len(),
            all == points_of(table@),
            points_of(out@) == sorted_points(all.take(i as int)),
        decreases table.len() - i,
    {
        let p: TablePoint = table[i];
        let ghost before = out@;
        let ghost rest = points_of(before);
        let mut at: usize = out.len();
        assert(rest.take(at as int) =~= rest);
        assert(rest.skip(at as int) =~= Seq::<TablePointModel>::empty());
        assert(insert_point(rest, p@) =~= insert_point(rest.take(at as int), p@) + rest.skip(
            at as int,
        ));
        while at > 0 && p.parent.less(&out[at - 1].parent)
            invariant
                at <= out.len(),
                out@ == before,
                rest == points_of(before),
                insert_point(rest, p@) == insert_point(rest.take(at as int), p@) + rest.skip(
                    at as int,
                ),
            decreases at,
        {
            assert(rest[at - 1] == out@[at - 1]@);
            assert(rest.take(at as int).drop_last() =~= rest.take(at - 1));
            assert(insert_point(rest.take(at - 1), p@).push(rest[at - 1]) + rest.skip(at as int)
                =~= insert_point(rest.take(at - 1), p@) + rest.skip(at - 1));
            at = at - 1;
        }
        if at > 0 {
            assert(rest[at - 1] == out@[at - 1]@);
            assert(rest.take(at as int).last() == rest[at - 1]);
        }
        assert(insert_point(rest.take(at as int), p@) == rest.take(at as int).push(p@));
        out.insert(at, p);
        assert(points_of(out@) =~= rest.take(at as int).push(p@) + rest.skip(at as int));
        assert(all.take(i + 1).drop_last() =~= all.take(i as int));
        assert(all.take(i + 1).last() == p@);
        i = i + 1;
    }
    assert(all.take(i as int) =~= all);
    out
}

/// The local time between two points.
fn interpolate(a: &TablePoint, b: &TablePoint, now: &Number) -> (r: Number)
    ensures
        r@ == interpolated(a@, b@, now@),
{
    let f: Number = if b.parent.same(&a.parent) {
        Number::zero(false)
    } else {
        now.minus(&a.parent).over(&b.parent.minus(&a.parent))
    };
    a.local.plus(&f.times(&b.local.minus(&a.local)))
}

/// The local time that a table gives.
fn look_up(table: &Vec<TablePoint>, now: &Number) -> (r: Option<Number>)
    ensures
        opt_float(r) == table_time(points_of(table@), now@),
{
    let points = sort_points(table);
    let ghost all = points_of(points@);
    let n: usize = points.len();
    if n == 0 {
        return None;
    }
    assert(all[0] == points@[0]@);
    assert(all.last() == points@[n - 1]@);
    if now.at_most(&points[0].parent) {
        return Some(points[0].local);
    }
    if points[n - 1].parent.at_most(now) {
        return Some(points[n - 1].local);
    }
    let mut i: usize = 0;
    while i + 1 < n
        invariant
            n == points.len(),
            i < n,
            all == points_of(points@),
            all == sorted_points(points_of(table@)),
            table_time(points_of(table@), now@) == in_gaps(all, i as nat, now@),
        decreases n - i,
    {
        assert(all[i as int] == points@[i as int]@);
        assert(all[i + 1] == points@[i + 1]@);
        if points[i].parent.at_most(now) && now.at_most(&points[i + 1].parent) {
            return Some(interpolate(&points[i], &points[i + 1], now));
        }
        i = i + 1;
    }
    None
}

impl TemporalSystem {
    /// The system's local time, in seconds, at a parent time in seconds, and what is known besides:
    /// the time that has passed since the epoch, and with pauses how much of it was paused and active.
    pub fn local_seconds(&self, parent_sec: Number) -> (r: (Number, LocalTimeExtra))
        ensures
            (r.0@, r.1@) == self@.local_time(parent_sec@),
    {
        let elapsed: Number = parent_sec.minus(&self.epoch_parent_sec);
        match &self.rate {
            Rate::Constant { value } => (
                value.times(&elapsed).plus(&self.offset),
                LocalTimeExtra { wall_elapsed_s: Some(elapsed), ..LocalTimeExtra::none() },
            ),
            Rate::Paused { value, pauses } => {
                let (paused, currently) = sum_pauses(pauses, &self.epoch_parent_sec, &parent_sec);
                let active: Number = elapsed.minus(&paused);
                (
                    active.times(value).plus(&self.offset),
                    LocalTimeExtra {
                        wall_elapsed_s: Some(elapsed),
                        paused_elapsed_s: Some(paused),
                        active_elapsed_s: Some(active),
                        currently_paused: Some(currently),
                    },
                )
            },
            Rate::Piecewise { segments } => (
                sum_segments(segments, &self.epoch_parent_sec, &parent_sec).plus(&self.offset),
                LocalTimeExtra { wall_elapsed_s: Some(elapsed), ..LocalTimeExtra::none() },
            ),
            Rate::Table { table } => {
                let local: Number = match look_up(table, &parent_sec) {
                    Some(t) => t.plus(&self.offset),
                    None => self.offset,
                };
                (local, LocalTimeExtra { wall_elapsed_s: Some(elapsed), ..LocalTimeExtra::none() })
            },
        }
    }
}

/// Pauses take nothing away from the time before the epoch has passed.
proof fn lemma_no_pause_at_epoch(pauses: Seq<PauseModel>, epoch: Float)
    requires
        epoch is Finite,
    ensures
        paused_time(pauses, epoch, epoch) == zero(),
    decreases pauses.len(),
{
    if pauses.len() > 0 {
        lemma_no_pause_at_epoch(pauses.drop_last(), epoch);
    }
}

/// At its epoch a system with a constant, paused or piecewise rate shows its offset, whatever finite
/// factor the rate applies.
pub proof fn law_epoch_shows_offset(system: TemporalSystem)
    requires
        system.epoch_parent_sec@ is Finite,
        system.offset@ is Finite,
        system.rate !is Table,
        system@.rate matches RateModel::Constant { value } ==> value is Finite,
        system@.rate matches RateModel::Paused { value, .. } ==> value is Finite,
    ensures
        system@.local_time(system@.epoch).0.same(system@.offset),
{
    let epoch = system@.epoch;
    let offset = system@.offset;
    number::lemma_representable(system.offset);
    number::lemma_zero_sums(epoch, offset);
    match system@.rate {
        RateModel::Constant { value } => {
            number::lemma_zero_product(value, false);
        },
        RateModel::Paused { value, pauses } => {
            lemma_no_pause_at_epoch(pauses, epoch);
            number::lemma_zero_product(value, false);
            assert(zero().minus(zero()) == zero());
        },
        RateModel::Piecewise { segments } => {
            assert(follow(segments, 0, zero(), epoch, epoch) == (zero(), epoch));
        },
        RateModel::Table { .. } => {},
    }
}

/// What the segments add up to is rounded.
proof fn lemma_follow_is_rounded(
    segments: Seq<SegmentModel>,
    i: nat,
    local: Float,
    cursor: Float,
    now: Float,
)
    requires
        local.is_rounded(),
    ensures
        follow(segments, i, local, cursor, now).0.is_rounded(),
    decreases segments.len() - i,
{
    if i < segments.len() {
        let segment = segments[i as int];
        let until = match segment.until {
            Some(u) => u,
            None => now,
        };
        let hi = until.smaller(now);
        let moved = cursor.less(hi);
        let step = segment.rate.times(hi.minus(cursor));
        number::lemma_results_are_rounded(segment.rate, hi.minus(cursor));
        number::lemma_results_are_rounded(local, step);
        let local2 = if moved {
            local.plus(step)
        } else {
            local
        };
        let cursor2 = if moved {
            hi
        } else {
            cursor
        };
        if !now.at_most(cursor2) {
            lemma_follow_is_rounded(segments, i + 1, local2, cursor2, now);
        }
    }
}

/// Whether the local times of all points are rounded.
spec fn locals_are_rounded(points: Seq<TablePointModel>) -> bool {
    forall|i: int| 0 <= i < points.len() ==> (#[trigger] points[i]).local.is_rounded()
}

proof fn lemma_insert_keeps_rounded(points: Seq<TablePointModel>, p: TablePointModel)
    requires
        locals_are_rounded(points),
        p.local.is_rounded(),
    ensures
        locals_are_rounded(insert_point(points, p)),
    decreases points.len(),
{
    if points.len() > 0 && p.parent.less(points.last().parent) {
        let rest = points.drop_last();
        assert(locals_are_rounded(rest)) by {
            assert forall|i: int| 0 <= i < rest.len() implies (
            #[trigger] rest[i]).local.is_rounded() by {
                assert(rest[i] == points[i]);
            }
        }
        lemma_insert_keeps_rounded(rest, p);
        assert(points[points.len() - 1].local.is_rounded());
    }
}

proof fn lemma_sort_keeps_rounded(points: Seq<TablePointModel>)
    requires
        locals_are_rounded(points),
    ensures
        locals_are_rounded(sorted_points(points)),
    decreases points.len(),
{
    if points.len() > 0 {
        let rest = points.drop_last();
        assert(locals_are_rounded(rest)) by {
            assert forall|i: int| 0 <= i < rest.len() implies (
            #[trigger] rest[i]).local.is_rounded() by {
                assert(rest[i] == points[i]);
            }
        }
        lemma_sort_keeps_rounded(rest);
        assert(points[points.len() - 1].local.is_rounded());
        lemma_insert_keeps_rounded(sorted_points(rest), points.last());
    }
}

/// A local time between two points is rounded, or no number.
proof fn lemma_gaps_are_rounded(points: Seq<TablePointModel>, i: nat, now: Float)
    requires
        locals_are_rounded(points),
    ensures
        in_gaps(points, i, now) matches Some(t) ==> t.is_rounded(),
    decreases points.len() - i,
{
    if i + 1 < points.len() {
        if between(points, i as int, now) {
            let a = points[i as int];
            let b = points[i as int + 1];
            let f = if b.parent.same(a.parent) {
                zero()
            } else {
                now.minus(a.parent).over(b.parent.minus(a.parent))
            };
            number::lemma_results_are_rounded(f, b.local.minus(a.local));
            number::lemma_results_are_rounded(a.local, f.times(b.local.minus(a.local)));
        } else {
            lemma_gaps_are_rounded(points, i + 1, now);
        }
    }
}

/// The local time of a system without its offset is rounded.
proof fn lemma_bare_time_is_rounded(system: TemporalSystem, now: Float)
    ensures
        (match system@.rate {
            RateModel::Constant { value } => value.times(now.minus(system@.epoch)).is_rounded(),
            RateModel::Paused { value, pauses } => now.minus(system@.epoch).minus(
                paused_time(pauses, system@.epoch, now),
            ).times(value).is_rounded(),
            RateModel::Piecewise { segments } => piecewise_time(
                segments,
                system@.epoch,
                now,
            ).is_rounded(),
            RateModel::Table { table } => table_time(table, now) matches Some(t) ==> t.is_rounded(),
        }),
{
    let elapsed = now.minus(system@.epoch);
    match system.rate {
        Rate::Constant { value } => {
            number::lemma_results_are_rounded(value@, elapsed);
        },
        Rate::Paused { value, pauses } => {
            let active = elapsed.minus(paused_time(pauses_of(pauses@), system@.epoch, now));
            number::lemma_results_are_rounded(active, value@);
        },
        Rate::Piecewise { segments } => {
            let all = segments_of(segments@);
            number::lemma_results_are_rounded(zero(), zero());
            lemma_follow_is_rounded(all, 0, zero(), system@.epoch, now);
            let (local, cursor) = follow(all, 0, zero(), system@.epoch, now);
            if all.len() > 0 {
                let rate = all.last().rate;
                number::lemma_results_are_rounded(rate, now.minus(cursor));
                number::lemma_results_are_rounded(local, rate.times(now.minus(cursor)));
            }
        },
        Rate::Table { table } => {
            let all = points_of(table@);
            assert(locals_are_rounded(all)) by {
                assert forall|i: int| 0 <= i < all.len() implies (
                #[trigger] all[i]).local.is_rounded() by {
                    assert(all[i] == table@[i]@);
                    if table@[i].local@ is Finite {
                        number::lemma_representable(table@[i].local);
                    }
                }
            }
            lemma_sort_keeps_rounded(all);
            lemma_gaps_are_rounded(sorted_points(all), 0, now);
        },
    }
}

/// The offset of a system shifts its local time by itself, whatever the rate, and leaves the rest that
/// is known alone: the local time is the one without an offset, and the offset added to it. Nothing is
/// said where no number comes out; and a negative zero for an offset can turn the sign of a zero.
pub proof fn law_offset_shifts(system: TemporalSystem, now: Float)
    requires
        system@.local_time(now).0 !is Nan,
    ensures
        ({
            let plain = SystemModel { offset: zero(), ..system@ };
            let shifted = plain.local_time(now).0.plus(system@.offset);
            &&& system@.local_time(now).0.same(shifted)
            &&& system@.offset != (Float::Finite { negative: true, ticks: 0 })
                ==> system@.local_time(now).0 == shifted
            &&& system@.local_time(now).1 == plain.local_time(now).1
        }),
{
    let offset = system@.offset;
    let elapsed = now.minus(system@.epoch);
    lemma_bare_time_is_rounded(system, now);
    if offset is Finite {
        number::lemma_representable(system.offset);
    }
    let bare = match system@.rate {
        RateModel::Constant { value } => Some(value.times(elapsed)),
        RateModel::Paused { value, pauses } => Some(
            elapsed.minus(paused_time(pauses, system@.epoch, now)).times(value),
        ),
        RateModel::Piecewise { segments } => Some(piecewise_time(segments, system@.epoch, now)),
        RateModel::Table { table } => table_time(table, now),
    };
    match bare {
        Some(x) => {
            number::lemma_plus_zero(x);
        },
        None => {},
    }
}

/// No point stands after one of a later parent time.
pub open spec fn in_order(points: Seq<TablePointModel>) -> bool {
    forall|i: int, j: int|
        0 <= i < j < points.len() ==> !(#[trigger] points[j].parent.less(
            #[trigger] points[i].parent,
        ))
}

/// No parent time is a NaN.
pub open spec fn comparable(points: Seq<TablePointModel>) -> bool {
    forall|i: int| 0 <= i < points.len() ==> (#[trigger] points[i]).parent !is Nan
}

proof fn lemma_insert_point(points: Seq<TablePointModel>, p: TablePointModel)
    requires
        in_order(points),
        comparable(points),
        p.parent !is Nan,
    ensures
        in_order(insert_point(points, p)),
        comparable(insert_point(points, p)),
        insert_point(points, p).to_multiset() == points.to_multiset().insert(p),
        insert_point(points, p).len() == points.len() + 1,
        forall|i: int|
            0 <= i < insert_point(points, p).len() ==> {
                ||| #[trigger] insert_point(points, p)[i] == p
                ||| exists|k: int| 0 <= k < points.len() && insert_point(points, p)[i] == points[k]
            },
    decreases points.len(),
{
    broadcast use vstd::seq_lib::group_to_multiset_ensures;

    let out = insert_point(points, p);
    if points.len() > 0 && p.parent.less(points.last().parent) {
        let rest = points.drop_last();
        let last = points.last();
        assert(in_order(rest)) by {
            assert forall|i: int, j: int| 0 <= i < j < rest.len() implies !(
            #[trigger] rest[j].parent.less(#[trigger] rest[i].parent)) by {
                assert(rest[i] == points[i] && rest[j] == points[j]);
            }
        }
        assert(comparable(rest)) by {
            assert forall|i: int| 0 <= i < rest.len() implies (#[trigger] rest[i]).parent !is Nan by {
                assert(rest[i] == points[i]);
            }
        }
        lemma_insert_point(rest, p);
        let inner = insert_point(rest, p);
        assert(points =~= rest.push(last));
        assert(out.to_multiset() =~= points.to_multiset().insert(p));
        assert forall|i: int| 0 <= i < out.len() implies {
            ||| #[trigger] out[i] == p
            ||| exists|k: int| 0 <= k < points.len() && out[i] == points[k]
        } by {
            if i < inner.len() {
                assert(out[i] == inner[i]);
                if inner[i] != p {
                    let k = choose|k: int| 0 <= k < rest.len() && inner[i] == rest[k];
                    assert(out[i] == points[k]);
                }
            } else {
                assert(out[i] == points[points.len() - 1]);
            }
        }
        assert forall|i: int, j: int| 0 <= i < j < out.len() implies !(
        #[trigger] out[j].parent.less(#[trigger] out[i].parent)) by {
            assert(out[i] == inner[i]);
            if j < inner.len() {
                assert(out[j] == inner[j]);
            } else {
                assert(out[j] == last);
                if inner[i] != p {
                    let k = choose|k: int| 0 <= k < rest.len() && inner[i] == rest[k];
                    assert(rest[k] == points[k]);
                    assert(!points[points.len() - 1].parent.less(points[k].parent));
                }
            }
        }
        assert(comparable(out)) by {
            assert forall|i: int| 0 <= i < out.len() implies (#[trigger] out[i]).parent !is Nan by {
                if i < inner.len() {
                    assert(out[i] == inner[i]);
                }
            }
        }
    } else {
        assert forall|i: int, j: int| 0 <= i < j < out.len() implies !(
        #[trigger] out[j].parent.less(#[trigger] out[i].parent)) by {
            assert(out[i] == points[i]);
            if j < points.len() {
                assert(out[j] == points[j]);
            } else {
                assert(points[points.len() - 1].parent !is Nan);
                if i < points.len() - 1 {
                    assert(!points[points.len() - 1].parent.less(points[i].parent));
                }
                assert(points[i].parent !is Nan);
            }
        }
        assert forall|i: int| 0 <= i < out.len() implies {
            ||| #[trigger] out[i] == p
            ||| exists|k: int| 0 <= k < points.len() && out[i] == points[k]
        } by {
            if i < points.len() {
                assert(out[i] == points[i]);
            }
        }
        assert(comparable(out)) by {
            assert forall|i: int| 0 <= i < out.len() implies (#[trigger] out[i]).parent !is Nan by {
                if i < points.len() {
                    assert(out[i] == points[i]);
                }
            }
        }
    }
}

/// A table is read in the order of its parent times: the same points, none before an earlier one.
pub proof fn law_table_is_sorted(table: Seq<TablePointModel>)
    requires
        comparable(table),
    ensures
        in_order(sorted_points(table)),
        comparable(sorted_points(table)),
        sorted_points(table).to_multiset() == table.to_multiset(),
    decreases table.len(),
{
    broadcast use vstd::seq_lib::group_to_multiset_ensures;

    if table.len() > 0 {
        let rest = table.drop_last();
        assert forall|i: int| 0 <= i < rest.len() implies (#[trigger] rest[i]).parent !is Nan by {
            assert(rest[i] == table[i]);
        }
        law_table_is_sorted(rest);
        assert(table[table.len() - 1].parent !is Nan);
        lemma_insert_point(sorted_points(rest), table.last());
        assert(table =~= rest.push(table.last()));
    }
}

/// Outside its range a table shows the local time of the nearer end.
pub proof fn law_table_is_clamped(system: SystemModel, now: Float)
    requires
        system.rate is Table,
        system.rate->table.len() > 0,
        comparable(system.rate->table),
    ensures
        ({
            let points = sorted_points(system.rate->table);
            &&& now.at_most(points[0].parent) ==> system.local_time(now).0 == points[0].local.plus(
                system.offset,
            )
            &&& points.last().parent.at_most(now) && !now.at_most(points[0].parent)
                ==> system.local_time(now).0 == points.last().local.plus(system.offset)
        }),
{
    broadcast use vstd::seq_lib::group_to_multiset_ensures;

    let table = system.rate->table;
    law_table_is_sorted(table);
    assert(sorted_points(table).to_multiset().len() == sorted_points(table).len());
    assert(table.to_multiset().len() == table.len());
}

/// A finite number far from the largest ones, below `2^1006`: sums and differences of a few of these do
/// not overflow.
pub open spec fn is_moderate(x: Float) -> bool {
    x is Finite && x->ticks < power2::pow2(2080)
}

/// The steps on the line between two points stay in range, and the line is off by its roundings.
#[verifier::spinoff_prover]
#[verifier::rlimit(40)]
proof fn lemma_interpolated(a: TablePointModel, b: TablePointModel, now: Float)
    requires
        is_moderate(a.parent),
        is_moderate(b.parent),
        is_moderate(a.local),
        is_moderate(b.local),
        is_moderate(now),
        a.parent.signed_ticks() < b.parent.signed_ticks(),
        a.parent.signed_ticks() <= now.signed_ticks() <= b.parent.signed_ticks(),
    ensures
        ({
            let x = interpolated(a, b, now);
            let n = now.minus(a.parent);
            let d = b.parent.minus(a.parent);
            let f = n.over(d);
            let l = b.local.minus(a.local);
            let part = now.signed_ticks() - a.parent.signed_ticks();
            let span = b.parent.signed_ticks() - a.parent.signed_ticks();
            let rise = b.local.signed_ticks() - a.local.signed_ticks();
            &&& x == a.local.plus(f.times(l))
            &&& n is Finite && n.signed_ticks() >= 0
            &&& d is Finite && d.signed_ticks() > 0
            &&& f is Finite && f.signed_ticks() >= 0
            &&& l is Finite && f.times(l) is Finite
            &&& x is Finite
            &&& number::size(x.signed_ticks()) <= 2 * number::size(a.local.signed_ticks()) + 96
                * number::size(rise) + 2
            &&& power2::pow2(53) * number::size(
                (x.signed_ticks() - a.local.signed_ticks()) * span - part * rise,
            ) <= span * (112 * number::size(rise) + number::size(a.local.signed_ticks()) + 2
                * power2::pow2(53))
        }),
{
    let e = power2::pow2(53) as int;
    let h = power2::pow2(52) as int;
    let unit = power2::pow2(1074) as int;
    let big = power2::pow2(2080) as int;
    let top = power2::pow2(2097) as int;
    power2::lemma2_to64();
    power2::lemma2_to64_rest();
    power2::lemma_pow2_unfold(53);
    power2::lemma_pow2_pos(52);
    power2::lemma_pow2_strictly_increases(55, 1074);
    power2::lemma_pow2_adds(2, 53);
    power2::lemma_pow2_adds(17, 2080);
    power2::lemma_pow2_strictly_increases(1074, 2080);
    power2::lemma_pow2_adds(10, 1074);
    power2::lemma_pow2_strictly_increases(1084, 2097);
    assert(top == 131072 * big);
    assert(unit >= 4 * e);
    let part = now.signed_ticks() - a.parent.signed_ticks();
    let span = b.parent.signed_ticks() - a.parent.signed_ticks();
    let rise = b.local.signed_ticks() - a.local.signed_ticks();
    let lo = a.local.signed_ticks();
    let n = now.minus(a.parent);
    let d = b.parent.minus(a.parent);
    let l = b.local.minus(a.local);
    number::lemma_difference(now, a.parent);
    number::lemma_difference(b.parent, a.parent);
    number::lemma_difference(b.local, a.local);
    number::lemma_part(number::size(n.signed_ticks() - part), part, e);
    number::lemma_part(number::size(d.signed_ticks() - span), span, e);
    number::lemma_part(number::size(l.signed_ticks() - rise), number::size(rise), e);
    let nn = n->ticks as int;
    let dd = d->ticks as int;
    assert(nn <= 4 * dd);
    assert(nn * unit < top * dd) by (nonlinear_arith)
        requires
            0 <= nn <= 4 * dd,
            0 < dd,
            0 < unit,
            4 * unit < top,
    ;
    number::lemma_quotient(n, d);
    let f = n.over(d);
    number::lemma_quotient_is_monotone(n, n, d);
    assert(n.signed_ticks() * unit >= 0) by (nonlinear_arith)
        requires
            n.signed_ticks() >= 0,
            unit > 0,
    ;
    let ff = f.signed_ticks();
    let ll = l.signed_ticks();
    // the bounds on f hold before the product is known
    let q = ff * dd - nn * unit;
    assert(e * number::size(q) <= nn * unit + h * dd);
    assert(h * dd <= e * dd) by (nonlinear_arith)
        requires
            h <= e,
            dd > 0,
    ;
    number::lemma_quotient_is_small(ff, dd, nn, unit, e);
    let fl = f->ticks * l->ticks;
    assert(fl < top * unit) by (nonlinear_arith)
        requires
            fl == f->ticks * l->ticks,
            0 <= f->ticks <= 12 * unit,
            0 <= l->ticks <= 4 * big,
            top == 131072 * big,
            big > 0,
            unit > 0,
    ;
    number::lemma_product(f, l);
    let p = f.times(l);
    let pp = p.signed_ticks();
    assert(h * unit <= e * unit) by (nonlinear_arith)
        requires
            h <= e,
            unit > 0,
    ;
    number::lemma_proportion(part, span, rise, nn, dd, ff, ll, pp, unit, e);
    number::lemma_sum(a.local, p);
    let x = a.local.plus(p).signed_ticks();
    let off = x - (lo + pp);
    number::lemma_part(number::size(off), number::size(lo + pp), e);
    let line = pp * span - part * rise;
    assert((x - lo) * span - part * rise == line + off * span) by (nonlinear_arith)
        requires
            line == pp * span - part * rise,
            off == x - (lo + pp),
    ;
    number::lemma_size_of_product(off, span);
    let reach = number::size(lo) + 48 * number::size(rise) + 1;
    assert(e * number::size(line + off * span) <= span * (64 * number::size(rise) + e) + span * reach)
        by (nonlinear_arith)
        requires
            number::size(line + off * span) <= number::size(line) + number::size(off) * span,
            e * number::size(line) <= span * (64 * number::size(rise) + e),
            e * number::size(off) <= reach,
            span > 0,
            e > 0,
    ;
    assert(span * (64 * number::size(rise) + e) + span * reach <= span * (112 * number::size(rise)
        + number::size(lo) + 2 * e)) by (nonlinear_arith)
        requires
            reach == number::size(lo) + 48 * number::size(rise) + 1,
            span > 0,
            e >= 1,
    ;
}

/// Two points of a table with none between them: every other point is the same as one of them, or lies
/// before the former or after the latter.
pub open spec fn are_neighbours(table: Seq<TablePointModel>, a: TablePointModel, b: TablePointModel) -> bool {
    &&& table.contains(a)
    &&& table.contains(b)
    &&& a.parent.less(b.parent)
    &&& forall|i: int|
        0 <= i < table.len() ==> {
            ||| #[trigger] table[i] == a
            ||| table[i] == b
            ||| table[i].parent.less(a.parent)
            ||| b.parent.less(table[i].parent)
        }
}

/// Sorting keeps the points.
proof fn lemma_sorted_has_the_points(table: Seq<TablePointModel>)
    requires
        comparable(table),
    ensures
        in_order(sorted_points(table)),
        sorted_points(table).len() == table.len(),
        forall|p: TablePointModel| #[trigger] table.contains(p) <==> sorted_points(table).contains(p),
{
    broadcast use vstd::seq_lib::group_to_multiset_ensures;

    law_table_is_sorted(table);
    let points = sorted_points(table);
    assert(points.to_multiset().len() == points.len());
    assert(table.to_multiset().len() == table.len());
    assert forall|p: TablePointModel| #[trigger] table.contains(p) <==> points.contains(p) by {
        assert(table.to_multiset().count(p) == points.to_multiset().count(p));
    }
}

/// The first gap that now lies in, from one on that is not beyond it.
proof fn lemma_first_gap(points: Seq<TablePointModel>, i: nat, k: int, now: Float)
    requires
        0 <= i <= k,
        k + 1 < points.len(),
        between(points, k, now),
        forall|j: int| i <= j < k ==> !#[trigger] between(points, j, now),
    ensures
        in_gaps(points, i, now) == Some(interpolated(points[k], points[k + 1], now)),
    decreases k - i,
{
    if i < k {
        assert(!between(points, i as int, now));
        lemma_first_gap(points, i + 1, k, now);
    }
}

/// Between two neighbours, or at the latter, a table is read on the line between them, or at the last
/// point is that point.
proof fn lemma_gap_of_neighbours(
    table: Seq<TablePointModel>,
    a: TablePointModel,
    b: TablePointModel,
    now: Float,
)
    requires
        are_neighbours(table, a, b),
        a.parent.less(now),
        now.at_most(b.parent),
    ensures
        ({
            ||| table_time(table, now) == Some(interpolated(a, b, now))
            ||| b.parent.same(now) && table_time(table, now) == Some(b.local)
        }),
{
    assert(comparable(table));
    lemma_sorted_has_the_points(table);
    let points = sorted_points(table);
    assert forall|i: int| 0 <= i < points.len() implies {
        ||| #[trigger] points[i] == a
        ||| points[i] == b
        ||| points[i].parent.less(a.parent)
        ||| b.parent.less(points[i].parent)
    } by {
        assert(points.contains(points[i]));
        assert(table.contains(points[i]));
        let k = choose|k: int| 0 <= k < table.len() && table[k] == points[i];
        assert(table[k] == points[i]);
    }
    assert(points.contains(a) && points.contains(b));
    let ia = choose|i: int| 0 <= i < points.len() && points[i] == a;
    let first_b = lemma_first_index(points, b);
    // what stands right before the first b is an a
    if first_b == 0 {
        assert(!points[ia].parent.less(points[0].parent));
        assert(false);
    }
    assert(first_b > 0);
    assert(ia < first_b) by {
        if first_b < ia {
            assert(!points[ia].parent.less(points[first_b].parent));
        }
    }
    let k = first_b - 1;
    assert(points[k] == a) by {
        assert(points[k] != b);
        if k != ia {
            assert(!points[k].parent.less(points[ia].parent));
        }
        assert(!points[first_b].parent.less(points[k].parent));
    }
    assert(between(points, k, now));
    assert forall|j: int| 0 <= j < k implies !#[trigger] between(points, j, now) by {
        assert(!points[k].parent.less(points[j + 1].parent) || j + 1 == k) by {
            if j + 1 < k {
                assert(!points[k].parent.less(points[j + 1].parent));
            }
        }
        assert(points[j + 1] == a || points[j + 1].parent.less(a.parent)) by {
            assert(points[j + 1] != b);
            if j + 1 < k {
                assert(!points[k].parent.less(points[j + 1].parent));
            }
        }
    }
    lemma_first_gap(points, 0, k, now);
    // not before the first point
    assert(!now.at_most(points[0].parent)) by {
        if k > 0 {
            assert(!points[k].parent.less(points[0].parent));
        }
    }
    if points.last().parent.at_most(now) {
        let z = points.len() - 1;
        if z > first_b {
            assert(!points[z].parent.less(points[first_b].parent));
        }
        assert(points[z] == b);
    }
}

/// The first place of a point.
proof fn lemma_first_index(points: Seq<TablePointModel>, p: TablePointModel) -> (i: int)
    requires
        points.contains(p),
    ensures
        0 <= i < points.len(),
        points[i] == p,
        forall|j: int| 0 <= j < i ==> points[j] != p,
    decreases points.len(),
{
    let rest = points.drop_last();
    if rest.contains(p) {
        let i = lemma_first_index(rest, p);
        assert forall|j: int| 0 <= j < i implies points[j] != p by {
            assert(rest[j] == points[j]);
        }
        i
    } else {
        assert forall|j: int| 0 <= j < points.len() - 1 implies points[j] != p by {
            assert(rest[j] == points[j]);
            if points[j] == p {
                assert(rest.contains(p));
            }
        }
        let k = choose|k: int| 0 <= k < points.len() && points[k] == p;
        points.len() - 1
    }
}

/// Between two neighbouring points a table runs straight from the former to the latter: counted in
/// ticks, what the local time has gained since the former is to what it gains in all as the time since
/// then is to the time in all, off by roundings only, that is by less than one part in `2^44` of what is
/// added up and four ticks. So it is at the latter point at the latter's time.
#[verifier::spinoff_prover]
#[verifier::rlimit(40)]
pub proof fn law_table_runs_straight_between_points(
    system: SystemModel,
    a: TablePointModel,
    b: TablePointModel,
    now: Float,
)
    requires
        system.rate is Table,
        are_neighbours(system.rate->table, a, b),
        a.parent.less(now),
        now.at_most(b.parent),
        is_moderate(a.parent),
        is_moderate(b.parent),
        is_moderate(a.local),
        is_moderate(b.local),
        is_moderate(system.offset),
    ensures
        ({
            let shown = system.local_time(now).0;
            let gained = shown.signed_ticks() - system.offset.signed_ticks() - a.local.signed_ticks();
            let part = now.signed_ticks() - a.parent.signed_ticks();
            let span = b.parent.signed_ticks() - a.parent.signed_ticks();
            let rise = b.local.signed_ticks() - a.local.signed_ticks();
            &&& shown is Finite
            &&& power2::pow2(53) * number::size(gained * span - part * rise) <= span * (512
                * number::size(rise) + 8 * number::size(a.local.signed_ticks()) + number::size(
                system.offset.signed_ticks(),
            ) + 4 * power2::pow2(53))
        }),
{
    let table = system.rate->table;
    let e = power2::pow2(53) as int;
    power2::lemma2_to64();
    power2::lemma2_to64_rest();
    power2::lemma_pow2_adds(17, 2080);
    power2::lemma_pow2_pos(2080);
    assert(e >= 4);
    let part = now.signed_ticks() - a.parent.signed_ticks();
    let span = b.parent.signed_ticks() - a.parent.signed_ticks();
    let rise = b.local.signed_ticks() - a.local.signed_ticks();
    let lo = a.local.signed_ticks();
    let o = system.offset.signed_ticks();
    assert(now is Finite);
    assert(is_moderate(now));
    lemma_gap_of_neighbours(table, a, b, now);
    lemma_interpolated(a, b, now);
    let bare = table_time(table, now)->0;
    let x = bare.signed_ticks();
    let w = 112 * number::size(rise) + number::size(lo) + 2 * e;
    if bare != interpolated(a, b, now) {
        assert((x - lo) * span - part * rise == 0) by (nonlinear_arith)
            requires
                x - lo == rise,
                part == span,
        ;
        assert(e * 0 == 0);
        assert(span * w >= 0) by (nonlinear_arith)
            requires
                span > 0,
                w >= 0,
        ;
    }
    number::lemma_sum(bare, system.offset);
    let y = system.local_time(now).0.signed_ticks();
    let off = y - (x + o);
    let line = (x - lo) * span - part * rise;
    assert((y - o - lo) * span - part * rise == line + off * span) by (nonlinear_arith)
        requires
            line == (x - lo) * span - part * rise,
            off == y - (x + o),
    ;
    number::lemma_size_of_product(off, span);
    let reach = 2 * number::size(lo) + 96 * number::size(rise) + 2 + number::size(o);
    assert(number::size(x + o) <= reach);
    assert(e * number::size(line + off * span) <= span * w + span * reach) by (nonlinear_arith)
        requires
            number::size(line + off * span) <= number::size(line) + number::size(off) * span,
            e * number::size(line) <= span * w,
            e * number::size(off) <= reach,
            span > 0,
            e > 0,
    ;
    assert(span * w + span * reach <= span * (512 * number::size(rise) + 8 * number::size(lo)
        + number::size(o) + 4 * e)) by (nonlinear_arith)
        requires
            w == 112 * number::size(rise) + number::size(lo) + 2 * e,
            reach == 2 * number::size(lo) + 96 * number::size(rise) + 2 + number::size(o),
            span > 0,
            e >= 4,
            number::size(rise) >= 0,
            number::size(lo) >= 0,
    ;
}

/// The line between two points does not fall where their local times do not.
#[verifier::spinoff_prover]
#[verifier::rlimit(40)]
proof fn lemma_line_does_not_fall(
    a: TablePointModel,
    b: TablePointModel,
    now: Float,
    later: Float,
)
    requires
        is_moderate(a.parent),
        is_moderate(b.parent),
        is_moderate(a.local),
        is_moderate(b.local),
        is_moderate(now),
        is_moderate(later),
        a.parent.signed_ticks() < b.parent.signed_ticks(),
        a.parent.signed_ticks() <= now.signed_ticks() <= later.signed_ticks()
            <= b.parent.signed_ticks(),
        a.local.signed_ticks() <= b.local.signed_ticks(),
    ensures
        interpolated(a, b, now) is Finite,
        interpolated(a, b, later) is Finite,
        interpolated(a, b, now).signed_ticks() <= interpolated(a, b, later).signed_ticks(),
{
    power2::lemma2_to64();
    power2::lemma2_to64_rest();
    power2::lemma_pow2_adds(17, 2080);
    power2::lemma_pow2_pos(2080);
    lemma_interpolated(a, b, now);
    lemma_interpolated(a, b, later);
    let d = b.parent.minus(a.parent);
    let l = b.local.minus(a.local);
    let n1 = now.minus(a.parent);
    let n2 = later.minus(a.parent);
    let rise = b.local.signed_ticks() - a.local.signed_ticks();
    number::lemma_difference(b.local, a.local);
    number::lemma_part(number::size(l.signed_ticks() - rise), number::size(rise), power2::pow2(53) as int);
    assert(l.signed_ticks() >= 0);
    let back = a.parent.negated();
    number::lemma_plus_commutes(now, back);
    number::lemma_plus_commutes(later, back);
    number::lemma_sum_is_monotone(back, now, later);
    number::lemma_quotient_is_monotone(n1, n2, d);
    number::lemma_product_is_monotone(n1.over(d), n2.over(d), l);
    number::lemma_sum_is_monotone(a.local, n1.over(d).times(l), n2.over(d).times(l));
}

/// Between two neighbouring points whose local times do not fall, the local time does not fall as time
/// goes on.
#[verifier::spinoff_prover]
#[verifier::rlimit(40)]
pub proof fn law_table_does_not_fall(
    system: SystemModel,
    a: TablePointModel,
    b: TablePointModel,
    now: Float,
    later: Float,
)
    requires
        system.rate is Table,
        are_neighbours(system.rate->table, a, b),
        a.parent.less(now),
        now.at_most(later),
        later.less(b.parent),
        a.local.at_most(b.local),
        is_moderate(a.parent),
        is_moderate(b.parent),
        is_moderate(a.local),
        is_moderate(b.local),
        is_moderate(system.offset),
    ensures
        system.local_time(now).0.at_most(system.local_time(later).0),
        system.local_time(now).0 is Finite,
        system.local_time(later).0 is Finite,
{
    let table = system.rate->table;
    power2::lemma2_to64();
    power2::lemma2_to64_rest();
    power2::lemma_pow2_adds(17, 2080);
    power2::lemma_pow2_pos(2080);
    assert(now is Finite && later is Finite);
    lemma_gap_of_neighbours(table, a, b, now);
    lemma_gap_of_neighbours(table, a, b, later);
    lemma_line_does_not_fall(a, b, now, later);
    lemma_interpolated(a, b, now);
    lemma_interpolated(a, b, later);
    let x1 = interpolated(a, b, now);
    let x2 = interpolated(a, b, later);
    number::lemma_sum(x1, system.offset);
    number::lemma_sum(x2, system.offset);
    number::lemma_plus_commutes(x1, system.offset);
    number::lemma_plus_commutes(x2, system.offset);
    number::lemma_sum_is_monotone(system.offset, x1, x2);
}

/// Up to its first point a table shows the local time of that point, and from its last point on the
/// local time of that one, whichever way the points are given.
pub proof fn law_table_stands_still_outside(
    system: SystemModel,
    p: TablePointModel,
    now: Float,
)
    requires
        system.rate is Table,
        system.rate->table.contains(p),
        p.parent !is Nan,
    ensures
        (now.at_most(p.parent) && forall|i: int|
            0 <= i < system.rate->table.len() ==> #[trigger] system.rate->table[i] == p
                || p.parent.less(system.rate->table[i].parent)) ==> system.local_time(now).0
            == p.local.plus(system.offset),
        (p.parent.at_most(now) && forall|i: int|
            0 <= i < system.rate->table.len() ==> #[trigger] system.rate->table[i] == p
                || system.rate->table[i].parent.less(p.parent)) ==> system.local_time(now).0
            == p.local.plus(system.offset),
{
    let table = system.rate->table;
    let points = sorted_points(table);
    if comparable(table) {
        lemma_sorted_has_the_points(table);
        assert(points.contains(p));
        let k = choose|k: int| 0 <= k < points.len() && points[k] == p;
        let z = points.len() - 1;
        assert(table.contains(points[0])) by {
            assert(points.contains(points[0]));
        }
        assert(table.contains(points[z])) by {
            assert(points.contains(points[z]));
        }
        if 0 < k {
            assert(!points[k].parent.less(points[0].parent));
        }
        if k < z {
            assert(!points[z].parent.less(points[k].parent));
        }
        assert(in_order(points));
        if 0 < z {
            assert(!points[z].parent.less(points[0].parent));
        }
        let i0 = choose|i: int| 0 <= i < table.len() && table[i] == points[0];
        let iz = choose|i: int| 0 <= i < table.len() && table[i] == points[z];
        assert(table[i0] == points[0]);
        assert(table[iz] == points[z]);
    }
}

/// A table without points shows the offset.
pub proof fn law_empty_table_shows_offset(system: SystemModel, now: Float)
    requires
        system.rate is Table,
        system.rate->table.len() == 0,
    ensures
        system.local_time(now).0 == system.offset,
{
}

/// A finite number below `2^500`: products of two of these do not overflow.
pub open spec fn is_small(x: Float) -> bool {
    x is Finite && x->ticks < power2::pow2(1574)
}

/// A factor applied to a time, and the offset added, up to rounding.
#[verifier::spinoff_prover]
#[verifier::rlimit(40)]
proof fn lemma_scaled(value: Float, t: Float, offset: Float, exact: int)
    requires
        is_small(value),
        is_small(offset),
        t is Finite,
        number::size(exact) < 4 * power2::pow2(1574),
        power2::pow2(53) * number::size(t.signed_ticks() - exact) <= number::size(exact),
    ensures
        ({
            let y = value.times(t).plus(offset);
            let v = value.signed_ticks();
            let o = offset.signed_ticks();
            &&& y is Finite
            &&& t.times(value) == value.times(t)
            &&& power2::pow2(53) * number::size((y.signed_ticks() - o) * power2::pow2(1074) - v * exact)
                <= 16 * number::size(v * exact) + (number::size(o) + 2 * power2::pow2(53))
                * power2::pow2(1074)
        }),
{
    let e = power2::pow2(53) as int;
    let h = power2::pow2(52) as int;
    let unit = power2::pow2(1074) as int;
    let big = power2::pow2(1574) as int;
    power2::lemma2_to64();
    power2::lemma2_to64_rest();
    power2::lemma_pow2_unfold(53);
    power2::lemma_pow2_pos(1074);
    power2::lemma_pow2_pos(1574);
    power2::lemma_pow2_adds(1574, 1574);
    power2::lemma_pow2_adds(4, 3148);
    power2::lemma_pow2_adds(2097, 1074);
    power2::lemma_pow2_strictly_increases(3152, 3171);
    power2::lemma_pow2_strictly_increases(1577, 2097);
    power2::lemma_pow2_adds(3, 1574);
    number::lemma_part(number::size(t.signed_ticks() - exact), number::size(exact), e);
    let v = value->ticks as int;
    let w = t->ticks as int;
    assert(v * w < 16 * (big * big)) by (nonlinear_arith)
        requires
            0 <= v < big,
            0 <= w < 8 * big,
    ;
    assert(16 * (big * big) == power2::pow2(3152)) by (nonlinear_arith)
        requires
            big * big == power2::pow2(3148),
            power2::pow2(3152) == 16 * power2::pow2(3148),
    ;
    assert(value->ticks * t->ticks == t->ticks * value->ticks) by (nonlinear_arith);
    number::lemma_product(value, t);
    let p = value.times(t);
    assert(h * unit <= e * unit) by (nonlinear_arith)
        requires
            h <= e,
            unit > 0,
    ;
    let x = p.signed_ticks();
    // the product stays far below the largest numbers
    number::lemma_size_of_product(x, unit);
    number::lemma_size_of_product(value.signed_ticks(), t.signed_ticks());
    let off = x * unit - value.signed_ticks() * t.signed_ticks();
    assert(number::size(off) <= v * w + unit) by (nonlinear_arith)
        requires
            e * number::size(off) <= v * w + e * unit,
            e >= 4,
            number::size(off) >= 0,
            v * w >= 0,
    ;
    power2::lemma_pow2_adds(2079, 1074);
    power2::lemma_pow2_strictly_increases(2079, 2080);
    power2::lemma_pow2_strictly_increases(2080, 2097);
    power2::lemma_pow2_adds(17, 2080);
    power2::lemma_pow2_unfold(2080);
    power2::lemma_pow2_unfold(3153);
    power2::lemma_pow2_pos(3152);
    power2::lemma_pow2_strictly_increases(1074, 3152);
    assert(number::size(x) * unit <= 3 * power2::pow2(3152));
    assert(number::size(x) < 2 * power2::pow2(2079)) by (nonlinear_arith)
        requires
            number::size(x) * unit <= 3 * power2::pow2(3152),
            2 * power2::pow2(3152) == power2::pow2(2079) * unit,
            unit > 0,
            power2::pow2(2079) > 0,
    ;
    power2::lemma_pow2_strictly_increases(1574, 2080);
    number::lemma_sum(p, offset);
    number::lemma_scaled_sum(
        value.signed_ticks(),
        exact,
        t.signed_ticks(),
        x,
        offset.signed_ticks(),
        p.plus(offset).signed_ticks(),
        unit,
        e,
    );
}

/// A system with a constant rate is ahead of its offset by its rate times the time since its epoch, up
/// to rounding: by less than one part in `2^49` of what is added up and two ticks. Before the epoch it
/// runs just the same.
pub proof fn law_constant_rate_is_a_factor(system: SystemModel, now: Float)
    requires
        system.rate is Constant,
        is_small(system.rate->Constant_value),
        is_small(system.epoch),
        is_small(system.offset),
        is_small(now),
    ensures
        ({
            let y = system.local_time(now).0;
            let v = system.rate->Constant_value.signed_ticks();
            let t = now.signed_ticks() - system.epoch.signed_ticks();
            let o = system.offset.signed_ticks();
            &&& y is Finite
            &&& power2::pow2(53) * number::size((y.signed_ticks() - o) * power2::pow2(1074) - v * t)
                <= 16 * number::size(v * t) + (number::size(o) + 2 * power2::pow2(53))
                * power2::pow2(1074)
        }),
{
    power2::lemma_pow2_strictly_increases(1575, 2097);
    power2::lemma_pow2_unfold(1575);
    number::lemma_difference(now, system.epoch);
    lemma_scaled(
        system.rate->Constant_value,
        now.minus(system.epoch),
        system.offset,
        now.signed_ticks() - system.epoch.signed_ticks(),
    );
}

/// What is known besides the local time: always the time since the epoch; with pauses, and only then,
/// how much of it was paused, that what was not paused was active, and whether now is paused: from the
/// start of some pause on, and before its end where it has one.
pub proof fn law_elapsed_time_is_known(system: SystemModel, now: Float)
    ensures
        ({
            let extra = system.local_time(now).1;
            &&& extra.wall_elapsed_s == Some(now.minus(system.epoch))
            &&& system.rate !is Paused ==> extra.paused_elapsed_s is None && extra.active_elapsed_s is None
                && extra.currently_paused is None
            &&& system.rate matches RateModel::Paused { value, pauses } ==> {
                &&& extra.paused_elapsed_s is Some
                &&& extra.active_elapsed_s == Some(
                    now.minus(system.epoch).minus(extra.paused_elapsed_s->0),
                )
                &&& extra.currently_paused == Some(
                    exists|i: int|
                        0 <= i < pauses.len() && {
                            let p = #[trigger] pauses[i];
                            &&& p.from.less(now) || p.from.same(now)
                            &&& p.to matches Some(end) ==> now.less(end)
                            &&& p.to is None ==> now != (Float::Infinite { negative: false }) && now
                                !is Nan
                        },
                )
            }
        }),
{
    if system.rate is Paused {
        let pauses = system.rate->pauses;
        assert forall|i: int| 0 <= i < pauses.len() implies in_pause(#[trigger] pauses[i], now) == {
            let p = pauses[i];
            &&& p.from.less(now) || p.from.same(now)
            &&& p.to matches Some(end) ==> now.less(end)
            &&& p.to is None ==> now != (Float::Infinite { negative: false }) && now !is Nan
        } by {}
        if is_paused(pauses, now) {
            let i = choose|i: int| 0 <= i < pauses.len() && in_pause(#[trigger] pauses[i], now);
            assert(in_pause(pauses[i], now));
        }
    }
}

/// A system with pauses is ahead of its offset by its rate times its active time, up to rounding.
pub proof fn law_paused_rate_counts_active_time(system: SystemModel, now: Float)
    requires
        system.rate is Paused,
        is_small(system.rate->Paused_value),
        is_small(system.offset),
        system.local_time(now).1.active_elapsed_s matches Some(t) && is_small(t),
    ensures
        ({
            let y = system.local_time(now).0;
            let v = system.rate->Paused_value.signed_ticks();
            let t = system.local_time(now).1.active_elapsed_s->0.signed_ticks();
            let o = system.offset.signed_ticks();
            &&& y is Finite
            &&& power2::pow2(53) * number::size((y.signed_ticks() - o) * power2::pow2(1074) - v * t)
                <= 16 * number::size(v * t) + (number::size(o) + 2 * power2::pow2(53))
                * power2::pow2(1074)
        }),
{
    let t = system.local_time(now).1.active_elapsed_s->0;
    power2::lemma_pow2_pos(1574);
    assert(power2::pow2(53) * 0 == 0);
    lemma_scaled(system.rate->Paused_value, t, system.offset, t.signed_ticks());
}

/// A system that was never paused runs like one of constant rate.
pub proof fn law_no_pause_is_constant(system: TemporalSystem, now: Number)
    requires
        system@.rate matches RateModel::Paused { pauses, .. } && pauses.len() == 0,
    ensures
        ({
            let value = system@.rate->Paused_value;
            let constant = SystemModel { rate: RateModel::Constant { value }, ..system@ };
            let (local, extra) = system@.local_time(now@);
            &&& local == constant.local_time(now@).0 || local.same(constant.local_time(now@).0)
            &&& extra.paused_elapsed_s == Some(Float::Finite { negative: false, ticks: 0 })
            &&& extra.currently_paused == Some(false)
        }),
{
    let value = system@.rate->Paused_value;
    let elapsed = now@.minus(system@.epoch);
    if now@ is Finite {
        number::lemma_representable(now);
    }
    if system@.epoch is Finite {
        number::lemma_representable(system.epoch_parent_sec);
    }
    number::lemma_results_are_rounded(now@, system@.epoch.negated());
    number::lemma_minus_zero(elapsed);
    number::lemma_times_commutes(elapsed, value);
}

/// One more pause adds to the paused time what of it lies between the epoch and now, and nothing where
/// it is over before the epoch, starts only now, or ends before it starts.
pub proof fn law_one_more_pause(system: SystemModel, p: PauseModel, now: Float)
    requires
        system.rate is Paused,
        system.epoch is Finite,
        now is Finite,
        p.from is Finite,
        p.to matches Some(end) ==> end is Finite,
    ensures
        ({
            let value = system.rate->Paused_value;
            let pauses = system.rate->pauses;
            let more = SystemModel {
                rate: RateModel::Paused { value, pauses: pauses.push(p) },
                ..system
            };
            let before = system.local_time(now).1.paused_elapsed_s->0;
            let after = more.local_time(now).1.paused_elapsed_s->0;
            let start = p.from.signed_ticks();
            let epoch = system.epoch.signed_ticks();
            let at = now.signed_ticks();
            let over = match p.to {
                Some(end) => end.signed_ticks() <= at,
                None => false,
            };
            let end = p.to->0.signed_ticks();
            &&& at <= start || at <= epoch || (over && (end <= start || end <= epoch)) ==> after == before
            &&& epoch <= start < at && !over ==> after == before.plus(now.minus(p.from))
            &&& epoch <= start && over && start < end ==> after == before.plus(p.to->0.minus(p.from))
            &&& start <= epoch < at && !over ==> after == before.plus(now.minus(system.epoch))
            &&& start <= epoch && over && epoch < end ==> after == before.plus(
                p.to->0.minus(system.epoch),
            )
        }),
{
    let pauses = system.rate->pauses;
    assert(pauses.push(p).drop_last() =~= pauses);
}

/// What the segments up to the `k`th add up to at its end.
spec fn sum_to(segments: Seq<SegmentModel>, k: nat, epoch: Float) -> Float
    decreases k,
{
    let end = segments[k as int].until->0;
    if k == 0 {
        zero().plus(segments[0].rate.times(end.minus(epoch)))
    } else {
        sum_to(segments, (k - 1) as nat, epoch).plus(
            segments[k as int].rate.times(end.minus(segments[k - 1].until->0)),
        )
    }
}

/// Whether the segments up to the `k`th end one after the other, the first after the epoch.
pub open spec fn ends_rise(segments: Seq<SegmentModel>, k: int, epoch: Float) -> bool {
    &&& 0 <= k < segments.len()
    &&& forall|i: int|
        0 <= i <= k ==> {
            &&& (#[trigger] segments[i]).until is Some
            &&& epoch.less(segments[i].until->0)
        }
    &&& forall|i: int, j: int|
        0 <= i < j <= k ==> (#[trigger] segments[i]).until->0.less(
            (#[trigger] segments[j]).until->0,
        )
}

/// Beyond the end of a segment its whole length counts.
proof fn lemma_follow_beyond(segments: Seq<SegmentModel>, k: nat, epoch: Float, now: Float)
    requires
        ends_rise(segments, k as int, epoch),
        segments[k as int].until->0.less(now),
    ensures
        follow(segments, 0, zero(), epoch, now) == follow(
            segments,
            k + 1,
            sum_to(segments, k, epoch),
            segments[k as int].until->0,
            now,
        ),
    decreases k,
{
    if k > 0 {
        let j = (k - 1) as nat;
        assert(segments[j as int].until->0.less(segments[k as int].until->0));
        assert(ends_rise(segments, j as int, epoch));
        lemma_follow_beyond(segments, j, epoch, now);
    }
}

/// At the end of a segment its whole length counts, and nothing more.
proof fn lemma_follow_to_end(segments: Seq<SegmentModel>, k: nat, epoch: Float)
    requires
        ends_rise(segments, k as int, epoch),
    ensures
        follow(segments, 0, zero(), epoch, segments[k as int].until->0) == (
            sum_to(segments, k, epoch),
            segments[k as int].until->0,
        ),
{
    let now = segments[k as int].until->0;
    assert(epoch.less(now));
    if k > 0 {
        let j = (k - 1) as nat;
        assert(segments[j as int].until->0.less(segments[k as int].until->0));
        assert(ends_rise(segments, j as int, epoch));
        lemma_follow_beyond(segments, j, epoch, now);
    }
}

/// Piecewise rates apply one after the other. Up to the end of its first segment a system runs like one
/// of that constant rate, and at and before its epoch it shows its offset.
pub proof fn law_first_segment_counts_first(system: TemporalSystem, now: Number)
    requires
        system@.rate matches RateModel::Piecewise { segments } && segments.len() > 0,
        now@ is Finite,
        system@.epoch is Finite,
        system@.offset is Finite,
    ensures
        ({
            let segments = system@.rate->segments;
            let constant = SystemModel {
                rate: RateModel::Constant { value: segments[0].rate },
                ..system@
            };
            let local = system@.local_time(now@).0;
            &&& now@.at_most(system@.epoch) ==> local.same(system@.offset)
            &&& system@.epoch.less(now@) && (segments[0].until matches Some(end) ==> now@.at_most(end))
                ==> local == constant.local_time(now@).0 || local.same(constant.local_time(now@).0)
        }),
{
    let segments = system@.rate->segments;
    let epoch = system@.epoch;
    number::lemma_representable(system.offset);
    number::lemma_zero_sums(epoch, system@.offset);
    if now@.at_most(epoch) {
        assert(follow(segments, 0, zero(), epoch, now@) == (zero(), epoch));
    } else {
        let until = match segments[0].until {
            Some(u) => u,
            None => now@,
        };
        if segments[0].until is None || now@.at_most(until) {
            let hi = until.smaller(now@);
            assert(hi.minus(epoch) == now@.minus(epoch));
            let step = segments[0].rate.times(now@.minus(epoch));
            assert(follow(segments, 0, zero(), epoch, now@) == (zero().plus(step), hi));
            number::lemma_results_are_rounded(segments[0].rate, now@.minus(epoch));
            number::lemma_zero_plus(step);
        }
    }
}

/// The rate in force after the end of the `k`th segment.
spec fn rate_after(segments: Seq<SegmentModel>, k: nat) -> Float {
    if k + 1 < segments.len() {
        segments[k as int + 1].rate
    } else {
        segments[k as int].rate
    }
}

/// What the segments add up to at the end of one, and after it.
proof fn lemma_next_segment(segments: Seq<SegmentModel>, k: nat, epoch: Float, now: Float)
    requires
        ends_rise(segments, k as int, epoch),
        segments[k as int].until->0 is Finite,
        now is Finite,
        segments[k as int].until->0.less(now),
        k + 1 < segments.len() ==> (segments[k as int + 1].until matches Some(end) ==> now.at_most(end)),
    ensures
        ({
            let end = segments[k as int].until->0;
            let sum = sum_to(segments, k, epoch);
            let step = rate_after(segments, k).times(now.minus(end));
            &&& piecewise_time(segments, epoch, end) == sum
            &&& piecewise_time(segments, epoch, now) == sum.plus(step)
            &&& sum.is_rounded()
            &&& step.is_rounded()
        }),
{
    let end = segments[k as int].until->0;
    let rate = rate_after(segments, k);
    let sum = sum_to(segments, k, epoch);
    let step = rate.times(now.minus(end));
    lemma_follow_beyond(segments, k, epoch, now);
    lemma_follow_to_end(segments, k, epoch);
    number::lemma_results_are_rounded(zero(), zero());
    lemma_follow_is_rounded(segments, 0, zero(), epoch, end);
    number::lemma_results_are_rounded(rate, now.minus(end));
    if k + 1 < segments.len() {
        let until = match segments[k as int + 1].until {
            Some(u) => u,
            None => now,
        };
        let hi = until.smaller(now);
        lemma_same_distance(hi, now, end);
        assert(follow(segments, k + 1, sum, end, now) == (sum.plus(step), hi));
    }
}

/// Numbers that are equal by value are equally far from one that is below them.
proof fn lemma_same_distance(a: Float, b: Float, from: Float)
    requires
        a is Finite,
        b is Finite,
        from is Finite,
        a.same(b),
        from.less(a),
    ensures
        a.minus(from) == b.minus(from),
{
}

/// Piecewise rates apply one after the other. After the end of a segment the system goes on from where
/// it was then, at the rate of the next segment up to that one's end, and at the rate of the last one
/// for good. Nothing is said where no number comes out.
pub proof fn law_next_segment_goes_on(system: TemporalSystem, k: nat, now: Float)
    requires
        system@.rate is Piecewise,
        system@.offset == zero(),
        ends_rise(system@.rate->segments, k as int, system@.epoch),
        system@.rate->segments[k as int].until->0.less(now),
        k + 1 < system@.rate->segments.len() ==> (system@.rate->segments[k as int + 1].until matches Some(end)
            ==> now.at_most(end)),
        system@.local_time(now).0 !is Nan,
        system@.rate->segments[k as int].until->0 is Finite,
        now is Finite,
    ensures
        ({
            let segments = system@.rate->segments;
            let end = segments[k as int].until->0;
            let rate = if k + 1 < segments.len() {
                segments[k as int + 1].rate
            } else {
                segments[k as int].rate
            };
            system@.local_time(now).0.same(
                system@.local_time(end).0.plus(rate.times(now.minus(end))),
            )
        }),
{
    let segments = system@.rate->segments;
    let epoch = system@.epoch;
    let end = segments[k as int].until->0;
    let sum = sum_to(segments, k, epoch);
    let step = rate_after(segments, k).times(now.minus(end));
    lemma_next_segment(segments, k, epoch, now);
    number::lemma_results_are_rounded(sum, step);
    number::lemma_plus_zero(sum);
    number::lemma_plus_zero(sum.plus(step));
    number::lemma_zero_first(sum, step);
}

/// A point goes behind those of its own time.
proof fn lemma_inserted_behind(
    points: Seq<TablePointModel>,
    p: TablePointModel,
    at: Float,
    keep: spec_fn(TablePointModel) -> bool,
)
    requires
        forall|x: TablePointModel| #[trigger] keep(x) == x.parent.same(at),
    ensures
        insert_point(points, p).filter(keep) == if keep(p) {
            points.filter(keep).push(p)
        } else {
            points.filter(keep)
        },
    decreases points.len(),
{
    reveal(Seq::filter);
    let out = insert_point(points, p);
    if points.len() > 0 && p.parent.less(points.last().parent) {
        let rest = points.drop_last();
        lemma_inserted_behind(rest, p, at, keep);
        assert(out.drop_last() =~= insert_point(rest, p));
        assert(out.last() == points.last());
    } else {
        assert(out.drop_last() =~= points);
    }
}

/// Points of one parent time keep the order in which they are given.
pub proof fn law_points_of_one_time_keep_their_order(table: Seq<TablePointModel>, at: Float)
    ensures
        sorted_points(table).filter(|p: TablePointModel| p.parent.same(at)) == table.filter(
            |p: TablePointModel| p.parent.same(at),
        ),
    decreases table.len(),
{
    let keep = |p: TablePointModel| p.parent.same(at);
    reveal(Seq::filter);
    if table.len() > 0 {
        law_points_of_one_time_keep_their_order(table.drop_last(), at);
        lemma_inserted_behind(sorted_points(table.drop_last()), table.last(), at, keep);
    }
}

/// Segments are followed from one on as if it were the first.
proof fn lemma_follow_from(
    segments: Seq<SegmentModel>,
    i: nat,
    local: Float,
    cursor: Float,
    now: Float,
)
    requires
        segments.len() > 0,
    ensures
        follow(segments, i + 1, local, cursor, now) == follow(
            segments.drop_first(),
            i,
            local,
            cursor,
            now,
        ),
    decreases segments.len() - i,
{
    let rest = segments.drop_first();
    if i < rest.len() {
        let segment = rest[i as int];
        assert(segment == segments[i as int + 1]);
        let until = match segment.until {
            Some(u) => u,
            None => now,
        };
        let hi = until.smaller(now);
        let moved = cursor.less(hi);
        let local2 = if moved {
            local.plus(segment.rate.times(hi.minus(cursor)))
        } else {
            local
        };
        let cursor2 = if moved {
            hi
        } else {
            cursor
        };
        lemma_follow_from(segments, i + 1, local2, cursor2, now);
    }
}

/// A first segment that is over by the epoch counts for nothing: the next one is in force at the epoch.
pub proof fn law_segment_before_the_epoch_counts_for_nothing(system: SystemModel, now: Float)
    requires
        system.rate is Piecewise,
        system.rate->segments.len() > 1,
        system.rate->segments[0].until matches Some(end) && end.at_most(system.epoch),
    ensures
        ({
            let rest = SystemModel {
                rate: RateModel::Piecewise { segments: system.rate->segments.drop_first() },
                ..system
            };
            system.epoch.less(now) ==> system.local_time(now) == rest.local_time(now)
        }),
{
    let segments = system.rate->segments;
    let rest = segments.drop_first();
    if system.epoch.less(now) {
        lemma_follow_from(segments, 0, zero(), system.epoch, now);
        let until = segments[0].until->0;
        let hi = until.smaller(now);
        assert(!system.epoch.less(hi));
        assert(follow(segments, 0, zero(), system.epoch, now) == follow(
            segments,
            1,
            zero(),
            system.epoch,
            now,
        ));
        assert(segments.last() == rest.last());
    }
}

/// The last point that passes a filter is the last one kept.
proof fn lemma_last_kept(s: Seq<TablePointModel>, keep: spec_fn(TablePointModel) -> bool, i: int)
    requires
        0 <= i < s.len(),
        keep(s[i]),
        forall|j: int| i < j < s.len() ==> !keep(#[trigger] s[j]),
    ensures
        s.filter(keep).len() > 0,
        s.filter(keep).last() == s[i],
    decreases s.len(),
{
    reveal(Seq::filter);
    let rest = s.drop_last();
    if i < rest.len() {
        assert(!keep(s[s.len() - 1]));
        assert forall|j: int| i < j < rest.len() implies !keep(#[trigger] rest[j]) by {
            assert(rest[j] == s[j]);
        }
        lemma_last_kept(rest, keep, i);
    }
}

/// The first point that passes a filter is the first one kept.
proof fn lemma_first_kept(s: Seq<TablePointModel>, keep: spec_fn(TablePointModel) -> bool, i: int)
    requires
        0 <= i < s.len(),
        keep(s[i]),
        forall|j: int| 0 <= j < i ==> !keep(#[trigger] s[j]),
    ensures
        s.filter(keep).len() > 0,
        s.filter(keep)[0] == s[i],
    decreases s.len(),
{
    reveal(Seq::filter);
    let rest = s.drop_last();
    if i < rest.len() {
        assert forall|j: int| 0 <= j < i implies !keep(#[trigger] rest[j]) by {
            assert(rest[j] == s[j]);
        }
        lemma_first_kept(rest, keep, i);
    } else {
        assert forall|j: int| 0 <= j < rest.len() implies !keep(#[trigger] rest[j]) by {
            assert(rest[j] == s[j]);
        }
        lemma_none_kept(rest, keep);
    }
}

proof fn lemma_none_kept(s: Seq<TablePointModel>, keep: spec_fn(TablePointModel) -> bool)
    requires
        forall|j: int| 0 <= j < s.len() ==> !keep(#[trigger] s[j]),
    ensures
        s.filter(keep).len() == 0,
    decreases s.len(),
{
    reveal(Seq::filter);
    if s.len() > 0 {
        let rest = s.drop_last();
        assert forall|j: int| 0 <= j < rest.len() implies !keep(#[trigger] rest[j]) by {
            assert(rest[j] == s[j]);
        }
        lemma_none_kept(rest, keep);
        assert(!keep(s[s.len() - 1]));
    }
}

/// The place of the first point that passes a filter.
proof fn lemma_first_passing(s: Seq<TablePointModel>, keep: spec_fn(TablePointModel) -> bool, k: int) -> (i:
    int)
    requires
        0 <= k < s.len(),
        keep(s[k]),
    ensures
        0 <= i <= k,
        keep(s[i]),
        forall|j: int| 0 <= j < i ==> !keep(#[trigger] s[j]),
    decreases k,
{
    if forall|j: int| 0 <= j < k ==> !keep(#[trigger] s[j]) {
        k
    } else {
        let j = choose|j: int| 0 <= j < k && keep(#[trigger] s[j]);
        lemma_first_passing(s, keep, j)
    }
}

/// A table may hold several points of one time, where the local time jumps: between two times it is read
/// from the last point given for the former to the first one given for the latter, as if it held these
/// two alone.
pub proof fn law_table_jumps_at_points_of_one_time(system: SystemModel, i: int, j: int, now: Float)
    requires
        system.rate is Table,
        0 <= i < system.rate->table.len(),
        0 <= j < system.rate->table.len(),
        system.rate->table[i].parent.less(now),
        now.less(system.rate->table[j].parent),
        forall|k: int|
            0 <= k < system.rate->table.len() ==> {
                let p = #[trigger] system.rate->table[k];
                ||| p.parent.less(system.rate->table[i].parent)
                ||| p.parent.same(system.rate->table[i].parent) && k <= i
                ||| system.rate->table[j].parent.less(p.parent)
                ||| p.parent.same(system.rate->table[j].parent) && k >= j
            },
    ensures
        ({
            let table = system.rate->table;
            let two = SystemModel {
                rate: RateModel::Table { table: seq![table[i], table[j]] },
                ..system
            };
            system.local_time(now).0 == two.local_time(now).0
        }),
{
    let table = system.rate->table;
    let a = table[i];
    let b = table[j];
    let of_a = |p: TablePointModel| p.parent.same(a.parent);
    let of_b = |p: TablePointModel| p.parent.same(b.parent);
    assert(comparable(table));
    lemma_sorted_has_the_points(table);
    law_points_of_one_time_keep_their_order(table, a.parent);
    law_points_of_one_time_keep_their_order(table, b.parent);
    let points = sorted_points(table);
    assert forall|k: int| 0 <= k < points.len() implies {
        ||| (#[trigger] points[k]).parent.less(a.parent)
        ||| points[k].parent.same(a.parent)
        ||| points[k].parent.same(b.parent)
        ||| b.parent.less(points[k].parent)
    } by {
        assert(points.contains(points[k]));
        assert(table.contains(points[k]));
        let t = choose|t: int| 0 <= t < table.len() && table[t] == points[k];
        assert(table[t] == points[k]);
    }
    assert(table.contains(a) && table.contains(b));
    assert(points.contains(a) && points.contains(b));
    let ia = choose|k: int| 0 <= k < points.len() && points[k] == a;
    let ib = choose|k: int| 0 <= k < points.len() && points[k] == b;
    let kb = lemma_first_passing(points, of_b, ib);
    assert(ia < kb) by {
        if kb <= ia {
            if kb < ia {
                assert(!points[ia].parent.less(points[kb].parent));
            }
        }
    }
    let k = kb - 1;
    assert(!of_b(points[k]));
    assert(of_a(points[k])) by {
        assert(!points[kb].parent.less(points[k].parent));
        if ia < k {
            assert(!points[k].parent.less(points[ia].parent));
        }
    }
    assert forall|t: int| k < t < points.len() implies !of_a(#[trigger] points[t]) by {
        if kb < t {
            assert(!points[t].parent.less(points[kb].parent));
        }
    }
    lemma_last_kept(points, of_a, k);
    assert forall|t: int| i < t < table.len() implies !of_a(#[trigger] table[t]) by {}
    lemma_last_kept(table, of_a, i);
    assert(points[k] == a);
    lemma_first_kept(points, of_b, kb);
    assert forall|t: int| 0 <= t < j implies !of_b(#[trigger] table[t]) by {}
    lemma_first_kept(table, of_b, j);
    assert(points[kb] == b);
    assert(between(points, k, now));
    assert forall|t: int| 0 <= t < k implies !#[trigger] between(points, t, now) by {
        if t + 1 < k {
            assert(!points[k].parent.less(points[t + 1].parent));
        }
    }
    lemma_first_gap(points, 0, k, now);
    if 0 < k {
        assert(!points[k].parent.less(points[0].parent));
    }
    let z = points.len() - 1;
    if kb < z {
        assert(!points[z].parent.less(points[kb].parent));
    }
    // the two alone
    let pair = seq![a, b];
    assert(pair.drop_last() =~= seq![a]);
    assert(seq![a].drop_last() =~= Seq::<TablePointModel>::empty());
    assert(sorted_points(Seq::<TablePointModel>::empty()) =~= Seq::<TablePointModel>::empty());
    assert(sorted_points(seq![a]) =~= seq![a]) by {
        assert(insert_point(Seq::<TablePointModel>::empty(), a) =~= seq![a]);
    }
    assert(sorted_points(pair) =~= pair) by {
        assert(insert_point(seq![a], b) =~= pair);
    }
    assert(between(pair, 0, now));
    lemma_first_gap(pair, 0, 0, now);
}

} // verus!

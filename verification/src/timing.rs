//! Microsecond timestamps, the sliding window of intervals between log
//! emissions, and the matching of that window against the interval patterns
//! of known CPU side-channel attacks.
//!
//! The statistics over a window are floating point and are computed by the caller.
use vstd::prelude::*;
use std::collections::VecDeque;
use std::time::{Duration, Instant};
use crate::clock::{duration_nanos, unix_now_nanos};

verus! {

broadcast use vstd::std_specs::vecdeque::group_vec_dequeue_axioms;

/// Nanoseconds in a microsecond.
pub const NANOS_PER_MICRO: u64 = 1000;

/// Attack type detected.
#[derive(Clone, Copy, Debug, PartialEq, Eq, Structural)]
pub enum AttackType {
    /// No attack detected.
    NoAttack,
    /// Spectre v1 (bounds check bypass).
    SpectreV1,
    /// Spectre v2 (branch target injection).
    SpectreV2,
    /// Meltdown (rogue data cache load).
    Meltdown,
    /// Generic cache timing anomaly.
    CacheTiming,
}

/// The name of an attack type, as it is displayed.
pub open spec fn attack_name(a: AttackType) -> Seq<char> {
    match a {
        AttackType::NoAttack => "none"@,
        AttackType::SpectreV1 => "spectre_v1"@,
        AttackType::SpectreV2 => "spectre_v2"@,
        AttackType::Meltdown => "meltdown"@,
        AttackType::CacheTiming => "cache_timing"@,
    }
}

impl AttackType {
    /// The name of the attack type, as it is displayed.
    pub fn as_str(self) -> (s: &'static str)
        ensures
            s@ == attack_name(self),
    {
        match self {
            AttackType::NoAttack => "none",
            AttackType::SpectreV1 => "spectre_v1",
            AttackType::SpectreV2 => "spectre_v2",
            AttackType::Meltdown => "meltdown",
            AttackType::CacheTiming => "cache_timing",
        }
    }
}

impl Default for AttackType {
    fn default() -> (a: Self)
        ensures
            a == AttackType::NoAttack,
    {
        AttackType::NoAttack
    }
}

#[verifier::external_type_specification]
#[verifier::external_body]
pub struct ExInstant(Instant);

/// `Instant::now()`: a reading of the monotonic clock. Nothing is claimed of it.
#[verifier::external_body]
fn instant_now() -> (i: Instant) {
    Instant::now()
}

/// `start.elapsed()`: the time since `start` on the monotonic clock. Nothing
/// is claimed of it.
#[verifier::external_body]
fn elapsed_since(start: &Instant) -> (d: Duration) {
    start.elapsed()
}

/// The whole nanoseconds since `start`, truncated to `u64`.
fn nanos_since(start: &Instant) -> (n: u64) {
    let nanos = duration_nanos(&elapsed_since(start));
    #[verifier::truncate]
    (nanos as u64)
}

/// The current timestamp in nanoseconds since the Unix epoch, saturating at
/// `u64::MAX` (from the year 2554 on).
pub fn timestamp_nanos() -> (n: u64) {
    let t = unix_now_nanos();
    if t > u64::MAX as u128 {
        u64::MAX
    } else {
        t as u64
    }
}

/// A timestamp with microsecond precision.
#[derive(Clone, Copy, Debug, PartialEq, Eq, Structural)]
pub struct MicroTimestamp {
    /// Nanoseconds since epoch (or arbitrary start point).
    pub nanos: u64,
}

impl MicroTimestamp {
    /// A timestamp from the current high-resolution reading.
    pub fn now() -> (t: Self) {
        MicroTimestamp { nanos: timestamp_nanos() }
    }

    /// A timestamp from nanoseconds.
    pub fn from_nanos(nanos: u64) -> (t: Self)
        ensures
            t.nanos == nanos,
    {
        MicroTimestamp { nanos }
    }

    /// Whole microseconds.
    pub fn as_micros(&self) -> (m: u64)
        ensures
            m == self.nanos / 1000,
    {
        self.nanos / NANOS_PER_MICRO
    }

    /// The distance between two timestamps in whole microseconds.
    pub fn diff_micros(&self, other: Self) -> (d: u64)
        ensures
            d == micros_between(*self, other),
    {
        if self.nanos >= other.nanos {
            (self.nanos - other.nanos) / NANOS_PER_MICRO
        } else {
            (other.nanos - self.nanos) / NANOS_PER_MICRO
        }
    }
}

/// The distance between two timestamps in whole microseconds.
pub open spec fn micros_between(a: MicroTimestamp, b: MicroTimestamp) -> u64 {
    if a.nanos >= b.nanos {
        ((a.nanos - b.nanos) / 1000) as u64
    } else {
        ((b.nanos - a.nanos) / 1000) as u64
    }
}

/// Interval pattern of Spectre v1 cache timing (microseconds).
pub open spec fn spectre_v1_pattern() -> Seq<u64> {
    seq![50u64, 100, 150, 80, 120, 180]
}

/// Interval pattern of Meltdown (microseconds).
pub open spec fn meltdown_pattern() -> Seq<u64> {
    seq![100u64, 200, 250, 150, 300, 120]
}

/// Interval pattern of Spectre v2 branch target injection (microseconds).
pub open spec fn spectre_v2_pattern() -> Seq<u64> {
    seq![30u64, 80, 120, 60, 100, 140]
}

fn spectre_v1_signature() -> (s: Vec<u64>)
    ensures
        s@ == spectre_v1_pattern(),
{
    let s = vec![50u64, 100, 150, 80, 120, 180];
    assert(s@ =~= spectre_v1_pattern());
    s
}

fn meltdown_signature() -> (s: Vec<u64>)
    ensures
        s@ == meltdown_pattern(),
{
    let s = vec![100u64, 200, 250, 150, 300, 120];
    assert(s@ =~= meltdown_pattern());
    s
}

fn spectre_v2_signature() -> (s: Vec<u64>)
    ensures
        s@ == spectre_v2_pattern(),
{
    let s = vec![30u64, 80, 120, 60, 100, 140];
    assert(s@ =~= spectre_v2_pattern());
    s
}

/// The interval is within 20% of the signature value.
pub open spec fn within_tolerance(interval: u64, sig: u64) -> bool {
    sig - sig / 5 <= interval <= sig + sig / 5
}

/// How many of the first `n` intervals are within tolerance of the signature.
pub open spec fn matching_count(intervals: Seq<u64>, sig: Seq<u64>, n: int) -> nat
    decreases n,
{
    if n <= 0 {
        0
    } else {
        matching_count(intervals, sig, n - 1) + if within_tolerance(intervals[n - 1], sig[n - 1]) {
            1nat
        } else {
            0nat
        }
    }
}

/// The similarity score of the intervals against a signature, as a fraction
/// `(matching, total)`: the share of positions within 20% of the signature,
/// `(0, 1)` when the lengths differ.
pub open spec fn signature_score(intervals: Seq<u64>, sig: Seq<u64>) -> (nat, nat) {
    if intervals.len() != sig.len() || sig.len() == 0 {
        (0, 1)
    } else {
        (matching_count(intervals, sig, sig.len() as int), sig.len())
    }
}

/// The score reaches `num / den`.
pub open spec fn score_at_least(score: (nat, nat), num: nat, den: nat) -> bool {
    score.0 * den >= num * score.1
}

/// The attack whose pattern the intervals follow: a score of at least 0.7
/// names it (Meltdown first, then Spectre v1, then v2); a score of at least
/// 0.5 against any is a generic cache timing anomaly. Fewer than six intervals
/// name nothing.
pub open spec fn spec_match_signature(intervals: Seq<u64>) -> AttackType {
    let v1 = signature_score(intervals, spectre_v1_pattern());
    let v2 = signature_score(intervals, spectre_v2_pattern());
    let md = signature_score(intervals, meltdown_pattern());
    if intervals.len() < 6 {
        AttackType::NoAttack
    } else if score_at_least(md, 7, 10) {
        AttackType::Meltdown
    } else if score_at_least(v1, 7, 10) {
        AttackType::SpectreV1
    } else if score_at_least(v2, 7, 10) {
        AttackType::SpectreV2
    } else if score_at_least(v1, 1, 2) || score_at_least(v2, 1, 2) || score_at_least(md, 1, 2) {
        AttackType::CacheTiming
    } else {
        AttackType::NoAttack
    }
}

/// Sliding window for jitter analysis.
#[derive(Debug)]
pub struct JitterWindow {
    /// Capacity of the window (number of intervals).
    capacity: usize,
    /// Previous timestamps.
    timestamps: VecDeque<MicroTimestamp>,
    /// Intervals between timestamps in microseconds.
    intervals: VecDeque<u64>,
}

/// The sequence without its first element when it is longer than `cap`.
pub open spec fn bounded(s: Seq<u64>, cap: int) -> Seq<u64> {
    if s.len() > cap {
        s.subrange(1, s.len() as int)
    } else {
        s
    }
}

impl JitterWindow {
    pub closed spec fn spec_capacity(&self) -> usize {
        self.capacity
    }

    /// The kept timestamps, oldest first.
    pub closed spec fn spec_timestamps(&self) -> Seq<MicroTimestamp> {
        self.timestamps@
    }

    /// The kept intervals in microseconds, oldest first.
    pub closed spec fn spec_intervals(&self) -> Seq<u64> {
        self.intervals@
    }

    /// At most `capacity` intervals and `capacity + 1` timestamps are kept.
    pub closed spec fn wf(&self) -> bool {
        &&& self.intervals@.len() <= self.capacity
        &&& self.timestamps@.len() <= self.capacity + 1
        &&& self.capacity < usize::MAX
    }

    /// An empty window that keeps `capacity` intervals.
    pub fn new(capacity: usize) -> (w: Self)
        requires
            capacity < usize::MAX,
        ensures
            w.wf(),
            w.spec_capacity() == capacity,
            w.spec_timestamps().len() == 0,
            w.spec_intervals().len() == 0,
    {
        JitterWindow {
            capacity,
            timestamps: VecDeque::with_capacity(capacity + 1),
            intervals: VecDeque::with_capacity(capacity),
        }
    }

    /// Records a timestamp: the interval since the previous one joins the
    /// window, and the oldest interval and timestamp leave it when it is full.
    pub fn push(&mut self, timestamp: MicroTimestamp)
        requires
            old(self).wf(),
        ensures
            final(self).wf(),
            final(self).spec_capacity() == old(self).spec_capacity(),
            final(self).spec_intervals() == if old(self).spec_timestamps().len() > 0 {
                bounded(
                    old(self).spec_intervals().push(
                        micros_between(timestamp, old(self).spec_timestamps().last()),
                    ),
                    old(self).spec_capacity() as int,
                )
            } else {
                old(self).spec_intervals()
            },
            final(self).spec_timestamps() == if old(self).spec_timestamps().len() + 1
                > old(self).spec_capacity() + 1 {
                old(self).spec_timestamps().push(timestamp).subrange(
                    1,
                    old(self).spec_timestamps().len() + 1 as int,
                )
            } else {
                old(self).spec_timestamps().push(timestamp)
            },
    {
        let n = self.timestamps.len();
        if n > 0 {
            let prev = self.timestamps[n - 1];
            let interval = timestamp.diff_micros(prev);
            self.intervals.push_back(interval);
            if self.intervals.len() > self.capacity {
                self.intervals.pop_front();
            }
        }
        self.timestamps.push_back(timestamp);
        if self.timestamps.len() > self.capacity + 1 {
            self.timestamps.pop_front();
        }
    }

    /// The kept intervals, oldest first.
    pub fn intervals(&self) -> (r: &VecDeque<u64>)
        ensures
            r@ == self.spec_intervals(),
    {
        &self.intervals
    }

    /// The capacity of the window.
    pub fn capacity(&self) -> (c: usize)
        ensures
            c == self.spec_capacity(),
    {
        self.capacity
    }

    /// The attack whose interval pattern the window follows.
    pub fn match_signature(&self) -> (a: AttackType)
        ensures
            a == spec_match_signature(self.spec_intervals()),
    {
        if self.intervals.len() < 6 {
            return AttackType::NoAttack;
        }
        let mut intervals: Vec<u64> = Vec::new();
        let mut i: usize = 0;
        while i < self.intervals.len()
            invariant
                i <= self.intervals@.len(),
                intervals@ == self.intervals@.subrange(0, i as int),
            decreases self.intervals@.len() - i,
        {
            intervals.push(self.intervals[i]);
            assert(intervals@ =~= self.intervals@.subrange(0, i + 1));
            i = i + 1;
        }
        assert(intervals@ =~= self.intervals@);
        let v1 = compare_signature(&intervals, &spectre_v1_signature());
        let v2 = compare_signature(&intervals, &spectre_v2_signature());
        let md = compare_signature(&intervals, &meltdown_signature());
        if md.0 * 10 >= 7 * md.1 {
            return AttackType::Meltdown;
        }
        if v1.0 * 10 >= 7 * v1.1 {
            return AttackType::SpectreV1;
        }
        if v2.0 * 10 >= 7 * v2.1 {
            return AttackType::SpectreV2;
        }
        if v1.0 * 2 >= v1.1 || v2.0 * 2 >= v2.1 || md.0 * 2 >= md.1 {
            return AttackType::CacheTiming;
        }
        AttackType::NoAttack
    }

    /// Returns the number of intervals in the window.
    pub fn len(&self) -> (n: usize)
        ensures
            n == self.spec_intervals().len(),
    {
        self.intervals.len()
    }

    /// Returns true if the window is empty.
    pub fn is_empty(&self) -> (b: bool)
        ensures
            b == (self.spec_intervals().len() == 0),
    {
        self.intervals.len() == 0
    }
}

/// The similarity of the intervals to a signature, as `(matching, total)`.
fn compare_signature(intervals: &Vec<u64>, signature: &Vec<u64>) -> (r: (u64, u64))
    requires
        signature@.len() == 6,
        forall|i: int| 0 <= i < 6 ==> signature@[i] <= 1000,
    ensures
        r.0 == signature_score(intervals@, signature@).0,
        r.1 == signature_score(intervals@, signature@).1,
        r.0 <= 6,
        1 <= r.1 <= 6,
{
    if intervals.len() != signature.len() {
        return (0, 1);
    }
    let mut matches: u64 = 0;
    let mut i: usize = 0;
    while i < intervals.len()
        invariant
            intervals@.len() == signature@.len(),
            signature@.len() == 6,
            forall|j: int| 0 <= j < 6 ==> signature@[j] <= 1000,
            i <= intervals@.len(),
            matches == matching_count(intervals@, signature@, i as int),
            matches <= i,
        decreases intervals@.len() - i,
    {
        let sig_val = signature[i];
        let lower = sig_val - sig_val / 5;
        let upper = sig_val + sig_val / 5;
        let interval = intervals[i];
        if interval >= lower && interval <= upper {
            matches = matches + 1;
        }
        i = i + 1;
    }
    (matches, intervals.len() as u64)
}

/// High-resolution timer for precise timing measurements.
#[derive(Debug)]
pub struct HighResTimer {
    start: Option<Instant>,
}

impl HighResTimer {
    /// The timer was started and not reset since.
    pub closed spec fn is_running(&self) -> bool {
        self.start is Some
    }

    /// A timer that is not running.
    pub fn new() -> (t: Self)
        ensures
            !t.is_running(),
    {
        HighResTimer { start: None }
    }

    /// Starts the timer.
    pub fn start(&mut self)
        ensures
            final(self).is_running(),
    {
        self.start = Some(instant_now());
    }

    /// The nanoseconds since the timer started; 0 when it is not running.
    pub fn stop(&self) -> (n: u64)
        ensures
            !self.is_running() ==> n == 0,
    {
        match &self.start {
            Some(start) => nanos_since(start),
            None => 0,
        }
    }

    /// The time since the timer started as a timestamp.
    pub fn stop_timestamp(&self) -> (t: MicroTimestamp)
        ensures
            !self.is_running() ==> t.nanos == 0,
    {
        MicroTimestamp::from_nanos(self.stop())
    }

    /// Stops the timer.
    pub fn reset(&mut self)
        ensures
            !final(self).is_running(),
    {
        self.start = None;
    }
}

impl Default for HighResTimer {
    fn default() -> (t: Self)
        ensures
            !t.is_running(),
    {
        HighResTimer::new()
    }
}

/// The distance between two timestamps does not depend on their order.
pub proof fn law_diff_is_symmetric(a: MicroTimestamp, b: MicroTimestamp)
    ensures
        micros_between(a, b) == micros_between(b, a),
{
}

} // verus!

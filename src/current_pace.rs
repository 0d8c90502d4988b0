//! The current pace of an attempt: the final time it is heading for if it
//! keeps to a comparison for the rest of the run, and the wall-clock time at
//! which it would then end.

use vstd::prelude::*;
use crate::model::{AtomicDateTime, DateTime, Run, Time, TimeSpan};

verus! {

/// The phase the timer is in.
#[derive(Debug, Clone, Copy, PartialEq, Eq, Structural)]
pub enum TimerPhase {
    NotRunning,
    Running,
    Ended,
    Paused,
}

/// Which of a time's two readings is used.
#[derive(Debug, Clone, Copy, PartialEq, Eq, Structural)]
pub enum TimingMethod {
    RealTime,
    GameTime,
}

/// What the pace calculation reads of a timer at one moment.
#[derive(Debug, Clone)]
pub struct Snapshot {
    pub run: Run,
    pub phase: TimerPhase,
    pub timing_method: TimingMethod,
    /// The segment being run, while an attempt is running or paused.
    pub current_split_index: usize,
    /// The split times of the current attempt, one per segment.
    pub split_times: Vec<Time>,
    /// The time the current attempt has taken so far.
    pub current_time: Time,
    /// When the current attempt started.
    pub start_time: Option<AtomicDateTime>,
    /// How long the current attempt has been paused.
    pub pause_time: Option<TimeSpan>,
}

impl Snapshot {
    /// One split time per segment, at least one segment, and while an
    /// attempt runs the current split index names one of them.
    pub open spec fn wf(&self) -> bool {
        &&& self.run.segments@.len() > 0
        &&& self.split_times@.len() == self.run.segments@.len()
        &&& (self.phase == TimerPhase::Running || self.phase == TimerPhase::Paused)
            ==> self.current_split_index < self.run.segments@.len()
    }
}

/// The reading of `t` that `m` picks.
pub open spec fn reading(t: Time, m: TimingMethod) -> Option<TimeSpan> {
    match m {
        TimingMethod::RealTime => t.real_time,
        TimingMethod::GameTime => t.game_time,
    }
}

pub fn reading_of(t: Time, m: TimingMethod) -> (r: Option<TimeSpan>)
    ensures
        r == reading(t, m),
{
    match m {
        TimingMethod::RealTime => t.real_time,
        TimingMethod::GameTime => t.game_time,
    }
}

/// The time the comparison named `c` gives a segment of `run`.
pub open spec fn comparison_time(run: Run, i: int, c: Seq<char>) -> Time {
    let cs = run.segments@[i].comparisons@;
    if exists|j: int| 0 <= j < cs.len() && cs[j].name@ == c {
        cs[choose|j: int| 0 <= j < cs.len() && cs[j].name@ == c].time
    } else {
        Time { real_time: None, game_time: None }
    }
}

/// Looks up the comparison named `c` of segment `i`.
fn comparison_of(run: &Run, i: usize, c: &str) -> (r: Time)
    requires
        i < run.segments@.len(),
        run.segments@[i as int].wf(),
    ensures
        r == comparison_time(*run, i as int, c@),
{
    let cs = &run.segments[i].comparisons;
    let name = String::from_str(c);
    let mut j: usize = 0;
    while j < cs.len()
        invariant
            cs@ == run.segments@[i as int].comparisons@,
            run.segments@[i as int].wf(),
            name@ == c@,
            j <= cs@.len(),
            forall|k: int| 0 <= k < j ==> cs@[k].name@ != c@,
        decreases cs.len() - j,
    {
        if cs[j].name == name {
            proof {
                let w = choose|k: int| 0 <= k < cs@.len() && cs@[k].name@ == c@;
                assert(crate::model::comparison_names(cs@)[w] == crate::model::comparison_names(
                    cs@,
                )[j as int]);
                if w != j {
                    assert(crate::model::names_unique(crate::model::comparison_names(cs@)));
                    if w < j {
                        assert(false);
                    } else {
                        assert(crate::model::comparison_names(cs@)[j as int]
                            != crate::model::comparison_names(cs@)[w]);
                    }
                }
            }
            return cs[j].time;
        }
        j = j + 1;
    }
    Time { real_time: None, game_time: None }
}

/// A span of `v` nanoseconds, where one can hold it.
pub open spec fn span_of(v: int) -> Option<TimeSpan> {
    if i64::MIN <= v <= i64::MAX {
        Some(TimeSpan { nanos: v as i64 })
    } else {
        None
    }
}

fn span_diff(a: TimeSpan, b: TimeSpan) -> (r: Option<TimeSpan>)
    ensures
        r == span_of(a.nanos - b.nanos),
{
    let v = a.nanos as i128 - b.nanos as i128;
    if v < i64::MIN as i128 || v > i64::MAX as i128 {
        None
    } else {
        Some(TimeSpan { nanos: v as i64 })
    }
}

fn span_sum(a: TimeSpan, b: TimeSpan) -> (r: Option<TimeSpan>)
    ensures
        r == span_of(a.nanos + b.nanos),
{
    let v = a.nanos as i128 + b.nanos as i128;
    if v < i64::MIN as i128 || v > i64::MAX as i128 {
        None
    } else {
        Some(TimeSpan { nanos: v as i64 })
    }
}

/// How far ahead or behind the comparison the last segment before `n` that
/// has both a split time and a comparison time finished.
pub open spec fn last_delta_spec(t: Snapshot, n: int, c: Seq<char>) -> Option<TimeSpan>
    decreases n,
{
    if n <= 0 {
        None
    } else {
        match (
            reading(comparison_time(t.run, n - 1, c), t.timing_method),
            reading(t.split_times@[n - 1], t.timing_method),
        ) {
            (Some(cmp), Some(split)) => span_of(split.nanos - cmp.nanos),
            _ => last_delta_spec(t, n - 1, c),
        }
    }
}

fn last_delta(t: &Snapshot, n: usize, c: &str) -> (r: Option<TimeSpan>)
    requires
        t.wf(),
        n <= t.run.segments@.len(),
        t.run.wf(),
    ensures
        r == last_delta_spec(*t, n as int, c@),
{
    let mut k: usize = n;
    while k > 0
        invariant
            t.wf(),
            t.run.wf(),
            k <= n <= t.run.segments@.len(),
            last_delta_spec(*t, n as int, c@) == last_delta_spec(*t, k as int, c@),
        decreases k,
    {
        let cmp = reading_of(comparison_of(&t.run, k - 1, c), t.timing_method);
        let split = reading_of(t.split_times[k - 1], t.timing_method);
        if let (Some(cv), Some(sv)) = (cmp, split) {
            return span_diff(sv, cv);
        }
        k = k - 1;
    }
    None
}

/// The pace while an attempt runs: the comparison's final time plus how far
/// ahead or behind the attempt is, where the live time of the current
/// segment counts once it is further behind than the last split; and whether
/// the value moves with the live time.
pub open spec fn running_pace(t: Snapshot, c: Seq<char>) -> (Option<TimeSpan>, bool) {
    let m = t.timing_method;
    let last = t.run.segments@.len() - 1;
    let delta = match last_delta_spec(t, t.current_split_index as int, c) {
        Some(d) => d,
        None => TimeSpan { nanos: 0 },
    };
    let live = match (
        reading(t.current_time, m),
        reading(comparison_time(t.run, t.current_split_index as int, c), m),
    ) {
        (Some(now), Some(cmp)) => span_of(now.nanos - cmp.nanos),
        _ => None,
    };
    let (delta, is_live) = match live {
        Some(l) => if l.nanos > delta.nanos {
            (l, true)
        } else {
            (delta, false)
        },
        None => (delta, false),
    };
    let value = match reading(comparison_time(t.run, last, c), m) {
        Some(f) => span_of(f.nanos + delta.nanos),
        None => None,
    };
    (value, is_live && t.phase == TimerPhase::Running && value is Some)
}

/// The current pace of the timer's attempt against comparison `c`, and
/// whether it changes from moment to moment.
pub open spec fn pace_spec(t: Snapshot, c: Seq<char>) -> (Option<TimeSpan>, bool) {
    let last = t.run.segments@.len() - 1;
    match t.phase {
        TimerPhase::Running | TimerPhase::Paused => running_pace(t, c),
        TimerPhase::Ended => (reading(t.split_times@[last], t.timing_method), false),
        TimerPhase::NotRunning => (
            reading(comparison_time(t.run, last, c), t.timing_method),
            false,
        ),
    }
}

/// Calculates the current pace of the active attempt against the comparison
/// named `comparison`. With no attempt running, the comparison's final time is
/// the pace; after one ended, its final split time is. A sum or difference
/// beyond what a time span holds gives no value.
pub fn calculate(timer: &Snapshot, comparison: &str) -> (r: (Option<TimeSpan>, bool))
    requires
        timer.wf(),
        timer.run.wf(),
    ensures
        r == pace_spec(*timer, comparison@),
{
    let m = timer.timing_method;
    let last = timer.run.segments.len() - 1;
    match timer.phase {
        TimerPhase::Running | TimerPhase::Paused => {
            let idx = timer.current_split_index;
            let mut delta = match last_delta(timer, idx, comparison) {
                Some(d) => d,
                None => TimeSpan { nanos: 0 },
            };
            let mut is_live = false;
            let now = reading_of(timer.current_time, m);
            let cmp = reading_of(comparison_of(&timer.run, idx, comparison), m);
            if let (Some(n), Some(c)) = (now, cmp) {
                if let Some(l) = span_diff(n, c) {
                    if l.nanos > delta.nanos {
                        delta = l;
                        is_live = true;
                    }
                }
            }
            let value = match reading_of(comparison_of(&timer.run, last, comparison), m) {
                Some(f) => span_sum(f, delta),
                None => None,
            };
            let running = match timer.phase {
                TimerPhase::Running => true,
                _ => false,
            };
            (value, is_live && running && value.is_some())
        },
        TimerPhase::Ended => (reading_of(timer.split_times[last], m), false),
        TimerPhase::NotRunning => (
            reading_of(comparison_of(&timer.run, last, comparison), m),
            false,
        ),
    }
}

/// Relies on chrono's Utc::now: the present time, which nothing here can
/// predict.
#[verifier::external_body]
fn now_nanos() -> (r: i128) {
    let now = chrono::Utc::now();
    now.timestamp() as i128 * 1_000_000_000 + now.timestamp_subsec_nanos() as i128
}

/// The moment an attempt started at `start`, paused for `pause`, ends if it
/// finishes at `pace`.
pub open spec fn finish_spec(start: AtomicDateTime, pace: TimeSpan, pause: TimeSpan) -> AtomicDateTime {
    AtomicDateTime {
        time: DateTime { nanos: (start.time.nanos + pace.nanos + pause.nanos) as i128 },
        synced_with_atomic_clock: start.synced_with_atomic_clock,
    }
}

/// Where `finish_spec` can be held.
pub open spec fn finish_fits(start: AtomicDateTime, pace: TimeSpan, pause: TimeSpan) -> bool {
    i128::MIN <= start.time.nanos + pace.nanos + pause.nanos <= i128::MAX
}

/// The predicted end of the active attempt when the time now is `now`: its
/// start (`now` if it has not started), plus the pace, plus the time spent
/// paused. With no pace, or a moment beyond what can be held, there is no
/// prediction; with one, it is reported as changing from moment to moment.
pub open spec fn prediction(t: Snapshot, c: Seq<char>, now: i128) -> (Option<AtomicDateTime>, bool) {
    match pace_spec(t, c).0 {
        None => (None, false),
        Some(cp) => {
            let start = match t.start_time {
                Some(s) => s,
                None => AtomicDateTime {
                    time: DateTime { nanos: now },
                    synced_with_atomic_clock: false,
                },
            };
            let pause = match t.pause_time {
                Some(p) => p,
                None => TimeSpan { nanos: 0 },
            };
            if finish_fits(start, cp, pause) {
                (Some(finish_spec(start, cp, pause)), true)
            } else {
                (None, false)
            }
        },
    }
}

/// Predicts the wall-clock end of the active attempt, taking `now` as the
/// present time.
pub fn predict_at(timer: &Snapshot, comparison: &str, now: i128) -> (r: (
    Option<AtomicDateTime>,
    bool,
))
    requires
        timer.wf(),
        timer.run.wf(),
    ensures
        r == prediction(*timer, comparison@, now),
{
    if let (Some(cp), _) = calculate(timer, comparison) {
        let start = match timer.start_time {
            Some(s) => s,
            None => AtomicDateTime { time: DateTime { nanos: now }, synced_with_atomic_clock: false },
        };
        let pause = match timer.pause_time {
            Some(p) => p,
            None => TimeSpan::zero(),
        };
        let span = cp.nanos as i128 + pause.nanos as i128;
        match start.time.nanos.checked_add(span) {
            Some(b) => (
                Some(
                    AtomicDateTime {
                        time: DateTime { nanos: b },
                        synced_with_atomic_clock: start.synced_with_atomic_clock,
                    },
                ),
                true,
            ),
            None => (None, false),
        }
    } else {
        (None, false)
    }
}

/// Predicts the wall-clock time at which the active attempt ends at its
/// current pace. An attempt that has not started is taken to start now.
pub fn predict_wall_clock_time(timer: &Snapshot, comparison: &str) -> (r: (
    Option<AtomicDateTime>,
    bool,
))
    requires
        timer.wf(),
        timer.run.wf(),
    ensures
        timer.start_time is Some ==> r == prediction(*timer, comparison@, 0),
        exists|now: i128| r == prediction(*timer, comparison@, now),
{
    if timer.start_time.is_some() {
        predict_at(timer, comparison, 0)
    } else {
        predict_at(timer, comparison, now_nanos())
    }
}

} // verus!

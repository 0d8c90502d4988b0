use splits_parser::current_pace;
use splits_parser::current_pace::{calculate, Snapshot, TimerPhase, TimingMethod};
use splits_parser::model::{AtomicDateTime, Comparison, DateTime, Run, Segment, Time, TimeSpan};

const COMPARISON: &str = "Best Segments";

fn seconds(s: i64) -> TimeSpan {
    TimeSpan { nanos: s * 1_000_000_000 }
}

fn started_timer(split_seconds: &[i64], start: AtomicDateTime) -> Snapshot {
    let mut run = Run::new();
    for (i, s) in split_seconds.iter().enumerate() {
        let mut seg = Segment::new();
        seg.name = format!("S{}", i);
        seg.comparisons.push(Comparison {
            name: COMPARISON.to_string(),
            time: Time { real_time: Some(seconds(*s)), game_time: None },
        });
        run.segments.push(seg);
    }
    Snapshot {
        split_times: vec![Time::new(); run.segments.len()],
        run,
        phase: TimerPhase::Running,
        timing_method: TimingMethod::RealTime,
        current_split_index: 0,
        current_time: Time { real_time: Some(TimeSpan::zero()), game_time: None },
        start_time: Some(start),
        pause_time: None,
    }
}

#[test]
fn predict_wall_clock_time() {
    let start = AtomicDateTime {
        time: DateTime { nanos: 1_600_000_000_000_000_000 },
        synced_with_atomic_clock: false,
    };
    let timer = started_timer(&[60], start);

    let (current_pace, _) = calculate(&timer, COMPARISON);
    let (predicted_time, uf1) = current_pace::predict_wall_clock_time(&timer, COMPARISON);

    let finish = start.time.nanos + current_pace.unwrap().nanos as i128;

    assert_eq!(uf1, true);
    assert_eq!(finish, predicted_time.unwrap().time.nanos);
    assert_eq!(current_pace, Some(seconds(60)));
}

#[test]
fn pace_adds_pause_time_to_prediction() {
    let start = AtomicDateTime { time: DateTime { nanos: 0 }, synced_with_atomic_clock: true };
    let mut timer = started_timer(&[60], start);
    timer.phase = TimerPhase::Paused;
    timer.pause_time = Some(seconds(5));
    let (p, uf) = current_pace::predict_wall_clock_time(&timer, COMPARISON);
    assert!(uf);
    let p = p.unwrap();
    assert_eq!(p.time.nanos, 65_000_000_000);
    assert!(p.synced_with_atomic_clock);
}

#[test]
fn pace_not_running_is_comparison_final_time() {
    let start = AtomicDateTime { time: DateTime { nanos: 0 }, synced_with_atomic_clock: false };
    let mut timer = started_timer(&[30, 90], start);
    timer.phase = TimerPhase::NotRunning;
    assert_eq!(calculate(&timer, COMPARISON), (Some(seconds(90)), false));
    assert_eq!(calculate(&timer, "Other"), (None, false));
    assert_eq!(current_pace::predict_wall_clock_time(&timer, "Other"), (None, false));
}

#[test]
fn pace_ended_is_final_split_time() {
    let start = AtomicDateTime { time: DateTime { nanos: 0 }, synced_with_atomic_clock: false };
    let mut timer = started_timer(&[30, 90], start);
    timer.phase = TimerPhase::Ended;
    timer.split_times[1] = Time { real_time: Some(seconds(95)), game_time: None };
    assert_eq!(calculate(&timer, COMPARISON), (Some(seconds(95)), false));
}

#[test]
fn pace_uses_last_split_delta_and_live_delta() {
    let start = AtomicDateTime { time: DateTime { nanos: 0 }, synced_with_atomic_clock: false };
    let mut timer = started_timer(&[30, 60, 90], start);
    // First split was 5 s behind the comparison.
    timer.split_times[0] = Time { real_time: Some(seconds(35)), game_time: None };
    timer.current_split_index = 1;
    timer.current_time = Time { real_time: Some(seconds(40)), game_time: None };
    assert_eq!(calculate(&timer, COMPARISON), (Some(seconds(95)), false));
    // Now the live segment is 10 s behind: the live delta wins.
    timer.current_time = Time { real_time: Some(seconds(70)), game_time: None };
    assert_eq!(calculate(&timer, COMPARISON), (Some(seconds(100)), true));
}

#[test]
fn unstarted_attempt_is_predicted_from_the_given_clock() {
    let start = AtomicDateTime { time: DateTime { nanos: 0 }, synced_with_atomic_clock: true };
    let mut timer = started_timer(&[60], start);
    timer.start_time = None;
    let (p, uf) = current_pace::predict_at(&timer, COMPARISON, 1_000);
    assert!(uf);
    let p = p.unwrap();
    assert_eq!(p.time.nanos, 60_000_001_000);
    assert!(!p.synced_with_atomic_clock);
    let (q, uf) = current_pace::predict_wall_clock_time(&timer, COMPARISON);
    assert!(uf && q.is_some());
}

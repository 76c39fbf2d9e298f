use step_sequencer::clock::{clamp_tempo, tick_interval, Clock};

#[test]
fn clock_interval_formula() {
    assert_eq!(tick_interval(120), 125);
    assert_eq!(tick_interval(60), 250);
    assert_eq!(tick_interval(20), 750);
    assert_eq!(tick_interval(999), 15);
    assert_eq!(tick_interval(140), 107);
    assert_eq!(tick_interval(121), 123);
}

#[test]
fn clock_tempo_is_clamped() {
    assert_eq!(clamp_tempo(0), 20);
    assert_eq!(clamp_tempo(19), 20);
    assert_eq!(clamp_tempo(20), 20);
    assert_eq!(clamp_tempo(500), 500);
    assert_eq!(clamp_tempo(999), 999);
    assert_eq!(clamp_tempo(1000), 999);
    assert_eq!(clamp_tempo(usize::MAX), 999);
    let mut clock = Clock::new();
    clock.set_bpm(5);
    assert_eq!(clock.bpm(), 20);
    clock.set_bpm(100_000);
    assert_eq!(clock.bpm(), 999);
}

#[test]
fn clock_starts_suspended_at_120() {
    let mut clock = Clock::new();
    assert_eq!(clock.bpm(), 120);
    assert_eq!(clock.interval(), 125);
    assert!(!clock.is_running());
    assert_eq!(clock.next_deadline(), None);
    assert!(!clock.is_due(1_000_000));
    assert!(!clock.poll(1_000_000));
    assert!(!clock.is_running());
}

#[test]
fn clock_ticks_on_absolute_deadlines() {
    let mut clock = Clock::new();
    clock.start(1000);
    assert!(clock.is_running());
    assert_eq!(clock.next_deadline(), Some(1125));
    assert!(!clock.poll(1000));
    assert!(!clock.poll(1124));
    assert!(clock.poll(1125));
    assert_eq!(clock.next_deadline(), Some(1250));
    assert!(!clock.poll(1125));
    assert!(!clock.poll(1249));
    // A poll that comes 20 ms late does not shift the schedule.
    assert!(clock.poll(1270));
    assert_eq!(clock.next_deadline(), Some(1375));
    assert!(clock.poll(1375));
    assert_eq!(clock.next_deadline(), Some(1500));
}

#[test]
fn clock_late_tick_is_coalesced() {
    let mut clock = Clock::new();
    clock.start(0);
    // Three deadlines (125, 250, 375) have passed at 400: one tick fires.
    assert!(clock.poll(400));
    assert!(!clock.poll(400));
    assert_eq!(clock.next_deadline(), Some(500));
    assert!(!clock.poll(499));
    assert!(clock.poll(500));
}

#[test]
fn clock_bpm_change_spares_the_tick_in_flight() {
    let mut clock = Clock::new();
    clock.start(0);
    assert!(clock.poll(125));
    assert_eq!(clock.next_deadline(), Some(250));
    clock.set_bpm(60);
    assert_eq!(clock.bpm(), 60);
    // The tick in flight keeps its deadline.
    assert_eq!(clock.interval(), 125);
    assert_eq!(clock.next_deadline(), Some(250));
    assert!(!clock.poll(249));
    assert!(clock.poll(250));
    // Later ticks follow the new tempo, anchored at the last boundary.
    assert_eq!(clock.interval(), 250);
    assert_eq!(clock.next_deadline(), Some(500));
    assert!(!clock.poll(375));
    assert!(clock.poll(500));
    assert_eq!(clock.next_deadline(), Some(750));
}

#[test]
fn clock_faster_tempo_takes_effect_at_the_boundary() {
    let mut clock = Clock::new();
    clock.start(0);
    clock.set_bpm(240);
    assert_eq!(clock.next_deadline(), Some(125));
    assert!(clock.poll(130));
    assert_eq!(clock.interval(), 62);
    assert_eq!(clock.next_deadline(), Some(187));
}

#[test]
fn clock_resume_anchors_afresh() {
    let mut clock = Clock::new();
    clock.start(0);
    assert!(clock.poll(125));
    clock.suspend();
    assert!(!clock.is_running());
    assert_eq!(clock.next_deadline(), None);
    assert!(!clock.poll(10_000));
    clock.set_bpm(60);
    clock.start(10_007);
    assert_eq!(clock.next_deadline(), Some(10_257));
    assert!(!clock.poll(10_256));
    assert!(clock.poll(10_257));
}

#[test]
fn clock_at_the_end_of_time() {
    let mut clock = Clock::new();
    clock.start(u64::MAX - 10);
    assert_eq!(clock.next_deadline(), None);
    assert!(!clock.is_due(u64::MAX));
    assert!(!clock.poll(u64::MAX));
    let mut clock = Clock::new();
    clock.start(u64::MAX - 125);
    assert_eq!(clock.next_deadline(), Some(u64::MAX));
    assert!(clock.poll(u64::MAX));
    assert_eq!(clock.next_deadline(), None);
}

#[test]
fn clock_time_that_runs_backwards_fires_nothing() {
    let mut clock = Clock::new();
    clock.start(5000);
    assert!(!clock.poll(0));
    assert!(!clock.poll(4999));
    assert_eq!(clock.next_deadline(), Some(5125));
}

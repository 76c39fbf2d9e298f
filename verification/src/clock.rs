//! The playback clock: a deadline for each tick, derived from the tempo.

use vstd::prelude::*;

verus! {

/// The slowest tempo, in beats per minute.
pub const MIN_BPM: usize = 20;

/// The fastest tempo, in beats per minute.
pub const MAX_BPM: usize = 999;

/// The tempo of a new clock, in beats per minute.
pub const DEFAULT_BPM: usize = 120;

/// The number of steps in a beat.
pub const STEPS_PER_BEAT: u64 = 4;

/// The number of milliseconds in a minute.
pub const MS_PER_MINUTE: u64 = 60000;

/// Whether a tempo lies within the bounds of the clock.
pub open spec fn valid_bpm(bpm: nat) -> bool {
    20 <= bpm <= 999
}

/// The tempo nearest to `bpm` within the bounds of the clock.
pub open spec fn clamp_bpm(bpm: nat) -> nat {
    if bpm < 20 {
        20
    } else if bpm > 999 {
        999
    } else {
        bpm
    }
}

/// The time between two ticks at a tempo, in milliseconds: a minute divided
/// among the steps of its beats.
pub open spec fn interval_ms(bpm: nat) -> nat {
    (60000int / ((bpm * 4) as int)) as nat
}

/// A clock as a mathematical value. `anchor` is the most recent tick
/// boundary, `interval` the time from it to the next tick, `bpm` the tempo
/// that every later interval is derived from.
pub struct ClockView {
    pub running: bool,
    pub anchor: nat,
    pub interval: nat,
    pub bpm: nat,
}

impl ClockView {
    /// The clock before playback: suspended, at 120 beats per minute.
    pub open spec fn initial() -> ClockView {
        ClockView { running: false, anchor: 0, interval: interval_ms(120), bpm: 120 }
    }

    /// The tempo is within bounds, the pending interval is that of some
    /// tempo within bounds, and the anchor is a time that the machine can
    /// represent.
    pub open spec fn wf(self) -> bool {
        &&& valid_bpm(self.bpm)
        &&& 15 <= self.interval <= 750
        &&& self.anchor <= u64::MAX
    }

    /// When the pending tick is due.
    pub open spec fn deadline(self) -> nat {
        self.anchor + self.interval
    }

    /// Whether a tick is due at `now`.
    pub open spec fn due(self, now: nat) -> bool {
        self.running && now >= self.deadline()
    }

    /// The latest boundary of the pending schedule that is not after `now`.
    pub open spec fn boundary(self, now: nat) -> nat {
        (now - (now - self.anchor) % (self.interval as int)) as nat
    }

    /// The clock at another tempo: the pending tick keeps its deadline.
    pub open spec fn set_bpm(self, bpm: nat) -> ClockView {
        ClockView { bpm: clamp_bpm(bpm), ..self }
    }

    /// The clock started at `now`: the schedule is anchored there.
    pub open spec fn start(self, now: nat) -> ClockView {
        ClockView { running: true, anchor: now, interval: interval_ms(self.bpm), bpm: self.bpm }
    }

    /// The suspended clock.
    pub open spec fn suspend(self) -> ClockView {
        ClockView { running: false, ..self }
    }

    /// The clock after the tick that is due at `now` has fired: anchored at
    /// the boundary reached, with the interval of the present tempo.
    pub open spec fn fire(self, now: nat) -> ClockView {
        ClockView {
            running: true,
            anchor: self.boundary(now),
            interval: interval_ms(self.bpm),
            bpm: self.bpm,
        }
    }

    /// The clock after it is asked at `now` whether a tick is due.
    pub open spec fn poll(self, now: nat) -> ClockView {
        if self.due(now) {
            self.fire(now)
        } else {
            self
        }
    }
}

/// A tempo within bounds gives an interval from 15 to 750 milliseconds.
pub proof fn lemma_interval_bounds(bpm: nat)
    requires
        valid_bpm(bpm),
    ensures
        15 <= interval_ms(bpm) <= 750,
{
    let b = bpm as int;
    assert(15 <= 60000int / (b * 4) <= 750) by (nonlinear_arith)
        requires
            20 <= b <= 999,
    ;
}

/// The boundary that a due tick reaches lies on the pending schedule, at or
/// after the deadline and less than one interval before `now`.
pub proof fn lemma_boundary(clock: ClockView, now: nat)
    requires
        clock.wf(),
        now >= clock.deadline(),
    ensures
        clock.deadline() <= clock.boundary(now) <= now,
        now < clock.boundary(now) + clock.interval,
        (clock.boundary(now) - clock.anchor) % (clock.interval as int) == 0,
{
    let e = now - clock.anchor;
    let d = clock.interval as int;
    assert(0 <= e % d < d && e - e % d >= d && (e - e % d) % d == 0)
        by (nonlinear_arith)
        requires
            e >= d,
            d > 0,
    ;
}

/// The tempo-driven scheduler of ticks. It holds no timer: the caller tells
/// it the time and waits until the deadline it names.
#[derive(Debug)]
pub struct Clock {
    running: bool,
    anchor: u64,
    interval: u64,
    bpm: usize,
}

impl View for Clock {
    type V = ClockView;

    closed spec fn view(&self) -> ClockView {
        ClockView {
            running: self.running,
            anchor: self.anchor as nat,
            interval: self.interval as nat,
            bpm: self.bpm as nat,
        }
    }
}

/// Computes the time between two ticks at a tempo.
pub fn tick_interval(bpm: usize) -> (ms: u64)
    requires
        bpm > 0,
    ensures
        ms == interval_ms(bpm as nat),
{
    if bpm > 15000 {
        assert(60000int / ((bpm * 4) as int) == 0) by (nonlinear_arith)
            requires
                bpm > 15000,
        ;
        0
    } else {
        MS_PER_MINUTE / (bpm as u64 * STEPS_PER_BEAT)
    }
}

/// Brings a tempo within the bounds of the clock.
pub fn clamp_tempo(bpm: usize) -> (clamped: usize)
    ensures
        clamped == clamp_bpm(bpm as nat),
{
    if bpm < MIN_BPM {
        MIN_BPM
    } else if bpm > MAX_BPM {
        MAX_BPM
    } else {
        bpm
    }
}

impl Clock {
    /// The invariant of the clock.
    pub open spec fn wf(&self) -> bool {
        self@.wf()
    }

    /// A suspended clock at 120 beats per minute.
    pub fn new() -> (clock: Self)
        ensures
            clock.wf(),
            clock@ == ClockView::initial(),
    {
        proof {
            lemma_interval_bounds(120);
        }
        Clock { running: false, anchor: 0, interval: tick_interval(DEFAULT_BPM), bpm: DEFAULT_BPM }
    }

    /// The tempo in beats per minute.
    pub fn bpm(&self) -> (bpm: usize)
        ensures
            bpm == self@.bpm,
    {
        self.bpm
    }

    /// Whether the clock is ticking.
    pub fn is_running(&self) -> (running: bool)
        ensures
            running == self@.running,
    {
        self.running
    }

    /// The time from the last boundary to the pending tick, in milliseconds.
    pub fn interval(&self) -> (ms: u64)
        ensures
            ms == self@.interval,
    {
        self.interval
    }

    /// The deadline of the pending tick, for the caller to wait until: none
    /// while the clock is suspended or when the deadline is past the end of
    /// time.
    pub fn next_deadline(&self) -> (deadline: Option<u64>)
        requires
            self.wf(),
        ensures
            deadline == if self@.running && self@.deadline() <= u64::MAX {
                Some(self@.deadline() as u64)
            } else {
                None
            },
    {
        if self.running && self.interval <= u64::MAX - self.anchor {
            Some(self.anchor + self.interval)
        } else {
            None
        }
    }

    /// Sets the tempo, brought within bounds. The pending tick keeps its
    /// deadline; the intervals after it follow the new tempo.
    pub fn set_bpm(&mut self, bpm: usize)
        requires
            old(self).wf(),
        ensures
            final(self).wf(),
            final(self)@ == old(self)@.set_bpm(bpm as nat),
            final(self)@.deadline() == old(self)@.deadline(),
            final(self)@.running == old(self)@.running,
    {
        self.bpm = clamp_tempo(bpm);
    }

    /// Starts ticking on a schedule anchored at `now`.
    pub fn start(&mut self, now: u64)
        requires
            old(self).wf(),
        ensures
            final(self).wf(),
            final(self)@ == old(self)@.start(now as nat),
    {
        proof {
            lemma_interval_bounds(self.bpm as nat);
        }
        self.running = true;
        self.anchor = now;
        self.interval = tick_interval(self.bpm);
    }

    /// Stops ticking.
    pub fn suspend(&mut self)
        requires
            old(self).wf(),
        ensures
            final(self).wf(),
            final(self)@ == old(self)@.suspend(),
    {
        self.running = false;
    }

    /// Whether a tick is due at `now`.
    pub fn is_due(&self, now: u64) -> (due: bool)
        requires
            self.wf(),
        ensures
            due == self@.due(now as nat),
    {
        self.running && now >= self.anchor && now - self.anchor >= self.interval
    }

    /// Fires the pending tick if it is due at `now`, and says whether it
    /// did. One call fires one tick however late it comes: the boundaries
    /// missed in between are passed over, and the schedule stays on its grid.
    pub fn poll(&mut self, now: u64) -> (fired: bool)
        requires
            old(self).wf(),
        ensures
            final(self).wf(),
            fired == old(self)@.due(now as nat),
            final(self)@ == old(self)@.poll(now as nat),
            fired ==> old(self)@.deadline() <= final(self)@.anchor <= now,
            fired ==> now < final(self)@.anchor + old(self)@.interval,
    {
        if !self.is_due(now) {
            return false;
        }
        proof {
            lemma_boundary(self@, now as nat);
            lemma_interval_bounds(self.bpm as nat);
        }
        let late: u64 = (now - self.anchor) % self.interval;
        self.anchor = now - late;
        self.interval = tick_interval(self.bpm);
        true
    }
}

} // verus!

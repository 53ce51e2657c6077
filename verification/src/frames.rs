use vstd::prelude::*;
use crate::time::{Duration, Instant, MAX_NANOS};

verus! {

/// Schedules redraws at a target frame rate; `last_delta_time` (how late the
/// last frame came, when that was small enough) is taken off the next wait.
#[derive(Debug)]
pub struct FrameTimer {
    pub frame_time: Duration,
    pub min_frame_time: Duration,
    pub last_delta_time: Duration,
    pub next_redraw: Instant,
}

/// What one call of `FrameTimer::next` found.
#[derive(Debug)]
pub struct FrameShift {
    pub was_next_frame: bool,
    pub delta_time: Duration,
}

impl FrameShift {
    pub fn new() -> (s: Self)
        ensures
            !s.was_next_frame,
            s.delta_time.ns() == 0,
    {
        FrameShift { was_next_frame: false, delta_time: Duration::from_millis(0) }
    }
}

/// How late `now` is for the redraw at `next` (zero when it is not late).
pub open spec fn lateness(next: nat, now: nat) -> nat {
    if next <= now { (now - next) as nat } else { 0 }
}

/// The `last_delta_time` that `next` keeps: the lateness when a redraw is due
/// and the frame time exceeds it plus the minimum frame time, else the old one.
pub open spec fn kept_delta(frame: nat, min: nat, last: nat, next: nat, now: nat) -> nat {
    if next <= now && frame > lateness(next, now) + min {
        lateness(next, now)
    } else {
        last
    }
}

/// While the kept delta stays below the frame time, each redraw that `next`
/// schedules lies after the time at which it schedules it, and the delta it keeps
/// stays below the frame time.
pub proof fn law_redraw_after_now(frame: nat, min: nat, last: nat, next: nat, now: nat)
    requires
        last < frame,
    ensures
        kept_delta(frame, min, last, next, now) < frame,
        now + frame - kept_delta(frame, min, last, next, now) > now,
{
}

/// A redraw (or tick) keeps the lateness `now - next` as the new delta only
/// where it is due and that lateness plus the minimum frame time stays below the
/// frame time; else the old delta stays.
pub proof fn law_kept_delta_only_when_short(frame: nat, min: nat, last: nat, next: nat, now: nat)
    ensures
        next <= now && now - next + min < frame ==> kept_delta(frame, min, last, next, now)
            == now - next,
        now < next ==> kept_delta(frame, min, last, next, now) == last,
        next <= now && now - next + min >= frame ==> kept_delta(frame, min, last, next, now)
            == last,
{
}

impl FrameTimer {
    /// A timer for `frame_rate` frames per second; the first redraw is due one
    /// frame time after `now`.
    pub fn from_frame_rate(frame_rate: u64, min_frame_millis: u64, now: Instant) -> (t: Self)
        requires
            frame_rate > 0,
            now.ns() + (1000000int / frame_rate as int) * 1000 <= MAX_NANOS,
        ensures
            t.frame_time.ns() == (1000000int / frame_rate as int) * 1000,
            t.min_frame_time.ns() == min_frame_millis * 1000000,
            t.last_delta_time.ns() == 0,
            t.next_redraw.ns() == now.ns() + t.frame_time.ns(),
    {
        let frame_time = Duration::from_micros(1_000_000 / frame_rate);
        FrameTimer {
            frame_time,
            min_frame_time: Duration::from_millis(min_frame_millis),
            last_delta_time: Duration::from_micros(0),
            next_redraw: now.add(frame_time),
        }
    }

    /// Whether the redraw is due at `now`.
    pub fn needs_redraw(&self, now: Instant) -> (b: bool)
        ensures
            b == (self.next_redraw.ns() <= now.ns()),
    {
        self.next_redraw.le(&now)
    }

    /// Advances the timer at `now`: reports whether a redraw was due and how late
    /// it came, and schedules the next redraw at `now` plus the frame time minus
    /// the kept delta.
    pub fn next(&mut self, now: Instant) -> (shift: FrameShift)
        requires
            lateness(old(self).next_redraw.ns(), now.ns()) + old(self).min_frame_time.ns()
                <= MAX_NANOS,
            now.ns() + old(self).frame_time.ns() <= MAX_NANOS,
            kept_delta(
                old(self).frame_time.ns(),
                old(self).min_frame_time.ns(),
                old(self).last_delta_time.ns(),
                old(self).next_redraw.ns(),
                now.ns(),
            ) <= now.ns() + old(self).frame_time.ns(),
        ensures
            shift.was_next_frame == (old(self).next_redraw.ns() <= now.ns()),
            shift.delta_time.ns() == lateness(old(self).next_redraw.ns(), now.ns()),
            final(self).frame_time == old(self).frame_time,
            final(self).min_frame_time == old(self).min_frame_time,
            final(self).last_delta_time.ns() == kept_delta(
                old(self).frame_time.ns(),
                old(self).min_frame_time.ns(),
                old(self).last_delta_time.ns(),
                old(self).next_redraw.ns(),
                now.ns(),
            ),
            final(self).next_redraw.ns() == now.ns() + old(self).frame_time.ns()
                - final(self).last_delta_time.ns(),
    {
        let mut shift = FrameShift::new();
        if self.next_redraw.le(&now) {
            shift.was_next_frame = true;
            shift.delta_time = now.since(self.next_redraw);
            if self.min_frame_time.add(shift.delta_time).lt(&self.frame_time) {
                self.last_delta_time = shift.delta_time;
            }
        }
        self.next_redraw = now.add(self.frame_time).sub(self.last_delta_time);
        shift
    }
}

/// Counts frames and frame deltas over a counting period.
#[derive(Debug)]
pub struct FrameCounter {
    pub count_time: Duration,
    pub last_time: Instant,
    pub frames: u32,
    pub deltas: u32,
    pub delta_times_sum: Duration,
}

/// What a counting period gave: the frames, the time it took and the average
/// delta time. The frames per second are `frames` over `elapsed`.
#[derive(Debug)]
pub struct FrameTally {
    pub frames: u32,
    pub elapsed: Duration,
    pub average_delta_time: Duration,
}

impl FrameCounter {
    /// A counter whose periods last `count_time`, starting at `now`.
    pub fn from_count_time(count_time: Duration, now: Instant) -> (c: Self)
        ensures
            c.count_time == count_time,
            c.last_time == now,
            c.frames == 0,
            c.deltas == 0,
            c.delta_times_sum.ns() == 0,
    {
        FrameCounter {
            count_time,
            last_time: now,
            frames: 0,
            deltas: 0,
            delta_times_sum: Duration::from_micros(0),
        }
    }

    pub fn add_frame(&mut self)
        requires
            old(self).frames < u32::MAX,
        ensures
            final(self).frames == old(self).frames + 1,
            final(self).count_time == old(self).count_time,
            final(self).last_time == old(self).last_time,
            final(self).deltas == old(self).deltas,
            final(self).delta_times_sum == old(self).delta_times_sum,
    {
        self.frames = self.frames + 1;
    }

    pub fn add_delta_time(&mut self, delta_time: Duration)
        requires
            old(self).deltas < u32::MAX,
            old(self).delta_times_sum.ns() + delta_time.ns() <= MAX_NANOS,
        ensures
            final(self).delta_times_sum.ns() == old(self).delta_times_sum.ns() + delta_time.ns(),
            final(self).deltas == old(self).deltas + 1,
            final(self).count_time == old(self).count_time,
            final(self).last_time == old(self).last_time,
            final(self).frames == old(self).frames,
    {
        self.delta_times_sum = self.delta_times_sum.add(delta_time);
        self.deltas = self.deltas + 1;
    }

    /// At `now`: when the counting period is over, returns its tally and starts
    /// a new period at `now`; else returns `None` and changes nothing.
    pub fn tick(&mut self, now: Instant) -> (tally: Option<FrameTally>)
        requires
            lateness(old(self).last_time.ns(), now.ns()) >= old(self).count_time.ns()
                ==> old(self).deltas > 0,
        ensures
            ({
                let elapsed = lateness(old(self).last_time.ns(), now.ns());
                if elapsed >= old(self).count_time.ns() {
                    &&& tally matches Some(t) && {
                        &&& t.frames == old(self).frames
                        &&& t.elapsed.ns() == elapsed
                        &&& t.average_delta_time.ns() == old(self).delta_times_sum.ns()
                            / (old(self).deltas as nat)
                    }
                    &&& final(self).last_time == now
                    &&& final(self).frames == 0
                    &&& final(self).deltas == 0
                    &&& final(self).delta_times_sum.ns() == 0
                    &&& final(self).count_time == old(self).count_time
                } else {
                    &&& tally is None
                    &&& *final(self) == *old(self)
                }
            }),
    {
        let elapsed = now.since(self.last_time);
        if self.count_time.le(&elapsed) {
            proof {
                crate::time::lemma_duration_div_floor(
                    self.delta_times_sum.ns(),
                    self.deltas as nat,
                );
            }
            let tally = FrameTally {
                frames: self.frames,
                elapsed,
                average_delta_time: self.delta_times_sum.div(self.deltas),
            };
            self.last_time = now;
            self.frames = 0;
            self.deltas = 0;
            self.delta_times_sum = Duration::from_micros(0);
            Some(tally)
        } else {
            None
        }
    }
}

} // verus!

use vstd::prelude::*;
use crate::time::{Duration, Instant, MAX_NANOS};
use crate::frames::{lateness, kept_delta};

verus! {

/// Schedules ticks of a fixed duration; a small lateness of the last tick is
/// taken off the next wait.
#[derive(Debug)]
pub struct TickTimer {
    pub tick_duration: Duration,
    pub min_duration: Duration,
    pub last_delta_time: Duration,
    pub next_tick: Instant,
}

/// What one call of `TickTimer::next` found: whether the tick was due, and how
/// late it came or how long it is still away.
#[derive(Debug)]
pub struct TickShift {
    pub was_next_tick: bool,
    pub delta_time: Duration,
}

impl TickShift {
    pub fn new() -> (s: Self)
        ensures
            !s.was_next_tick,
            s.delta_time.ns() == 0,
    {
        TickShift { was_next_tick: false, delta_time: Duration::from_millis(0) }
    }
}

/// The distance between two points of time.
pub open spec fn distance(a: nat, b: nat) -> nat {
    if a <= b { (b - a) as nat } else { (a - b) as nat }
}

/// The next tick that `TickTimer::next` schedules.
pub open spec fn next_tick_after(tick: nat, last: nat, now: nat) -> nat {
    if tick > last { (now + tick - last) as nat } else { now + tick }
}

/// The next tick comes one tick duration after `now`, brought forward by the
/// kept delta where that is shorter than the tick duration; and the delta a call
/// reports is how far `now` lies from the due tick, on either side.
pub proof fn law_tick_schedule(tick: nat, last: nat, now: nat, due: nat)
    ensures
        last < tick ==> next_tick_after(tick, last, now) + last == now + tick,
        tick <= last ==> next_tick_after(tick, last, now) == now + tick,
        due <= now ==> distance(due, now) + due == now,
        now <= due ==> distance(due, now) + now == due,
{
}

impl TickTimer {
    /// A timer whose first tick is due one tick duration after `now`.
    pub fn new(tick_duration: Duration, min_duration: Duration, now: Instant) -> (t: Self)
        requires
            now.ns() + tick_duration.ns() <= MAX_NANOS,
        ensures
            t.tick_duration == tick_duration,
            t.min_duration == min_duration,
            t.last_delta_time.ns() == 0,
            t.next_tick.ns() == now.ns() + tick_duration.ns(),
    {
        TickTimer {
            tick_duration,
            min_duration,
            last_delta_time: Duration::from_nanos(0),
            next_tick: now.add(tick_duration),
        }
    }

    /// Whether the tick is due at `now`.
    pub fn elapsed(&self, now: Instant) -> (b: bool)
        ensures
            b == (self.next_tick.ns() <= now.ns()),
    {
        self.next_tick.le(&now)
    }

    /// Advances the timer at `now`.
    pub fn next(&mut self, now: Instant) -> (shift: TickShift)
        requires
            lateness(old(self).next_tick.ns(), now.ns()) + old(self).min_duration.ns()
                <= MAX_NANOS,
            now.ns() + old(self).tick_duration.ns() <= MAX_NANOS,
        ensures
            shift.was_next_tick == (old(self).next_tick.ns() <= now.ns()),
            shift.delta_time.ns() == distance(old(self).next_tick.ns(), now.ns()),
            final(self).tick_duration == old(self).tick_duration,
            final(self).min_duration == old(self).min_duration,
            final(self).last_delta_time.ns() == kept_delta(
                old(self).tick_duration.ns(),
                old(self).min_duration.ns(),
                old(self).last_delta_time.ns(),
                old(self).next_tick.ns(),
                now.ns(),
            ),
            final(self).next_tick.ns() == next_tick_after(
                old(self).tick_duration.ns(),
                final(self).last_delta_time.ns(),
                now.ns(),
            ),
    {
        let mut shift = TickShift::new();
        if self.next_tick.le(&now) {
            shift.was_next_tick = true;
            shift.delta_time = now.since(self.next_tick);
            if self.min_duration.add(shift.delta_time).lt(&self.tick_duration) {
                self.last_delta_time = shift.delta_time;
            }
        } else {
            shift.delta_time = self.next_tick.since(now);
        }
        self.next_tick = now.add(self.tick_duration);
        if self.last_delta_time.lt(&self.tick_duration) {
            self.next_tick = self.next_tick.sub(self.last_delta_time);
        }
        shift
    }
}

/// Counts ticks and tick deltas over a counting period.
#[derive(Debug)]
pub struct TickCounter {
    pub count_time: Duration,
    pub last_time: Instant,
    pub ticks: u32,
    pub deltas: u32,
    pub delta_times_sum: Duration,
}

/// What a counting period gave: the ticks, the time it took and the average
/// delta time. The ticks per second are `ticks` over `elapsed`.
#[derive(Debug)]
pub struct TickTally {
    pub ticks: u32,
    pub elapsed: Duration,
    pub average_delta_time: Duration,
}

impl TickCounter {
    /// A counter whose periods last `count_time`, starting at `now`.
    pub fn new(count_time: Duration, now: Instant) -> (c: Self)
        ensures
            c.count_time == count_time,
            c.last_time == now,
            c.ticks == 0,
            c.deltas == 0,
            c.delta_times_sum.ns() == 0,
    {
        TickCounter {
            count_time,
            last_time: now,
            ticks: 0,
            deltas: 0,
            delta_times_sum: Duration::from_micros(0),
        }
    }

    pub fn add_one(&mut self)
        requires
            old(self).ticks < u32::MAX,
        ensures
            final(self).ticks == old(self).ticks + 1,
            final(self).count_time == old(self).count_time,
            final(self).last_time == old(self).last_time,
            final(self).deltas == old(self).deltas,
            final(self).delta_times_sum == old(self).delta_times_sum,
    {
        self.ticks = self.ticks + 1;
    }

    pub fn add_delta_time(&mut self, delta_time: Duration)
        requires
            old(self).deltas < u32::MAX,
            old(self).delta_times_sum.ns() + delta_time.ns() <= MAX_NANOS,
        ensures
            final(self).delta_times_sum.ns() == old(self).delta_times_sum.ns() + delta_time.ns(),
            final(self).deltas == old(self).deltas + 1,
            final(self).count_time == old(self).count_time,
            final(self).last_time == old(self).last_time,
            final(self).ticks == old(self).ticks,
    {
        self.delta_times_sum = self.delta_times_sum.add(delta_time);
        self.deltas = self.deltas + 1;
    }

    /// At `now`: when the counting period is over, returns its tally and starts
    /// a new period at `now`; else returns `None` and changes nothing.
    pub fn tick_count(&mut self, now: Instant) -> (tally: Option<TickTally>)
        requires
            lateness(old(self).last_time.ns(), now.ns()) >= old(self).count_time.ns()
                ==> old(self).deltas > 0,
        ensures
            ({
                let elapsed = lateness(old(self).last_time.ns(), now.ns());
                if elapsed >= old(self).count_time.ns() {
                    &&& tally matches Some(t) && {
                        &&& t.ticks == old(self).ticks
                        &&& t.elapsed.ns() == elapsed
                        &&& t.average_delta_time.ns() == old(self).delta_times_sum.ns()
                            / (old(self).deltas as nat)
                    }
                    &&& final(self).last_time == now
                    &&& final(self).ticks == 0
                    &&& final(self).deltas == 0
                    &&& final(self).delta_times_sum.ns() == 0
                    &&& final(self).count_time == old(self).count_time
                } else {
                    &&& tally is None
                    &&& *final(self) == *old(self)
                }
            }),
    {
        let elapsed = now.since(self.last_time);
        if self.count_time.le(&elapsed) {
            proof {
                crate::time::lemma_duration_div_floor(
                    self.delta_times_sum.ns(),
                    self.deltas as nat,
                );
            }
            let tally = TickTally {
                ticks: self.ticks,
                elapsed,
                average_delta_time: self.delta_times_sum.div(self.deltas),
            };
            self.last_time = now;
            self.ticks = 0;
            self.deltas = 0;
            self.delta_times_sum = Duration::from_micros(0);
            Some(tally)
        } else {
            None
        }
    }
}

} // verus!

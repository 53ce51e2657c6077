use wgx::frames::{FrameCounter, FrameShift, FrameTimer};
use wgx::ticks::{TickCounter, TickShift, TickTimer};
use wgx::time::{Duration, Instant};

fn ms(n: u64) -> Duration {
    Duration::from_millis(n)
}

fn at_ms(n: u128) -> Instant {
    Instant::from_nanos(n * 1_000_000)
}

#[test]
fn durations_convert_and_compare() {
    assert_eq!(Duration::from_micros(1500).as_nanos(), 1_500_000);
    assert_eq!(ms(2).as_nanos(), 2_000_000);
    assert_eq!(Duration::zero().as_nanos(), 0);
    assert!(ms(1).lt(&ms(2)));
    assert!(ms(2).le(&ms(2)));
    assert!(!ms(3).le(&ms(2)));
    assert_eq!(ms(2).add(ms(3)).as_nanos(), 5_000_000);
    assert_eq!(ms(5).sub(ms(3)).as_nanos(), 2_000_000);
}

#[test]
fn duration_division_rounds_down() {
    assert_eq!(Duration::from_nanos(10).div(3).as_nanos(), 3);
    assert_eq!(Duration::from_nanos(7_000_000_001).div(2).as_nanos(), 3_500_000_000);
    let d = Duration::from_nanos(5_999_999_999);
    assert_eq!(d.div(7).as_nanos(), 5_999_999_999 / 7);
    assert_eq!(
        std::time::Duration::from_nanos(5_999_999_999) / 7,
        std::time::Duration::from_nanos(d.div(7).as_nanos() as u64)
    );
}

#[test]
fn instants_move_by_durations() {
    let t = at_ms(10);
    assert_eq!(t.add(ms(5)).as_nanos(), 15_000_000);
    assert_eq!(t.sub(ms(4)).as_nanos(), 6_000_000);
    assert_eq!(at_ms(12).since(t).as_nanos(), 2_000_000);
    assert_eq!(t.since(at_ms(12)).as_nanos(), 0);
    assert!(t.lt(&at_ms(11)));
    assert!(t.le(&at_ms(10)));
}

#[test]
fn frame_timer_schedules_from_the_frame_rate() {
    let timer = FrameTimer::from_frame_rate(50, 2, at_ms(100));
    assert_eq!(timer.frame_time.as_nanos(), 20_000_000);
    assert_eq!(timer.min_frame_time.as_nanos(), 2_000_000);
    assert_eq!(timer.last_delta_time.as_nanos(), 0);
    assert_eq!(timer.next_redraw.as_nanos(), 120_000_000);
    assert!(!timer.needs_redraw(at_ms(119)));
    assert!(timer.needs_redraw(at_ms(120)));
}

#[test]
fn frame_timer_takes_a_small_lateness_off_the_next_wait() {
    let mut timer = FrameTimer::from_frame_rate(50, 2, at_ms(100));
    let shift = timer.next(at_ms(125));
    assert!(shift.was_next_frame);
    assert_eq!(shift.delta_time.as_nanos(), 5_000_000);
    assert_eq!(timer.last_delta_time.as_nanos(), 5_000_000);
    assert_eq!(timer.next_redraw.as_nanos(), 140_000_000);
    assert!(timer.next_redraw.as_nanos() > at_ms(125).as_nanos());
}

#[test]
fn frame_timer_keeps_the_old_delta_for_a_large_lateness() {
    let mut timer = FrameTimer::from_frame_rate(50, 2, at_ms(100));
    let shift = timer.next(at_ms(139));
    assert!(shift.was_next_frame);
    assert_eq!(shift.delta_time.as_nanos(), 19_000_000);
    assert_eq!(timer.last_delta_time.as_nanos(), 0);
    assert_eq!(timer.next_redraw.as_nanos(), 159_000_000);
}

#[test]
fn frame_timer_before_its_time() {
    let mut timer = FrameTimer::from_frame_rate(50, 2, at_ms(100));
    let shift = timer.next(at_ms(110));
    assert!(!shift.was_next_frame);
    assert_eq!(shift.delta_time.as_nanos(), 0);
    assert_eq!(timer.next_redraw.as_nanos(), 130_000_000);
    let empty = FrameShift::new();
    assert!(!empty.was_next_frame);
    assert_eq!(empty.delta_time.as_nanos(), 0);
}

#[test]
fn frame_counter_tallies_a_period() {
    let mut counter = FrameCounter::from_count_time(ms(1000), at_ms(0));
    counter.add_frame();
    counter.add_frame();
    counter.add_frame();
    counter.add_delta_time(ms(10));
    counter.add_delta_time(ms(20));
    assert!(counter.tick(at_ms(999)).is_none());
    assert_eq!(counter.frames, 3);

    let tally = counter.tick(at_ms(1500)).unwrap();
    assert_eq!(tally.frames, 3);
    assert_eq!(tally.elapsed.as_nanos(), 1_500_000_000);
    assert_eq!(tally.average_delta_time.as_nanos(), 15_000_000);
    assert_eq!(counter.frames, 0);
    assert_eq!(counter.deltas, 0);
    assert_eq!(counter.delta_times_sum.as_nanos(), 0);
    assert_eq!(counter.last_time.as_nanos(), 1_500_000_000);
}

#[test]
fn tick_timer_reports_how_far_away_the_tick_is() {
    let mut timer = TickTimer::new(ms(10), ms(1), at_ms(0));
    assert_eq!(timer.next_tick.as_nanos(), 10_000_000);
    assert!(!timer.elapsed(at_ms(9)));
    let shift = timer.next(at_ms(7));
    assert!(!shift.was_next_tick);
    assert_eq!(shift.delta_time.as_nanos(), 3_000_000);
    assert_eq!(timer.next_tick.as_nanos(), 17_000_000);

    let shift = timer.next(at_ms(19));
    assert!(shift.was_next_tick);
    assert_eq!(shift.delta_time.as_nanos(), 2_000_000);
    assert_eq!(timer.last_delta_time.as_nanos(), 2_000_000);
    assert_eq!(timer.next_tick.as_nanos(), 27_000_000);
    let empty = TickShift::new();
    assert!(!empty.was_next_tick);
}

#[test]
fn tick_counter_tallies_a_period() {
    let mut counter = TickCounter::new(ms(100), at_ms(0));
    counter.add_one();
    counter.add_one();
    counter.add_delta_time(ms(3));
    counter.add_delta_time(ms(4));
    assert!(counter.tick_count(at_ms(50)).is_none());
    let tally = counter.tick_count(at_ms(100)).unwrap();
    assert_eq!(tally.ticks, 2);
    assert_eq!(tally.elapsed.as_nanos(), 100_000_000);
    assert_eq!(tally.average_delta_time.as_nanos(), 3_500_000);
    assert_eq!(counter.ticks, 0);
}

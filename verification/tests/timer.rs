use creature_sim::game::actors::ai::{AiTimer, AI_PERIOD};
use creature_sim::game::actors::organs::{tick_timer, OrganTimer, DIGEST_PERIOD};
use creature_sim::game::timer::RepeatingTimer;
use creature_sim::game::GAME_LOOP_MILIS;

#[test]
fn named_parameters_have_their_values() {
    assert_eq!(DIGEST_PERIOD, 30);
    assert_eq!(AI_PERIOD, 30);
    assert_eq!(GAME_LOOP_MILIS, 100);
}

#[test]
fn a_fresh_timer_has_not_fired() {
    let t = RepeatingTimer::new(30);
    assert_eq!(t.period(), 30);
    assert_eq!(t.accumulated(), 0);
    assert_eq!(t.times_finished_this_tick(), 0);
    assert!(!t.finished());
}

#[test]
fn timer_fires_when_the_period_is_reached() {
    let mut t = RepeatingTimer::new(30);
    t.tick(10);
    assert!(!t.finished());
    assert_eq!(t.accumulated(), 10);
    t.tick(10);
    assert!(!t.finished());
    assert_eq!(t.accumulated(), 20);
    t.tick(10);
    assert!(t.finished());
    assert_eq!(t.times_finished_this_tick(), 1);
    assert_eq!(t.accumulated(), 0);
    t.tick(10);
    assert!(!t.finished());
    assert_eq!(t.times_finished_this_tick(), 0);
    assert_eq!(t.accumulated(), 10);
}

#[test]
fn a_long_tick_fires_once_for_each_period() {
    let mut t = RepeatingTimer::new(30);
    t.tick(65);
    assert_eq!(t.times_finished_this_tick(), 2);
    assert_eq!(t.accumulated(), 5);
    t.tick(24);
    assert_eq!(t.times_finished_this_tick(), 0);
    assert_eq!(t.accumulated(), 29);
    t.tick(1);
    assert_eq!(t.times_finished_this_tick(), 1);
    assert_eq!(t.accumulated(), 0);
    t.tick(59);
    assert_eq!(t.times_finished_this_tick(), 1);
    assert_eq!(t.accumulated(), 29);
    t.tick(0);
    assert_eq!(t.times_finished_this_tick(), 0);
    assert_eq!(t.accumulated(), 29);
}

#[test]
fn fires_add_up_to_elapsed_over_period() {
    let deltas: [u64; 12] = [1, 29, 30, 31, 59, 60, 61, 0, 7, 200, 3, 89];
    let mut t = RepeatingTimer::new(30);
    let mut elapsed: u64 = 0;
    let mut fired: u64 = 0;
    for d in deltas {
        let before = t.accumulated();
        t.tick(d);
        elapsed += d;
        fired += t.times_finished_this_tick();
        assert_eq!(fired, elapsed / 30);
        assert_eq!(t.accumulated(), elapsed % 30);
        if t.times_finished_this_tick() >= 2 {
            assert!(before + d >= 60);
        }
    }
}

#[test]
fn a_fixed_cadence_fires_once_per_period() {
    // Thirty seconds, counted in milliseconds, at the cadence of the host's loop.
    let mut t = OrganTimer::new(DIGEST_PERIOD * 1000);
    let mut fires = 0;
    for tick in 1..=900u64 {
        tick_timer(&mut t, GAME_LOOP_MILIS);
        fires += t.0.times_finished_this_tick();
        assert!(t.0.times_finished_this_tick() <= 1);
        assert_eq!(t.0.finished(), tick % 300 == 0);
    }
    assert_eq!(fires, 3);
}

#[test]
fn extreme_ticks_do_not_overflow() {
    let mut t = RepeatingTimer::new(u64::MAX);
    t.tick(u64::MAX - 1);
    assert_eq!(t.times_finished_this_tick(), 0);
    assert_eq!(t.accumulated(), u64::MAX - 1);
    // (MAX - 1) + MAX = 1 * MAX + (MAX - 1)
    t.tick(u64::MAX);
    assert_eq!(t.times_finished_this_tick(), 1);
    assert_eq!(t.accumulated(), u64::MAX - 1);
    // (MAX - 1) + 2 = 1 * MAX + 1
    t.tick(2);
    assert_eq!(t.times_finished_this_tick(), 1);
    assert_eq!(t.accumulated(), 1);
    let mut one = RepeatingTimer::new(1);
    one.tick(u64::MAX);
    assert_eq!(one.times_finished_this_tick(), u64::MAX);
    assert_eq!(one.accumulated(), 0);
}

#[test]
fn the_two_timers_are_independent() {
    let mut organ = OrganTimer::new(30);
    let ai = AiTimer::new(30);
    tick_timer(&mut organ, 30);
    assert!(organ.0.finished());
    assert!(!ai.0.finished());
    assert_eq!(ai.0.accumulated(), 0);
}

use ceiling_exec::demo::{
    blink_step, counting_blink_step, higher_priority_step, on_exti_step, one_second_ticks,
    EventCounter, HpPhase, BLINK_PERIOD_MS, HP_PERIOD_MS,
};
use ceiling_exec::time::{wrap_reached, Clock, TICK_HZ};

#[test]
fn clock_starts_at_zero() {
    let mut c = Clock::new();
    assert_eq!(c.observe(0), 0);
}

#[test]
fn clock_extends_raw_reads() {
    let mut c = Clock::new();
    assert_eq!(c.observe(100), 100);
    assert_eq!(c.observe(5000), 5000);
}

#[test]
fn clock_never_regresses_across_wraparound() {
    let mut c = Clock::new();
    let mut last: u64 = 0;
    let reads: [u32; 6] = [0, 4_000_000_000, 100, 2_000_000_000, 50, 49];
    for raw in reads {
        let t = c.observe(raw);
        assert!(t >= last);
        last = t;
    }
    // Two wraps and one more short lap later, the low word is 49.
    assert_eq!(last % 0x1_0000_0000, 49);
    assert_eq!(last >> 32, 3);
}

#[test]
fn wrap_reached_plain_cases() {
    assert!(wrap_reached(500, 500));
    assert!(wrap_reached(501, 500));
    assert!(!wrap_reached(499, 500));
}

#[test]
fn wrap_reached_across_counter_wrap() {
    // The deadline sat just before the wrap; the counter has wrapped past it.
    assert!(wrap_reached(3, 0xFFFF_FFF0));
    // The deadline lies just after the wrap; it is not reached yet.
    assert!(!wrap_reached(0xFFFF_FFF0, 3));
}

#[test]
fn one_second_is_a_thousand_ticks() {
    assert_eq!(one_second_ticks(), TICK_HZ);
    assert_eq!(one_second_ticks(), 1000);
}

#[test]
fn blink_step_toggles_and_keeps_the_grid() {
    let (on, wake) = blink_step(false, 0);
    assert!(on);
    assert_eq!(wake, BLINK_PERIOD_MS);
    let (on2, wake2) = blink_step(on, 2300);
    assert!(!on2);
    assert_eq!(wake2, 2300 + 500);
}

#[test]
fn higher_priority_task_sleeps_then_computes() {
    let s1 = higher_priority_step(HpPhase::Startup);
    assert!(!s1.busy);
    assert_eq!(s1.sleep_ticks, HP_PERIOD_MS);
    assert_eq!(s1.sleep_ticks, 2000);
    let s2 = higher_priority_step(s1.next);
    assert!(s2.busy);
    assert_eq!(s2.sleep_ticks, 2000);
}

#[test]
fn button_counter_counts_only_button_edges() {
    let mut counter = EventCounter::new();
    let r1 = on_exti_step(true, &mut counter);
    assert!(r1.counted && r1.clear_line);
    let r2 = on_exti_step(false, &mut counter);
    assert!(!r2.counted && r2.clear_line);
    let r3 = on_exti_step(true, &mut counter);
    assert!(r3.counted);
    let (on, wake, drained) = counting_blink_step(false, 7, &mut counter);
    assert!(on);
    assert_eq!(wake, 7 + 1000);
    assert_eq!(drained, 2);
    let (_, _, drained2) = counting_blink_step(on, 1007, &mut counter);
    assert_eq!(drained2, 0);
}

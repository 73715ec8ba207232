use snake_core::clock::StepClock;

#[test]
fn no_tick_before_the_period() {
    let mut c = StepClock::new(100);
    assert!(!c.tick(30));
    assert_eq!(c.elapsed_ns, 30);
    assert!(!c.tick(69));
    assert_eq!(c.elapsed_ns, 99);
}

#[test]
fn tick_on_the_period_boundary() {
    let mut c = StepClock::new(100);
    assert!(!c.tick(30));
    assert!(c.tick(70));
    assert_eq!(c.elapsed_ns, 0);
}

#[test]
fn overshoot_carries_into_the_next_period() {
    let mut c = StepClock::new(100);
    assert!(c.tick(130));
    assert_eq!(c.elapsed_ns, 30);
    assert!(c.tick(95));
    assert_eq!(c.elapsed_ns, 25);
}

#[test]
fn several_periods_in_one_delta_report_once() {
    let mut c = StepClock::new(100);
    assert!(c.tick(350));
    assert_eq!(c.elapsed_ns, 50);
}

#[test]
fn paused_clock_neither_ticks_nor_advances() {
    let mut c = StepClock::new(100);
    assert!(!c.tick(40));
    c.pause();
    assert!(!c.tick(1000));
    assert_eq!(c.elapsed_ns, 40);
    assert!(c.paused);
}

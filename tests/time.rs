use traffloat::time::{
    sim_trigger, simulation_period, Clock, Instant, Time, SIMULATION_PERIOD_UNITS,
};

#[test]
fn time_arithmetic() {
    assert_eq!(Time(30) + Time(12), Time(42));
    assert_eq!(Time(30) - Time(12), Time(18));
    assert_eq!(Time(250) % Time(100), Time(50));
    assert_eq!(Time(250).int_div(Time(100)), 2);
    assert_eq!(Time::zero(), Time(0));
    assert_eq!(Time(7).value(), 7);
    assert_eq!(simulation_period(), Time(SIMULATION_PERIOD_UNITS));
}

#[test]
fn instant_arithmetic_round_trips() {
    let a = Instant(Time(1234));
    let d = Time(566);
    assert_eq!(a + d, Instant(Time(1800)));
    assert_eq!((a + d) - a, d);
    assert_eq!((a + d) - d, a);
    assert_eq!((a + d).since_epoch(), Time(1800));
    assert_eq!(Instant::epoch().since_epoch(), Time(0));
}

#[test]
fn clock_advances_by_deltas() {
    let mut clock = Clock::new();
    assert_eq!(clock.now(), Instant(Time(0)));
    assert_eq!(clock.delta(), Time(0));
    clock.inc_time(Time(30));
    assert_eq!(clock.now(), Instant(Time(30)));
    assert_eq!(clock.delta(), Time(30));
    clock.inc_time(Time(45));
    assert_eq!(clock.now(), Instant(Time(75)));
    assert_eq!(clock.delta(), Time(45));
    clock.set_time(Instant(Time(200)));
    assert_eq!(clock.now(), Instant(Time(200)));
    assert_eq!(clock.delta(), Time(125));
    // the sum of all deltas from the epoch
    assert_eq!(clock.now().since_epoch().value(), 30 + 45 + 125);
}

#[test]
fn clock_regression_wraps_delta() {
    let mut clock = Clock::default();
    clock.inc_time(Time(500));
    clock.set_time(Instant(Time(300)));
    assert_eq!(clock.now(), Instant(Time(300)));
    assert_eq!(clock.delta(), Time(u32::MAX - 199));
    assert_eq!(clock.delta().value().wrapping_add(500), 300);
}

#[test]
fn no_step_within_one_period() {
    let mut clock = Clock::new();
    let mut last = Instant(Time(0));
    for _ in 0..99 {
        clock.inc_time(Time(1));
        assert!(!sim_trigger(&clock, &mut last));
    }
    assert_eq!(clock.now(), Instant(Time(99)));
    assert_eq!(last, Instant(Time(0)));
}

#[test]
fn one_step_per_crossing() {
    let mut clock = Clock::new();
    let mut last = Instant(Time(0));
    clock.inc_time(Time(100));
    assert!(sim_trigger(&clock, &mut last));
    assert_eq!(last, Instant(Time(100)));
    assert!(!sim_trigger(&clock, &mut last));

    // a large step that crosses several boundaries still fires once
    clock.inc_time(Time(350));
    assert!(sim_trigger(&clock, &mut last));
    assert_eq!(last, Instant(Time(450)));
    assert!(!sim_trigger(&clock, &mut last));

    // from 450 to 499 stays in the same period; 500 starts the next one
    clock.inc_time(Time(49));
    assert!(!sim_trigger(&clock, &mut last));
    clock.inc_time(Time(1));
    assert!(sim_trigger(&clock, &mut last));
    assert_eq!(last, Instant(Time(500)));
}

#[test]
fn defaults_are_zero() {
    assert_eq!(Time::default(), Time(0));
    assert_eq!(Instant::default(), Instant(Time(0)));
    let clock = Clock::default();
    assert_eq!(clock.now(), Instant::default());
}

#[test]
fn clock_reaches_largest_instant() {
    let mut clock = Clock::new();
    clock.inc_time(Time(u32::MAX));
    assert_eq!(clock.now(), Instant(Time(u32::MAX)));
    assert_eq!(clock.delta(), Time(u32::MAX));
}

#[test]
fn inc_time_chain_sums_spans_in_any_order() {
    let mut a = Clock::default();
    for span in [Time(30), Time(5), Time(120)] {
        a.inc_time(span);
    }
    let mut b = Clock::default();
    for span in [Time(120), Time(30), Time(5)] {
        b.inc_time(span);
    }
    assert_eq!(a.now().since_epoch().value(), 155);
    assert_eq!(b.now(), a.now());
    assert_eq!(a.delta(), Time(120));
    assert_eq!(b.delta(), Time(5));
}

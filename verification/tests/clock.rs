use euralios::time::{microseconds_monotonic, pit_interrupt_notify, Clock};

#[test]
fn before_any_pit_interrupt_reads_zero() {
    let clock = Clock::boot();
    assert_eq!(microseconds_monotonic(&clock, 0), 0);
    assert_eq!(microseconds_monotonic(&clock, 123_456_789), 0);
}

#[test]
fn first_interrupt_sets_calibration() {
    let mut clock = Clock::boot();
    pit_interrupt_notify(&mut clock, 65_536_000);
    assert_eq!(clock.pit_ticks, 65_536);
    assert_eq!(clock.last_tsc, 65_536_000);
    // Instantaneous estimate 1000, averaged with the initial 0.
    assert_eq!(clock.tsc_per_pit, 500);
}

#[test]
fn reading_grows_with_tsc_between_interrupts() {
    let mut clock = Clock::boot();
    pit_interrupt_notify(&mut clock, 65_536_000);
    let early = microseconds_monotonic(&clock, 65_536_100);
    let late = microseconds_monotonic(&clock, 65_736_100);
    assert!(early <= late);
}

#[test]
fn monotonic_across_pit_interrupts() {
    let mut clock = Clock::boot();
    pit_interrupt_notify(&mut clock, 65_536_000);
    let first = microseconds_monotonic(&clock, 65_536_100);

    // Two PIT interrupts fire between the two reader calls.
    pit_interrupt_notify(&mut clock, 131_072_000);
    pit_interrupt_notify(&mut clock, 196_608_000);
    let second = microseconds_monotonic(&clock, 196_608_200);

    assert!(second > first);
    // Two interrupts' worth of PIT subticks is roughly 109 ms.
    assert!(second - first >= 100_000);
}

#[test]
fn one_interrupt_interval_is_about_55_ms() {
    let mut clock = Clock::boot();
    pit_interrupt_notify(&mut clock, 1_000_000);
    let at_interrupt = microseconds_monotonic(&clock, 1_000_000);
    // 65536 subticks at about 0.838 us each.
    assert!(at_interrupt > 54_000 && at_interrupt < 56_000);
}

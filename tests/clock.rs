use karxos::clock::{
    init, pit_interrupt_handler, set_pit_frequency_divider, sleep, ticks, uptime, Clock,
};
use karxos::port::PortWrite;

#[test]
fn ticks_count_up() {
    let mut c = Clock::new();
    assert_eq!(ticks(&c), 0);
    let mut last = uptime(&c);
    for _ in 0..5 {
        pit_interrupt_handler(&mut c);
        let now = uptime(&c);
        assert!(now >= last);
        last = now;
    }
    assert_eq!(ticks(&c), 5);
}

#[test]
fn uptime_is_ticks_times_interval() {
    let mut c = Clock::new();
    pit_interrupt_handler(&mut c);
    assert_eq!(uptime(&c), 999_847);
    for _ in 1..1000 {
        pit_interrupt_handler(&mut c);
    }
    assert_eq!(uptime(&c), 999_847_746);
}

#[test]
fn sleep_waits_until_elapsed() {
    let mut c = Clock::new();
    let start = uptime(&c);
    assert!(sleep(&c, start, 2_000_000));
    pit_interrupt_handler(&mut c);
    assert!(sleep(&c, start, 2_000_000));
    pit_interrupt_handler(&mut c);
    pit_interrupt_handler(&mut c);
    assert!(!sleep(&c, start, 2_000_000));
}

#[test]
fn init_programs_channel_zero() {
    assert_eq!(
        init(),
        vec![PortWrite::new(0x43, 0x36), PortWrite::new(0x40, 0xA9), PortWrite::new(0x40, 0x04)]
    );
}

#[test]
fn divider_on_channel_two() {
    assert_eq!(
        set_pit_frequency_divider(0x1234, 2),
        vec![PortWrite::new(0x43, 0xB6), PortWrite::new(0x42, 0x34), PortWrite::new(0x42, 0x12)]
    );
}

#[test]
fn calibration_divides_by_window() {
    let mut c = Clock::new();
    assert!(!c.is_calibrated());
    c.calibrate(1_000, 1_000 + 750_000_000);
    assert!(c.is_calibrated());
    assert_eq!(c.cycles_per_microsecond(), 3_000);
    assert!(!c.nanowait_done(10, 11, 2000));
    assert!(!c.nanowait_done(10, 6009, 2000));
    assert!(c.nanowait_done(10, 6010, 2000));
}

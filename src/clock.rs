use vstd::prelude::*;
use crate::port::PortWrite;

verus! {

/// Input frequency of the programmable interval timer is
/// `PIT_BASE_HZ / PIT_BASE_DIVISOR` hertz.
pub const PIT_BASE_HZ: u64 = 3_579_545;

pub const PIT_BASE_DIVISOR: u64 = 3;

/// Divider programmed into channel 0: one tick every 1193 timer cycles,
/// close to one millisecond.
pub const PIT_DIVIDER: usize = 1193;

/// Length of the calibration window, in microseconds.
pub const CALIBRATION_MICROS: u64 = 250_000;

/// Command port of the interval timer.
pub const PIT_COMMAND_PORT: u16 = 0x43;

/// Data port of channel 0 of the interval timer; channel `n` is at `+ n`.
pub const PIT_CHANNEL0_PORT: u16 = 0x40;

/// Nanoseconds that `ticks` timer ticks last, rounded down.
pub open spec fn uptime_of(ticks: int) -> int {
    ticks * PIT_DIVIDER * PIT_BASE_DIVISOR * 1_000_000_000 / PIT_BASE_HZ as int
}

/// Whether `elapsed` ticks last longer than one second.
pub open spec fn exceeds_one_second(elapsed: int) -> bool {
    elapsed * PIT_DIVIDER * PIT_BASE_DIVISOR > PIT_BASE_HZ
}

/// The command byte that selects `channel`, low-then-high byte access and
/// operating mode 3 (square wave, written as its alias 6).
pub open spec fn pit_command(channel: u8) -> u8 {
    ((channel % 4) * 64 + 0x36) as u8
}

/// The port writes that program `divider` into `channel`.
pub open spec fn pit_writes(divider: u16, channel: u8) -> Seq<PortWrite> {
    seq![
        PortWrite { port: PIT_COMMAND_PORT, value: pit_command(channel) },
        PortWrite { port: (PIT_CHANNEL0_PORT + channel) as u16, value: (divider % 256) as u8 },
        PortWrite { port: (PIT_CHANNEL0_PORT + channel) as u16, value: (divider / 256) as u8 },
    ]
}

/// The writes that set the frequency divider of timer `channel`: the
/// command byte, then the divider's low and high bytes.
pub fn set_pit_frequency_divider(divider: u16, channel: u8) -> (r: Vec<PortWrite>)
    ensures
        r@ == pit_writes(divider, channel),
{
    let low: u8 = (divider & 0xFF) as u8;
    let high: u8 = (divider >> 8u16) as u8;
    assert(low == divider % 256 && high == divider / 256) by (bit_vector)
        requires
            low == (divider & 0xFF) as u8,
            high == (divider >> 8u16) as u8,
    ;
    let operating_mode: u8 = 6;
    let access_mode: u8 = 3;
    let cmd: u8 = (channel << 6u8) | (access_mode << 4u8) | operating_mode;
    assert(cmd == (channel % 4) * 64 + 0x36) by (bit_vector)
        requires
            operating_mode == 6,
            access_mode == 3,
            cmd == (channel << 6u8) | (access_mode << 4u8) | operating_mode,
    ;
    let data_port: u16 = PIT_CHANNEL0_PORT + channel as u16;
    let mut r: Vec<PortWrite> = Vec::new();
    r.push(PortWrite { port: PIT_COMMAND_PORT, value: cmd });
    r.push(PortWrite { port: data_port, value: low });
    r.push(PortWrite { port: data_port, value: high });
    assert(r@ =~= pit_writes(divider, channel));
    r
}

/// The writes that start the periodic tick: the fixed divider on channel 0.
pub fn init() -> (r: Vec<PortWrite>)
    ensures
        r@ == pit_writes(PIT_DIVIDER as u16, 0),
{
    let divider: usize = if PIT_DIVIDER < 65535 { PIT_DIVIDER } else { 0 };
    set_pit_frequency_divider(divider as u16, 0)
}

/// The clock service: the tick counter that the timer interrupt advances
/// and the cycle-counter rate measured at boot.
pub struct Clock {
    ticks: u64,
    cycles_per_microsecond: u64,
    calibrated: bool,
}

impl Clock {
    /// A clock at tick 0, not yet calibrated.
    pub fn new() -> (r: Clock)
        ensures
            r.spec_ticks() == 0,
            r.spec_cycles_per_microsecond() == 0,
            !r.spec_calibrated(),
    {
        Clock { ticks: 0, cycles_per_microsecond: 0, calibrated: false }
    }

    /// Whether the cycle-counter rate has been measured; it is measured
    /// once, at boot, and never changes after.
    pub closed spec fn spec_calibrated(&self) -> bool {
        self.calibrated
    }

    pub fn is_calibrated(&self) -> (r: bool)
        ensures
            r == self.spec_calibrated(),
    {
        self.calibrated
    }

    pub closed spec fn spec_ticks(&self) -> nat {
        self.ticks as nat
    }

    pub closed spec fn spec_cycles_per_microsecond(&self) -> nat {
        self.cycles_per_microsecond as nat
    }

    /// Stores the cycle-counter rate measured over the calibration window,
    /// from the cycle counter read before and after it. A clock is
    /// calibrated once only.
    pub fn calibrate(&mut self, cycles_before: u64, cycles_after: u64)
        requires
            !old(self).spec_calibrated(),
            cycles_before <= cycles_after,
        ensures
            final(self).spec_calibrated(),
            final(self).spec_ticks() == old(self).spec_ticks(),
            final(self).spec_cycles_per_microsecond() == (cycles_after - cycles_before)
                / CALIBRATION_MICROS as int,
    {
        self.cycles_per_microsecond = (cycles_after - cycles_before) / CALIBRATION_MICROS;
        self.calibrated = true;
    }

    /// Cycle-counter rate measured at boot, per microsecond.
    pub fn cycles_per_microsecond(&self) -> (r: u64)
        ensures
            r == self.spec_cycles_per_microsecond(),
    {
        self.cycles_per_microsecond
    }

    /// Whether a busy wait of `nanos` nanoseconds begun at cycle count
    /// `start` is over at cycle count `now`.
    pub fn nanowait_done(&self, start: u64, now: u64, nanos: u64) -> (r: bool)
        ensures
            r == (now >= start && (now - start) * 1000 >= nanos
                * self.spec_cycles_per_microsecond()),
    {
        if now < start {
            false
        } else {
            let elapsed: u128 = (now - start) as u128;
            let c: u128 = self.cycles_per_microsecond as u128;
            let n: u128 = nanos as u128;
            assert(n * c <= u128::MAX) by (nonlinear_arith)
                requires
                    n <= u64::MAX,
                    c <= u64::MAX,
            ;
            elapsed * 1000 >= n * c
        }
    }
}

/// Counts one timer tick. The counter is 64 bits wide and stops at its
/// largest value rather than wrap.
pub fn pit_interrupt_handler(clock: &mut Clock)
    ensures
        final(clock).spec_ticks() == if old(clock).spec_ticks() < u64::MAX {
            old(clock).spec_ticks() + 1
        } else {
            old(clock).spec_ticks()
        },
        final(clock).spec_cycles_per_microsecond() == old(clock).spec_cycles_per_microsecond(),
        final(clock).spec_calibrated() == old(clock).spec_calibrated(),
{
    if clock.ticks < u64::MAX {
        clock.ticks = clock.ticks + 1;
    }
}

/// Ticks counted since boot.
pub fn ticks(clock: &Clock) -> (r: u64)
    ensures
        r == clock.spec_ticks(),
{
    clock.ticks
}

/// Nanoseconds since boot: the ticks times the tick interval.
pub fn uptime(clock: &Clock) -> (r: u128)
    ensures
        r == uptime_of(clock.spec_ticks() as int),
{
    let t: u128 = clock.ticks as u128;
    assert(t * 1193 * 3 * 1_000_000_000 <= u128::MAX) by (nonlinear_arith)
        requires
            t <= u64::MAX,
    ;
    t * (PIT_DIVIDER as u128) * (PIT_BASE_DIVISOR as u128) * 1_000_000_000 / (
    PIT_BASE_HZ as u128)
}

/// Whether a sleep of `nanos` nanoseconds begun at uptime `start` must
/// halt once more: true until the uptime has moved `nanos` past `start`.
pub fn sleep(clock: &Clock, start: u128, nanos: u128) -> (r: bool)
    ensures
        r == (uptime_of(clock.spec_ticks() as int) < start + nanos),
{
    let now = uptime(clock);
    if now < start {
        true
    } else {
        now - start < nanos
    }
}

/// Uptime never goes back as ticks are counted.
pub proof fn lemma_uptime_monotonic(earlier: int, later: int)
    requires
        0 <= earlier <= later,
    ensures
        uptime_of(earlier) <= uptime_of(later),
{
    assert(earlier * 3579000000000 <= later * 3579000000000) by (nonlinear_arith)
        requires
            earlier <= later,
    ;
    vstd::arithmetic::div_mod::lemma_div_is_ordered(
        earlier * 3579000000000,
        later * 3579000000000,
        PIT_BASE_HZ as int,
    );
}

/// The tick counter never decreases across a timer interrupt, and uptime
/// never decreases with it.
pub proof fn lemma_tick_monotonic(before: Clock, after: Clock)
    requires
        after.spec_ticks() == if before.spec_ticks() < u64::MAX {
            before.spec_ticks() + 1
        } else {
            before.spec_ticks()
        },
    ensures
        before.spec_ticks() <= after.spec_ticks(),
        uptime_of(before.spec_ticks() as int) <= uptime_of(after.spec_ticks() as int),
{
    lemma_uptime_monotonic(before.spec_ticks() as int, after.spec_ticks() as int);
}

} // verus!

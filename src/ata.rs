use vstd::prelude::*;
use bit_field::BitField;
use crate::clock::{exceeds_one_second, PIT_BASE_DIVISOR, PIT_BASE_HZ, PIT_DIVIDER};
use crate::text::{push_char, trim, trim_of};
use vstd::string::StringExecFns;

verus! {

/// Bit of the status register set while the device is busy.
pub const STATUS_BUSY: usize = 7;

/// Bit of the status register set when the device reports a fault.
pub const STATUS_ERROR: usize = 0;

/// Bit of the status register set when the device is ready.
pub const STATUS_READY: usize = 6;

/// The IDENTIFY DEVICE command.
pub const COMMAND_IDENTIFY: u8 = 0xEC;

/// Control register value that holds the bus in reset.
pub const CONTROL_RESET: u8 = 4;

/// Nanoseconds the reset bit is held.
pub const RESET_HOLD_NANOS: u64 = 5;

/// Nanoseconds waited after the reset bit is cleared.
pub const RESET_SETTLE_NANOS: u64 = 2000;

/// Fixed upper nibble of the drive-select byte.
pub const DRIVE_SELECT_BASE: u8 = 0xA0;

/// Words returned by IDENTIFY.
pub const IDENTIFY_WORDS: usize = 256;

/// Status polls allowed for the device to become ready.
pub const READY_POLLS: u16 = 256;

/// Whether bit `bit` of `value` is set.
pub open spec fn bit_of(value: u8, bit: usize) -> bool {
    (value >> (bit as u8)) & 1u8 == 1u8
}

/// Relies on bit_field's `BitField::get_bit` for `u8`, which tests
/// `value & (1 << bit) != 0` and panics unless `bit < 8`.
#[verifier::external_body]
fn get_bit(value: u8, bit: usize) -> (r: bool)
    requires
        bit < 8,
    ensures
        r == bit_of(value, bit),
{
    value.get_bit(bit)
}

/// The registers of one ATA channel.
#[derive(Debug, Clone, Copy, PartialEq, Eq, Structural)]
pub enum Register {
    Data,
    Error,
    Features,
    SectorCount,
    Lba0,
    Lba1,
    Lba2,
    Drive,
    Status,
    Command,
    AlternateStatus,
    Control,
    DriveAddress,
}

/// One ATA channel: its id, its interrupt line (unused by the polled
/// protocol) and the bases of its command block and control block.
#[derive(Debug, Clone, Copy, PartialEq, Eq)]
pub struct Bus {
    id: u8,
    irq: u8,
    io_base: u16,
    ctrl_base: u16,
}

/// Offset of `reg` from the base of its block.
pub open spec fn register_offset(reg: Register) -> int {
    match reg {
        Register::Data => 0,
        Register::Error => 1,
        Register::Features => 1,
        Register::SectorCount => 2,
        Register::Lba0 => 3,
        Register::Lba1 => 4,
        Register::Lba2 => 5,
        Register::Drive => 6,
        Register::Status => 7,
        Register::Command => 7,
        Register::AlternateStatus => 0,
        Register::Control => 0,
        Register::DriveAddress => 1,
    }
}

/// Whether `reg` lies in the control block.
pub open spec fn in_control_block(reg: Register) -> bool {
    match reg {
        Register::AlternateStatus | Register::Control | Register::DriveAddress => true,
        _ => false,
    }
}

impl Bus {
    pub fn new(id: u8, io_base: u16, ctrl_base: u16, irq: u8) -> (r: Bus)
        requires
            io_base + 7 <= u16::MAX,
            ctrl_base + 1 <= u16::MAX,
        ensures
            r.wf(),
            r.spec_id() == id,
            r.spec_irq() == irq,
            r.spec_io_base() == io_base,
            r.spec_ctrl_base() == ctrl_base,
    {
        Bus { id, irq, io_base, ctrl_base }
    }

    pub open spec fn wf(&self) -> bool {
        &&& self.spec_io_base() + 7 <= u16::MAX
        &&& self.spec_ctrl_base() + 1 <= u16::MAX
    }

    pub closed spec fn spec_id(&self) -> u8 {
        self.id
    }

    pub closed spec fn spec_irq(&self) -> u8 {
        self.irq
    }

    pub closed spec fn spec_io_base(&self) -> u16 {
        self.io_base
    }

    pub closed spec fn spec_ctrl_base(&self) -> u16 {
        self.ctrl_base
    }

    pub fn id(&self) -> (r: u8)
        ensures
            r == self.spec_id(),
    {
        self.id
    }

    pub fn irq(&self) -> (r: u8)
        ensures
            r == self.spec_irq(),
    {
        self.irq
    }

    /// The I/O port of `reg` on this channel.
    pub fn port(&self, reg: Register) -> (r: u16)
        requires
            self.wf(),
        ensures
            r == if in_control_block(reg) {
                self.spec_ctrl_base() + register_offset(reg)
            } else {
                self.spec_io_base() + register_offset(reg)
            },
    {
        match reg {
            Register::Data => self.io_base,
            Register::Error => self.io_base + 1,
            Register::Features => self.io_base + 1,
            Register::SectorCount => self.io_base + 2,
            Register::Lba0 => self.io_base + 3,
            Register::Lba1 => self.io_base + 4,
            Register::Lba2 => self.io_base + 5,
            Register::Drive => self.io_base + 6,
            Register::Status => self.io_base + 7,
            Register::Command => self.io_base + 7,
            Register::AlternateStatus => self.ctrl_base,
            Register::Control => self.ctrl_base,
            Register::DriveAddress => self.ctrl_base + 1,
        }
    }
}

/// One operation the identify protocol asks of the channel. Each `step`
/// hands one out; the caller performs it and hands back its result.
#[derive(Debug, Clone, Copy, PartialEq, Eq, Structural)]
pub enum BusAction {
    /// Write a byte to a register; the result handed back is ignored.
    Write(Register, u8),
    /// Read a byte register; hand back the byte.
    Read(Register),
    /// Read one word from the data register; hand back the word.
    ReadData,
    /// Busy-wait this many nanoseconds; the result handed back is ignored.
    Wait(u64),
    /// Read the timer tick counter; hand back the count.
    ReadClock,
    /// The protocol is over: see `outcome`.
    Finish,
}

/// How an identify attempt ended.
#[derive(Debug, Clone, Copy, PartialEq, Eq, Structural)]
pub enum IdentifyOutcome {
    /// All 256 words were transferred.
    Identified,
    /// The status read right after the command was zero: no device.
    NoDevice,
    /// The signature registers were not zero: not an ATA device.
    NotAta,
    /// The device raised its error flag.
    DeviceError,
    /// The device never became ready within the poll budget.
    NotReady,
    /// The device stayed busy past the one-second deadline; the channel
    /// was reset and the attempt abandoned.
    TimedOut,
}

/// Where the identify protocol stands: the operation handed out last.
#[derive(Debug, Clone, Copy, PartialEq, Eq, Structural)]
pub enum Phase {
    /// Nothing handed out yet.
    Idle,
    /// Operation `n` of the opening sequence (reset, settle, select, zero, command).
    Prelude(u8),
    /// The status read right after the command.
    Status,
    /// Settle read `n` before the busy wait.
    Settle(u8),
    /// The clock read that starts the busy wait.
    ClockStart,
    /// A status read of the busy wait begun at the given tick.
    BusyStatus(u64),
    /// A clock read of the busy wait begun at the given tick.
    BusyClock(u64),
    /// Operation `n` of the reset that abandons an overlong busy wait.
    TimeoutReset(u8),
    /// The read of the first signature register.
    Lba1,
    /// The read of the second signature register.
    Lba2,
    /// The error test of readiness poll `i`.
    ErrorCheck(u16),
    /// The ready test of readiness poll `i`.
    ReadyCheck(u16),
    /// Operation `n` of the reset that ends a poll that never saw ready.
    CapReset(u8),
    /// A data word read.
    Transfer,
    /// Finished.
    Done,
}

/// The drive-select byte for `drive`.
pub open spec fn drive_select(drive: u8) -> u8 {
    (DRIVE_SELECT_BASE + drive * 16) as u8
}

/// Operation `n` of the reset pulse: set the reset bit, hold, clear, settle.
pub open spec fn reset_op(n: int) -> BusAction {
    if n == 0 {
        BusAction::Write(Register::Control, CONTROL_RESET)
    } else if n == 1 {
        BusAction::Wait(RESET_HOLD_NANOS)
    } else if n == 2 {
        BusAction::Write(Register::Control, 0)
    } else {
        BusAction::Wait(RESET_SETTLE_NANOS)
    }
}

/// Operation `n` of the opening sequence: the reset pulse, four settle
/// reads, drive select, zeroed sector count and address, the command.
pub open spec fn prelude_op(n: int, drive: u8) -> BusAction {
    if n < 4 {
        reset_op(n)
    } else if n < 8 {
        BusAction::Read(Register::AlternateStatus)
    } else if n == 8 {
        BusAction::Write(Register::Drive, drive_select(drive))
    } else if n == 9 {
        BusAction::Write(Register::SectorCount, 0)
    } else if n == 10 {
        BusAction::Write(Register::Lba0, 0)
    } else if n == 11 {
        BusAction::Write(Register::Lba1, 0)
    } else if n == 12 {
        BusAction::Write(Register::Lba2, 0)
    } else {
        BusAction::Write(Register::Command, COMMAND_IDENTIFY)
    }
}

/// Number of operations of the opening sequence.
pub const PRELUDE_OPS: u8 = 14;

/// Ticks from `start` to `now`, zero if the clock reads earlier.
pub open spec fn elapsed(start: u64, now: u64) -> int {
    if now >= start { now - start } else { 0 }
}

/// The identify protocol as plain values.
pub struct IdentifyView {
    pub drive: u8,
    pub phase: Phase,
    pub words: Seq<u16>,
    pub outcome: Option<IdentifyOutcome>,
}

/// The state after `phase` with the same drive and words and no outcome.
pub open spec fn goto(s: IdentifyView, phase: Phase) -> IdentifyView {
    IdentifyView { phase, ..s }
}

/// The state that ends the protocol with `outcome`.
pub open spec fn finish(s: IdentifyView, outcome: IdentifyOutcome) -> IdentifyView {
    IdentifyView { phase: Phase::Done, outcome: Some(outcome), ..s }
}

/// One step of the protocol: given the state and the result of the
/// operation handed out last, the next state and the next operation.
pub open spec fn next(s: IdentifyView, reply: u64) -> (IdentifyView, BusAction) {
    let byte = (reply % 256) as u8;
    match s.phase {
        Phase::Idle => (goto(s, Phase::Prelude(0)), prelude_op(0, s.drive)),
        Phase::Prelude(n) => if n + 1 < PRELUDE_OPS {
            (goto(s, Phase::Prelude((n + 1) as u8)), prelude_op(n + 1, s.drive))
        } else {
            (goto(s, Phase::Status), BusAction::Read(Register::Status))
        },
        Phase::Status => if byte == 0 {
            (finish(s, IdentifyOutcome::NoDevice), BusAction::Finish)
        } else {
            (goto(s, Phase::Settle(0)), BusAction::Read(Register::AlternateStatus))
        },
        Phase::Settle(n) => if n < 3 {
            (goto(s, Phase::Settle((n + 1) as u8)), BusAction::Read(Register::AlternateStatus))
        } else {
            (goto(s, Phase::ClockStart), BusAction::ReadClock)
        },
        Phase::ClockStart => (goto(s, Phase::BusyStatus(reply)), BusAction::Read(Register::Status)),
        Phase::BusyStatus(start) => if bit_of(byte, STATUS_BUSY) {
            (goto(s, Phase::BusyClock(start)), BusAction::ReadClock)
        } else {
            (goto(s, Phase::Lba1), BusAction::Read(Register::Lba1))
        },
        Phase::BusyClock(start) => if exceeds_one_second(elapsed(start, reply)) {
            (goto(s, Phase::TimeoutReset(0)), reset_op(0))
        } else {
            (goto(s, Phase::BusyStatus(start)), BusAction::Read(Register::Status))
        },
        Phase::TimeoutReset(n) => if n < 3 {
            (goto(s, Phase::TimeoutReset((n + 1) as u8)), reset_op(n + 1))
        } else {
            (finish(s, IdentifyOutcome::TimedOut), BusAction::Finish)
        },
        Phase::Lba1 => if byte != 0 {
            (finish(s, IdentifyOutcome::NotAta), BusAction::Finish)
        } else {
            (goto(s, Phase::Lba2), BusAction::Read(Register::Lba2))
        },
        Phase::Lba2 => if byte != 0 {
            (finish(s, IdentifyOutcome::NotAta), BusAction::Finish)
        } else {
            (goto(s, Phase::ErrorCheck(0)), BusAction::Read(Register::Status))
        },
        Phase::ErrorCheck(i) => if bit_of(byte, STATUS_ERROR) {
            (finish(s, IdentifyOutcome::DeviceError), BusAction::Finish)
        } else {
            (goto(s, Phase::ReadyCheck(i)), BusAction::Read(Register::Status))
        },
        Phase::ReadyCheck(i) => if bit_of(byte, STATUS_READY) {
            (goto(s, Phase::Transfer), BusAction::ReadData)
        } else if i + 1 < READY_POLLS {
            (goto(s, Phase::ErrorCheck((i + 1) as u16)), BusAction::Read(Register::Status))
        } else {
            (goto(s, Phase::CapReset(0)), reset_op(0))
        },
        Phase::CapReset(n) => if n < 3 {
            (goto(s, Phase::CapReset((n + 1) as u8)), reset_op(n + 1))
        } else {
            (finish(s, IdentifyOutcome::NotReady), BusAction::Finish)
        },
        Phase::Transfer => {
            let words = s.words.push((reply % 65536) as u16);
            if words.len() < IDENTIFY_WORDS {
                (IdentifyView { words, ..s }, BusAction::ReadData)
            } else {
                (
                    IdentifyView {
                        words,
                        phase: Phase::Done,
                        outcome: Some(IdentifyOutcome::Identified),
                        ..s
                    },
                    BusAction::Finish,
                )
            }
        },
        Phase::Done => (s, BusAction::Finish),
    }
}

/// The protocol's invariant: counters within their ranges, words only once
/// the device was ready, an outcome exactly when finished, and all 256
/// words exactly when identified.
pub open spec fn view_wf(s: IdentifyView) -> bool {
    &&& s.drive < 2
    &&& match s.phase {
        Phase::Prelude(n) => n < PRELUDE_OPS,
        Phase::Settle(n) => n < 4,
        Phase::TimeoutReset(n) => n < 4,
        Phase::CapReset(n) => n < 4,
        Phase::ErrorCheck(i) => i < READY_POLLS,
        Phase::ReadyCheck(i) => i < READY_POLLS,
        _ => true,
    }
    &&& (s.phase == Phase::Transfer ==> s.words.len() < IDENTIFY_WORDS)
    &&& (s.phase != Phase::Transfer && s.outcome != Some(IdentifyOutcome::Identified)
        ==> s.words.len() == 0)
    &&& (s.phase == Phase::Done <==> s.outcome.is_some())
    &&& (s.outcome == Some(IdentifyOutcome::Identified) ==> s.words.len() == IDENTIFY_WORDS)
}

fn reset_action(n: u8) -> (r: BusAction)
    ensures
        r == reset_op(n as int),
{
    if n == 0 {
        BusAction::Write(Register::Control, CONTROL_RESET)
    } else if n == 1 {
        BusAction::Wait(RESET_HOLD_NANOS)
    } else if n == 2 {
        BusAction::Write(Register::Control, 0)
    } else {
        BusAction::Wait(RESET_SETTLE_NANOS)
    }
}

fn prelude_action(n: u8, drive: u8) -> (r: BusAction)
    requires
        drive < 2,
    ensures
        r == prelude_op(n as int, drive),
{
    if n < 4 {
        reset_action(n)
    } else if n < 8 {
        BusAction::Read(Register::AlternateStatus)
    } else if n == 8 {
        let select: u8 = 0xA0u8 | (drive << 4u8);
        assert(select == 0xA0 + drive * 16) by (bit_vector)
            requires
                drive < 2,
                select == 0xA0u8 | (drive << 4u8),
        ;
        BusAction::Write(Register::Drive, select)
    } else if n == 9 {
        BusAction::Write(Register::SectorCount, 0)
    } else if n == 10 {
        BusAction::Write(Register::Lba0, 0)
    } else if n == 11 {
        BusAction::Write(Register::Lba1, 0)
    } else if n == 12 {
        BusAction::Write(Register::Lba2, 0)
    } else {
        BusAction::Write(Register::Command, COMMAND_IDENTIFY)
    }
}

/// One IDENTIFY attempt on one drive of a channel, driven one operation at
/// a time by `step`.
pub struct IdentifyDriver {
    drive: u8,
    phase: Phase,
    words: Vec<u16>,
    outcome: Option<IdentifyOutcome>,
}

impl IdentifyDriver {
    pub closed spec fn view(&self) -> IdentifyView {
        IdentifyView {
            drive: self.drive,
            phase: self.phase,
            words: self.words@,
            outcome: self.outcome,
        }
    }

    pub open spec fn wf(&self) -> bool {
        view_wf(self.view())
    }

    /// Hands out the next operation, given the result of the one handed out
    /// last (ignored where that one returns nothing).
    pub fn step(&mut self, reply: u64) -> (r: BusAction)
        requires
            old(self).wf(),
        ensures
            final(self).wf(),
            (final(self).view(), r) == next(old(self).view(), reply),
    {
        let byte: u8 = (reply % 256) as u8;
        match self.phase {
            Phase::Idle => {
                self.phase = Phase::Prelude(0);
                prelude_action(0, self.drive)
            },
            Phase::Prelude(n) => {
                if n + 1 < PRELUDE_OPS {
                    self.phase = Phase::Prelude(n + 1);
                    prelude_action(n + 1, self.drive)
                } else {
                    self.phase = Phase::Status;
                    BusAction::Read(Register::Status)
                }
            },
            Phase::Status => {
                if byte == 0 {
                    self.phase = Phase::Done;
                    self.outcome = Some(IdentifyOutcome::NoDevice);
                    BusAction::Finish
                } else {
                    self.phase = Phase::Settle(0);
                    BusAction::Read(Register::AlternateStatus)
                }
            },
            Phase::Settle(n) => {
                if n < 3 {
                    self.phase = Phase::Settle(n + 1);
                    BusAction::Read(Register::AlternateStatus)
                } else {
                    self.phase = Phase::ClockStart;
                    BusAction::ReadClock
                }
            },
            Phase::ClockStart => {
                self.phase = Phase::BusyStatus(reply);
                BusAction::Read(Register::Status)
            },
            Phase::BusyStatus(start) => {
                if get_bit(byte, STATUS_BUSY) {
                    self.phase = Phase::BusyClock(start);
                    BusAction::ReadClock
                } else {
                    self.phase = Phase::Lba1;
                    BusAction::Read(Register::Lba1)
                }
            },
            Phase::BusyClock(start) => {
                let ticks: u64 = if reply >= start { reply - start } else { 0 };
                assert((ticks as u128) * 1193 * 3 <= u128::MAX) by (nonlinear_arith)
                    requires
                        ticks <= u64::MAX,
                ;
                if (ticks as u128) * (PIT_DIVIDER as u128) * (PIT_BASE_DIVISOR as u128) > (
                PIT_BASE_HZ as u128) {
                    self.phase = Phase::TimeoutReset(0);
                    reset_action(0)
                } else {
                    self.phase = Phase::BusyStatus(start);
                    BusAction::Read(Register::Status)
                }
            },
            Phase::TimeoutReset(n) => {
                if n < 3 {
                    self.phase = Phase::TimeoutReset(n + 1);
                    reset_action(n + 1)
                } else {
                    self.phase = Phase::Done;
                    self.outcome = Some(IdentifyOutcome::TimedOut);
                    BusAction::Finish
                }
            },
            Phase::Lba1 => {
                if byte != 0 {
                    self.phase = Phase::Done;
                    self.outcome = Some(IdentifyOutcome::NotAta);
                    BusAction::Finish
                } else {
                    self.phase = Phase::Lba2;
                    BusAction::Read(Register::Lba2)
                }
            },
            Phase::Lba2 => {
                if byte != 0 {
                    self.phase = Phase::Done;
                    self.outcome = Some(IdentifyOutcome::NotAta);
                    BusAction::Finish
                } else {
                    self.phase = Phase::ErrorCheck(0);
                    BusAction::Read(Register::Status)
                }
            },
            Phase::ErrorCheck(i) => {
                if get_bit(byte, STATUS_ERROR) {
                    self.phase = Phase::Done;
                    self.outcome = Some(IdentifyOutcome::DeviceError);
                    BusAction::Finish
                } else {
                    self.phase = Phase::ReadyCheck(i);
                    BusAction::Read(Register::Status)
                }
            },
            Phase::ReadyCheck(i) => {
                if get_bit(byte, STATUS_READY) {
                    self.phase = Phase::Transfer;
                    BusAction::ReadData
                } else if i + 1 < READY_POLLS {
                    self.phase = Phase::ErrorCheck(i + 1);
                    BusAction::Read(Register::Status)
                } else {
                    self.phase = Phase::CapReset(0);
                    reset_action(0)
                }
            },
            Phase::CapReset(n) => {
                if n < 3 {
                    self.phase = Phase::CapReset(n + 1);
                    reset_action(n + 1)
                } else {
                    self.phase = Phase::Done;
                    self.outcome = Some(IdentifyOutcome::NotReady);
                    BusAction::Finish
                }
            },
            Phase::Transfer => {
                self.words.push((reply % 65536) as u16);
                if self.words.len() < IDENTIFY_WORDS {
                    BusAction::ReadData
                } else {
                    self.phase = Phase::Done;
                    self.outcome = Some(IdentifyOutcome::Identified);
                    BusAction::Finish
                }
            },
            Phase::Done => BusAction::Finish,
        }
    }

    /// How the attempt ended, or `None` while it runs.
    pub fn outcome(&self) -> (r: Option<IdentifyOutcome>)
        ensures
            r == self.view().outcome,
    {
        self.outcome
    }

    /// The words transferred so far.
    pub fn words(&self) -> (r: &Vec<u16>)
        ensures
            r@ == self.view().words,
    {
        &self.words
    }

    /// The 256 identify words if the attempt identified a drive, else `None`.
    pub fn into_identity(self) -> (r: Option<Vec<u16>>)
        requires
            self.wf(),
        ensures
            r.is_some() == (self.view().outcome == Some(IdentifyOutcome::Identified)),
            r matches Some(w) ==> w@ == self.view().words && w@.len() == IDENTIFY_WORDS,
    {
        if self.outcome == Some(IdentifyOutcome::Identified) {
            Some(self.words)
        } else {
            None
        }
    }
}

impl Bus {
    /// A fresh IDENTIFY attempt on `drive` (0 or 1) of this channel.
    pub fn identify_drive(&self, drive: u8) -> (r: IdentifyDriver)
        requires
            drive < 2,
        ensures
            r.wf(),
            r.view() == (IdentifyView {
                drive,
                phase: Phase::Idle,
                words: Seq::empty(),
                outcome: None,
            }),
    {
        IdentifyDriver { drive, phase: Phase::Idle, words: Vec::new(), outcome: None }
    }
}

/// The state and the operations handed out after the protocol in state `s`
/// is given `replies` in order, one per step.
pub open spec fn run(s: IdentifyView, replies: Seq<u64>) -> (IdentifyView, Seq<BusAction>)
    decreases replies.len(),
{
    if replies.len() == 0 {
        (s, Seq::empty())
    } else {
        let (before, actions) = run(s, replies.drop_last());
        let (after, action) = next(before, replies.last());
        (after, actions.push(action))
    }
}

/// One more reply runs one more step.
pub proof fn lemma_run_unfold(s: IdentifyView, replies: Seq<u64>)
    requires
        replies.len() > 0,
    ensures
        run(s, replies).0 == next(run(s, replies.drop_last()).0, replies.last()).0,
        run(s, replies).1 == run(s, replies.drop_last()).1.push(
            next(run(s, replies.drop_last()).0, replies.last()).1,
        ),
{
}

/// Rank shared by the two phases of the busy wait.
pub open spec fn busy_rank() -> int {
    1100
}

/// How far the protocol is from its end: every step outside the busy wait
/// lowers it, and no step raises it.
pub open spec fn rank(s: IdentifyView) -> int {
    match s.phase {
        Phase::Idle => 1121,
        Phase::Prelude(n) => 1120 - n,
        Phase::Status => 1106,
        Phase::Settle(n) => 1105 - n,
        Phase::ClockStart => 1101,
        Phase::BusyStatus(_) => busy_rank(),
        Phase::BusyClock(_) => busy_rank(),
        Phase::TimeoutReset(n) => 1005 - n,
        Phase::Lba1 => 1001,
        Phase::Lba2 => 1000,
        Phase::ErrorCheck(i) => 301 + 2 * (READY_POLLS - i),
        Phase::ReadyCheck(i) => 300 + 2 * (READY_POLLS - i),
        Phase::CapReset(n) => 4 - n,
        Phase::Transfer => 257 - s.words.len(),
        Phase::Done => 0,
    }
}

/// Whether the protocol is in its busy wait.
pub open spec fn is_busy_wait(p: Phase) -> bool {
    p matches Phase::BusyStatus(_) || p matches Phase::BusyClock(_)
}

/// A fresh attempt on `drive`.
pub open spec fn fresh(drive: u8) -> IdentifyView {
    IdentifyView { drive, phase: Phase::Idle, words: Seq::empty(), outcome: None }
}

/// Every step keeps the protocol's invariant, and the drive.
pub proof fn lemma_next_wf(s: IdentifyView, reply: u64)
    requires
        view_wf(s),
    ensures
        view_wf(next(s, reply).0),
        next(s, reply).0.drive == s.drive,
{
}

/// The protocol always makes progress: no step raises the rank, and every
/// step but those of the busy wait and those after the end lowers it. A
/// finished attempt stays finished and hands out `Finish`.
pub proof fn lemma_progress(s: IdentifyView, reply: u64)
    requires
        view_wf(s),
    ensures
        rank(next(s, reply).0) <= rank(s),
        !is_busy_wait(s.phase) && s.phase != Phase::Done ==> rank(next(s, reply).0) < rank(s),
        s.phase == Phase::Done ==> next(s, reply) == (s, BusAction::Finish),
        0 <= rank(s) <= 1121,
{
}

/// Once past the busy wait, the protocol never enters it again, whatever
/// the device answers.
pub proof fn lemma_busy_wait_not_reentered(s: IdentifyView, replies: Seq<u64>)
    requires
        view_wf(s),
        rank(s) < busy_rank(),
    ensures
        view_wf(run(s, replies).0),
        rank(run(s, replies).0) < busy_rank(),
        !is_busy_wait(run(s, replies).0.phase),
    decreases replies.len(),
{
    if replies.len() > 0 {
        lemma_busy_wait_not_reentered(s, replies.drop_last());
        let before = run(s, replies.drop_last()).0;
        lemma_next_wf(before, replies.last());
        lemma_progress(before, replies.last());
    }
}

/// A busy wait that has lasted over one second ends in exactly one reset
/// pulse, after which the attempt is abandoned: the operations handed out
/// are the four of the reset, then `Finish`, whatever the replies, and the
/// attempt ends timed out with no data transferred.
pub proof fn lemma_busy_timeout_resets_once(
    s: IdentifyView,
    start: u64,
    now: u64,
    replies: Seq<u64>,
)
    requires
        view_wf(s),
        s.phase == Phase::BusyClock(start),
        exceeds_one_second(elapsed(start, now)),
        replies.len() == 5,
        replies[0] == now,
    ensures
        run(s, replies).1 == seq![reset_op(0), reset_op(1), reset_op(2), reset_op(3), BusAction::Finish],
        run(s, replies).0.outcome == Some(IdentifyOutcome::TimedOut),
        run(s, replies).0.words.len() == 0,
{
    let r1 = replies.subrange(0, 1);
    let r2 = replies.subrange(0, 2);
    let r3 = replies.subrange(0, 3);
    let r4 = replies.subrange(0, 4);
    assert(r1.drop_last() =~= Seq::<u64>::empty());
    assert(r2.drop_last() =~= r1);
    assert(r3.drop_last() =~= r2);
    assert(r4.drop_last() =~= r3);
    assert(replies.drop_last() =~= r4);
    assert(run(s, Seq::<u64>::empty()) == (s, Seq::<BusAction>::empty()));
    lemma_run_unfold(s, r1);
    assert(run(s, r1).1 =~= seq![reset_op(0)]);
    lemma_run_unfold(s, r2);
    assert(run(s, r2).1 =~= seq![reset_op(0), reset_op(1)]);
    lemma_run_unfold(s, r3);
    assert(run(s, r3).1 =~= seq![reset_op(0), reset_op(1), reset_op(2)]);
    lemma_run_unfold(s, r4);
    assert(run(s, r4).1 =~= seq![reset_op(0), reset_op(1), reset_op(2), reset_op(3)]);
    lemma_run_unfold(s, replies);
    assert(run(s, replies).1 =~= seq![reset_op(0), reset_op(1), reset_op(2), reset_op(3), BusAction::Finish]);
}

/// Within the busy wait, before the deadline nothing is reset: a status
/// with the busy flag set is followed by a clock read, and a clock read
/// within one second of the start by another status read.
pub proof fn lemma_busy_wait_polls(s: IdentifyView, start: u64, reply: u64)
    requires
        view_wf(s),
        is_busy_wait(s.phase),
    ensures
        s.phase == Phase::BusyStatus(start) && bit_of((reply % 256) as u8, STATUS_BUSY) ==> next(
            s,
            reply,
        ) == (goto(s, Phase::BusyClock(start)), BusAction::ReadClock),
        s.phase == Phase::BusyStatus(start) && !bit_of((reply % 256) as u8, STATUS_BUSY) ==> next(
            s,
            reply,
        ) == (goto(s, Phase::Lba1), BusAction::Read(Register::Lba1)),
        s.phase == Phase::BusyClock(start) && !exceeds_one_second(elapsed(start, reply)) ==> next(
            s,
            reply,
        ) == (goto(s, Phase::BusyStatus(start)), BusAction::Read(Register::Status)),
        s.phase == Phase::BusyClock(start) && exceeds_one_second(elapsed(start, reply)) ==> next(
            s,
            reply,
        ) == (goto(s, Phase::TimeoutReset(0)), reset_op(0)),
{
}

/// A signature register that reads nonzero ends the attempt: no drive of
/// the ATA class, nothing transferred.
pub proof fn lemma_signature_mismatch(s: IdentifyView, reply: u64)
    requires
        view_wf(s),
        s.phase == Phase::Lba1 || s.phase == Phase::Lba2,
        reply % 256 != 0,
    ensures
        next(s, reply).1 == BusAction::Finish,
        next(s, reply).0.outcome == Some(IdentifyOutcome::NotAta),
        next(s, reply).0.words.len() == 0,
{
}

/// The opening sequence of a fresh attempt: whatever the replies, the first
/// `k` operations are the first `k` of the opening sequence.
pub proof fn lemma_prelude(drive: u8, replies: Seq<u64>)
    requires
        drive < 2,
        1 <= replies.len() <= PRELUDE_OPS,
    ensures
        run(fresh(drive), replies).0 == goto(fresh(drive), Phase::Prelude((replies.len() - 1) as u8)),
        run(fresh(drive), replies).1 == Seq::new(replies.len(), |i: int| prelude_op(i, drive)),
    decreases replies.len(),
{
    lemma_run_unfold(fresh(drive), replies);
    if replies.len() > 1 {
        lemma_prelude(drive, replies.drop_last());
    } else {
        assert(replies.drop_last() =~= Seq::<u64>::empty());
        assert(run(fresh(drive), Seq::<u64>::empty()) == (fresh(drive), Seq::<BusAction>::empty()));
    }
    assert(run(fresh(drive), replies).1 =~= Seq::new(replies.len(), |i: int| prelude_op(i, drive)));
}

/// A device whose status reads zero right after the command is absent: the
/// attempt ends with no drive, and no data word is ever read. The replies
/// before the status read are the results of the opening sequence.
pub proof fn lemma_zero_status_no_drive(drive: u8, replies: Seq<u64>)
    requires
        drive < 2,
        replies.len() == PRELUDE_OPS + 2,
        replies.last() % 256 == 0,
    ensures
        run(fresh(drive), replies).0.outcome == Some(IdentifyOutcome::NoDevice),
        run(fresh(drive), replies).0.words.len() == 0,
        run(fresh(drive), replies).1.len() == PRELUDE_OPS + 2,
        run(fresh(drive), replies).1.last() == BusAction::Finish,
        forall|i: int|
            0 <= i < run(fresh(drive), replies).1.len() ==> run(fresh(drive), replies).1[i]
                != BusAction::ReadData,
{
    let p = replies.subrange(0, PRELUDE_OPS as int);
    let q = replies.subrange(0, PRELUDE_OPS + 1);
    lemma_prelude(drive, p);
    assert(q.drop_last() =~= p);
    assert(replies.drop_last() =~= q);
    lemma_run_unfold(fresh(drive), q);
    lemma_run_unfold(fresh(drive), replies);
    let acts = run(fresh(drive), replies).1;
    assert forall|i: int| 0 <= i < acts.len() implies acts[i] != BusAction::ReadData by {
        if i < PRELUDE_OPS {
            assert(acts[i] == prelude_op(i, drive));
        }
    }
}

/// First word of the serial number in the identify block.
pub const SERIAL_FIRST_WORD: usize = 10;

/// Word after the serial number.
pub const SERIAL_END_WORD: usize = 20;

/// First word of the model string in the identify block.
pub const MODEL_FIRST_WORD: usize = 27;

/// Word after the model string.
pub const MODEL_END_WORD: usize = 47;

/// Bytes of one sector.
pub const SECTOR_BYTES: u64 = 512;

/// The characters packed in `words[from..to]`: each word gives its high
/// byte, then its low byte.
pub open spec fn packed(words: Seq<u16>, from: int, to: int) -> Seq<char> {
    Seq::new(
        (2 * (to - from)) as nat,
        |k: int|
            if k % 2 == 0 {
                (words[from + k / 2] / 256) as u8 as char
            } else {
                (words[from + k / 2] % 256) as u8 as char
            },
    )
}

/// The text held in `words[from..to]`, trimmed of whitespace.
pub open spec fn identify_text(words: Seq<u16>, from: int, to: int) -> Seq<char> {
    trim_of(packed(words, from, to))
}

/// The 28-bit sector count of an identify block: word 61 high, word 60 low.
pub open spec fn sector_count(words: Seq<u16>) -> int {
    words[61] * 65536 + words[60]
}

/// A disk of `sectors` sectors in megabytes, if under 1000 of them, else in
/// gigabytes, both rounded down, with the unit's name.
pub open spec fn size_of(sectors: int) -> (int, Seq<char>) {
    let bytes = sectors * SECTOR_BYTES;
    if bytes / 0x100000 < 1000 {
        (bytes / 0x100000, "MB"@)
    } else {
        (bytes / 0x40000000, "GB"@)
    }
}

/// The size of a disk of `sectors` sectors, in megabytes under 1000 of
/// them and in gigabytes from there, with the unit.
pub fn disk_size(sectors: u32) -> (r: (u32, String))
    ensures
        r.0 == size_of(sectors as int).0,
        r.1@ == size_of(sectors as int).1,
{
    let bytes: u64 = sectors as u64 * SECTOR_BYTES;
    if bytes >> 20u64 < 1000 {
        assert(bytes >> 20u64 == bytes / 0x100000) by (bit_vector);
        ((bytes >> 20u64) as u32, String::from_str("MB"))
    } else {
        assert(bytes >> 30u64 == bytes / 0x40000000) by (bit_vector);
        assert(bytes >> 20u64 == bytes / 0x100000) by (bit_vector);
        ((bytes >> 30u64) as u32, String::from_str("GB"))
    }
}

/// The text packed in `words[from..to]`, trimmed.
fn identify_string(words: &Vec<u16>, from: usize, to: usize) -> (r: String)
    requires
        from <= to <= words@.len(),
    ensures
        r@ == identify_text(words@, from as int, to as int),
{
    let mut s = String::new();
    let mut i: usize = from;
    while i < to
        invariant
            from <= i <= to <= words@.len(),
            s@ == packed(words@, from as int, i as int),
        decreases to - i,
    {
        let w = words[i];
        let high: u8 = (w >> 8u16) as u8;
        let low: u8 = (w & 0xff) as u8;
        assert(high == w / 256 && low == w % 256) by (bit_vector)
            requires
                high == (w >> 8u16) as u8,
                low == (w & 0xff) as u8,
        ;
        push_char(&mut s, high as char);
        push_char(&mut s, low as char);
        i += 1;
        assert(s@ =~= packed(words@, from as int, i as int));
    }
    trim(&s)
}

/// What the identify block of one drive says of it.
pub struct DriveInfo {
    pub drive: u8,
    pub model: String,
    pub serial: String,
    pub size: u32,
    pub unit: String,
}

/// Whether `d` describes `drive` with identify block `words`.
pub open spec fn describes(d: DriveInfo, drive: u8, words: Seq<u16>) -> bool {
    &&& d.drive == drive
    &&& d.model@ == identify_text(words, MODEL_FIRST_WORD as int, MODEL_END_WORD as int)
    &&& d.serial@ == identify_text(words, SERIAL_FIRST_WORD as int, SERIAL_END_WORD as int)
    &&& d.size == size_of(sector_count(words)).0
    &&& d.unit@ == size_of(sector_count(words)).1
}

/// Whether `entry` is absent or a whole identify block.
pub open spec fn full_block(entry: Option<Vec<u16>>) -> bool {
    match entry {
        Some(w) => w@.len() == IDENTIFY_WORDS,
        None => true,
    }
}

/// Whether `d` describes drive `i`, whose identify attempt gave `entry`.
pub open spec fn describes_entry(d: DriveInfo, i: int, entry: Option<Vec<u16>>) -> bool {
    match entry {
        Some(w) => describes(d, i as u8, w@),
        None => false,
    }
}

/// Model, serial number and size of `drive` from its identify block.
pub fn drive_info(drive: u8, words: &Vec<u16>) -> (r: DriveInfo)
    requires
        words@.len() == IDENTIFY_WORDS,
    ensures
        describes(r, drive, words@),
{
    let serial = identify_string(words, SERIAL_FIRST_WORD, SERIAL_END_WORD);
    let model = identify_string(words, MODEL_FIRST_WORD, MODEL_END_WORD);
    let high: u32 = words[61] as u32;
    let low: u32 = words[60] as u32;
    let sectors: u32 = high << 16u32 | low;
    assert(sectors == high * 65536 + low) by (bit_vector)
        requires
            high < 65536,
            low < 65536,
            sectors == high << 16u32 | low,
    ;
    let (size, unit) = disk_size(sectors);
    DriveInfo { drive, model, serial, size, unit }
}

/// Positions of the drives whose identify attempt gave a block, in order.
pub open spec fn found_drives(identified: Seq<Option<Vec<u16>>>) -> Seq<int>
    decreases identified.len(),
{
    if identified.len() == 0 {
        Seq::empty()
    } else {
        let earlier = found_drives(identified.drop_last());
        if identified.last() is Some {
            earlier.push(identified.len() - 1)
        } else {
            earlier
        }
    }
}

/// The drives found on a channel: for each drive, in order, whose identify
/// attempt gave a block, what that block says of it. Drive `i` is the
/// `i`-th entry of `identified`.
pub fn info(identified: &Vec<Option<Vec<u16>>>) -> (r: Vec<DriveInfo>)
    requires
        identified@.len() <= 256,
        forall|i: int| 0 <= i < identified@.len() ==> #[trigger] full_block(identified@[i]),
    ensures
        r@.len() == found_drives(identified@).len(),
        forall|k: int|
            0 <= k < r@.len() ==> describes_entry(
                #[trigger] r@[k],
                found_drives(identified@)[k],
                identified@[found_drives(identified@)[k]],
            ),
{
    let mut r: Vec<DriveInfo> = Vec::new();
    let mut i: usize = 0;
    while i < identified.len()
        invariant
            i <= identified@.len() <= 256,
            forall|j: int| 0 <= j < identified@.len() ==> #[trigger] full_block(identified@[j]),
            r@.len() == found_drives(identified@.subrange(0, i as int)).len(),
            forall|k: int|
                0 <= k < r@.len() ==> describes_entry(
                    #[trigger] r@[k],
                    found_drives(identified@.subrange(0, i as int))[k],
                    identified@[found_drives(identified@.subrange(0, i as int))[k]],
                ),
        decreases identified@.len() - i,
    {
        assert(identified@.subrange(0, i + 1).drop_last() =~= identified@.subrange(0, i as int));
        match &identified[i] {
            Some(words) => {
                assert(full_block(identified@[i as int]));
                let d = drive_info(i as u8, words);
                r.push(d);
            },
            None => {},
        }
        i += 1;
    }
    assert(identified@.subrange(0, i as int) =~= identified@);
    r
}

} // verus!

use karxos::ata::{
    disk_size, drive_info, info, Bus, BusAction, IdentifyOutcome, Register,
};

/// A channel whose registers answer from fixed values.
struct SimBus {
    status_after_command: u8,
    busy_forever: bool,
    lba1: u8,
    lba2: u8,
    error: bool,
    ready: bool,
    words: Vec<u16>,
    clock: u64,
    commanded: bool,
    data_reads: usize,
    resets: usize,
    first_status_done: bool,
}

impl SimBus {
    fn present() -> SimBus {
        let mut words = vec![0u16; 256];
        words[60] = 0x0000;
        words[61] = 0x0010;
        SimBus {
            status_after_command: 0x58,
            busy_forever: false,
            lba1: 0,
            lba2: 0,
            error: false,
            ready: true,
            words,
            clock: 0,
            commanded: false,
            data_reads: 0,
            resets: 0,
            first_status_done: false,
        }
    }

    fn status(&mut self) -> u64 {
        if !self.first_status_done {
            self.first_status_done = true;
            return self.status_after_command as u64;
        }
        let mut s: u8 = 0;
        if self.busy_forever {
            s |= 0x80;
        }
        if self.error {
            s |= 0x01;
        }
        if self.ready {
            s |= 0x40;
        }
        s as u64
    }

    /// Runs one identify attempt; returns the outcome, the words and the actions.
    fn identify(&mut self, drive: u8) -> (Option<IdentifyOutcome>, Option<Vec<u16>>, Vec<BusAction>) {
        let bus = Bus::new(0, 0x1F0, 0x3F6, 14);
        let mut d = bus.identify_drive(drive);
        let mut reply: u64 = 0;
        let mut actions = Vec::new();
        for _ in 0..100_000 {
            let a = d.step(reply);
            actions.push(a);
            reply = match a {
                BusAction::Write(Register::Control, 4) => {
                    self.resets += 1;
                    0
                }
                BusAction::Write(Register::Command, _) => {
                    self.commanded = true;
                    0
                }
                BusAction::Write(_, _) | BusAction::Wait(_) => 0,
                BusAction::Read(Register::Status) => self.status(),
                BusAction::Read(Register::Lba1) => self.lba1 as u64,
                BusAction::Read(Register::Lba2) => self.lba2 as u64,
                BusAction::Read(_) => 0x50,
                BusAction::ReadClock => {
                    self.clock += 7;
                    self.clock
                }
                BusAction::ReadData => {
                    let w = self.words[self.data_reads];
                    self.data_reads += 1;
                    w as u64
                }
                BusAction::Finish => break,
            };
        }
        let outcome = d.outcome();
        (outcome, d.into_identity(), actions)
    }
}

#[test]
fn present_drive_is_identified() {
    let mut sim = SimBus::present();
    sim.words[10] = u16::from_be_bytes(*b"QM");
    let (outcome, words, actions) = sim.identify(0);
    assert_eq!(outcome, Some(IdentifyOutcome::Identified));
    let words = words.unwrap();
    assert_eq!(words.len(), 256);
    assert_eq!(words[10], sim.words[10]);
    assert_eq!(sim.data_reads, 256);
    assert_eq!(sim.resets, 1);
    assert_eq!(actions[0], BusAction::Write(Register::Control, 4));
    assert_eq!(actions[1], BusAction::Wait(5));
    assert_eq!(actions[2], BusAction::Write(Register::Control, 0));
    assert_eq!(actions[3], BusAction::Wait(2000));
    assert_eq!(actions[8], BusAction::Write(Register::Drive, 0xA0));
    assert_eq!(actions[13], BusAction::Write(Register::Command, 0xEC));
}

#[test]
fn slave_drive_select_sets_bit_four() {
    let mut sim = SimBus::present();
    let (_, _, actions) = sim.identify(1);
    assert_eq!(actions[8], BusAction::Write(Register::Drive, 0xB0));
}

#[test]
fn zero_status_means_no_drive() {
    let mut sim = SimBus::present();
    sim.status_after_command = 0;
    let (outcome, words, actions) = sim.identify(0);
    assert_eq!(outcome, Some(IdentifyOutcome::NoDevice));
    assert!(words.is_none());
    assert_eq!(sim.data_reads, 0);
    assert!(!actions.contains(&BusAction::ReadData));
    assert_eq!(actions.len(), 16);
}

#[test]
fn busy_forever_times_out_with_one_reset() {
    let mut sim = SimBus::present();
    sim.busy_forever = true;
    let (outcome, words, actions) = sim.identify(0);
    assert!(words.is_none());
    assert_eq!(outcome, Some(IdentifyOutcome::TimedOut));
    // More than one second of ticks passed in the busy wait.
    assert!(sim.clock > 1000);
    // The opening reset, then exactly one more, after which the attempt ends.
    assert_eq!(sim.resets, 2);
    let n = actions.len();
    assert_eq!(actions[n - 5], BusAction::Write(Register::Control, 4));
    assert_eq!(actions[n - 4], BusAction::Wait(5));
    assert_eq!(actions[n - 3], BusAction::Write(Register::Control, 0));
    assert_eq!(actions[n - 2], BusAction::Wait(2000));
    assert_eq!(actions[n - 1], BusAction::Finish);
    assert!(actions[14..n - 5].iter().all(|a| *a != BusAction::Write(Register::Control, 4)));
    assert!(!actions.contains(&BusAction::Read(Register::Lba1)));
    assert_eq!(sim.data_reads, 0);
}

#[test]
fn busy_then_ready_is_identified() {
    // Busy for a while, but well within the deadline.
    let bus = Bus::new(0, 0x1F0, 0x3F6, 14);
    let mut d = bus.identify_drive(0);
    let mut reply: u64 = 0;
    let mut polls = 0;
    loop {
        let a = d.step(reply);
        reply = match a {
            BusAction::Read(Register::Status) => {
                polls += 1;
                if polls == 1 { 0x58 } else if polls < 10 { 0x80 } else { 0x40 }
            }
            BusAction::ReadClock => polls as u64,
            BusAction::ReadData => 7,
            BusAction::Finish => break,
            _ => 0,
        };
    }
    assert_eq!(d.outcome(), Some(IdentifyOutcome::Identified));
    assert_eq!(d.words()[255], 7);
}

#[test]
fn nonzero_signature_is_not_ata() {
    let mut sim = SimBus::present();
    sim.lba1 = 0x14;
    sim.lba2 = 0xEB;
    let (outcome, words, _) = sim.identify(0);
    assert_eq!(outcome, Some(IdentifyOutcome::NotAta));
    assert!(words.is_none());
    assert_eq!(sim.data_reads, 0);

    let mut sim = SimBus::present();
    sim.lba2 = 0x01;
    let (outcome, _, _) = sim.identify(0);
    assert_eq!(outcome, Some(IdentifyOutcome::NotAta));
    assert_eq!(sim.data_reads, 0);
}

#[test]
fn error_flag_aborts() {
    let mut sim = SimBus::present();
    sim.error = true;
    let (outcome, words, _) = sim.identify(0);
    assert_eq!(outcome, Some(IdentifyOutcome::DeviceError));
    assert!(words.is_none());
}

#[test]
fn never_ready_hits_poll_cap() {
    let mut sim = SimBus::present();
    sim.ready = false;
    let (outcome, _, actions) = sim.identify(0);
    assert_eq!(outcome, Some(IdentifyOutcome::NotReady));
    // Opening reset plus the reset after the poll cap.
    assert_eq!(sim.resets, 2);
    let status_polls = actions
        .iter()
        .skip_while(|a| **a != BusAction::Read(Register::Lba2))
        .filter(|a| **a == BusAction::Read(Register::Status))
        .count();
    assert_eq!(status_polls, 512);
}

#[test]
fn bus_ports() {
    let bus = Bus::new(0, 0x1F0, 0x3F6, 14);
    assert_eq!(bus.port(Register::Data), 0x1F0);
    assert_eq!(bus.port(Register::Status), 0x1F7);
    assert_eq!(bus.port(Register::Lba2), 0x1F5);
    assert_eq!(bus.port(Register::Control), 0x3F6);
    assert_eq!(bus.port(Register::DriveAddress), 0x3F7);
    assert_eq!(bus.irq(), 14);
    assert_eq!(bus.id(), 0);
}

#[test]
fn size_of_half_gigabyte_disk_in_megabytes() {
    let (size, unit) = disk_size(1_048_576);
    assert_eq!(size, 512);
    assert_eq!(unit, "MB");
}

#[test]
fn size_of_large_disk_in_gigabytes() {
    assert_eq!(disk_size(2_097_152), (1, String::from("GB")));
    assert_eq!(disk_size(2_047_999), (999, String::from("MB")));
    assert_eq!(disk_size(2_048_000), (0, String::from("GB")));
    assert_eq!(disk_size(0x0FFF_FFFF), (127, String::from("GB")));
}

fn pack(words: &mut [u16], from: usize, text: &str, len: usize) {
    let mut bytes: Vec<u8> = text.bytes().collect();
    bytes.resize(len * 2, b' ');
    for i in 0..len {
        words[from + i] = u16::from_be_bytes([bytes[2 * i], bytes[2 * i + 1]]);
    }
}

#[test]
fn drive_info_reads_model_serial_and_size() {
    let mut words = vec![0u16; 256];
    pack(&mut words, 10, "    QM00001", 10);
    pack(&mut words, 27, "QEMU HARDDISK", 20);
    words[60] = 0x0000;
    words[61] = 0x0010;
    let d = drive_info(1, &words);
    assert_eq!(d.drive, 1);
    assert_eq!(d.serial, "QM00001");
    assert_eq!(d.model, "QEMU HARDDISK");
    assert_eq!(d.size, 512);
    assert_eq!(d.unit, "MB");
}

#[test]
fn info_skips_absent_drives() {
    let mut words = vec![0u16; 256];
    pack(&mut words, 27, "DISK", 20);
    let r = info(&vec![None, Some(words)]);
    assert_eq!(r.len(), 1);
    assert_eq!(r[0].drive, 1);
    assert_eq!(r[0].model, "DISK");
    // NUL is not whitespace: an all-zero serial stays.
    assert_eq!(r[0].serial, "\0".repeat(20));
    assert_eq!((r[0].size, r[0].unit.as_str()), (0, "MB"));
}

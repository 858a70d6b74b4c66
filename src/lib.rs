//! Interrupt and driver layer of a small single-core kernel: console,
//! timer service, interrupt dispatch decisions and ATA drive identification.
//!
//! Hardware access is kept out of this crate: every driver here decides
//! which port operations to perform and what their results mean, and the
//! caller performs them.

pub mod ata;
pub mod clock;
pub mod interrupts;
pub mod port;
pub mod shell;
pub mod text;
pub mod vga_buffer;

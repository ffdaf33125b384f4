//! A verified CHIP-8 virtual machine core.
//!
//! The machine owns a 4096-byte memory, sixteen 8-bit registers, a sixteen
//! slot call stack, a 64x32 monochrome display, a sixteen-key keypad and two
//! countdown timers. The instruction cycle (`Emu::tick`), the timer cycle
//! (`Emu::tick_timers`) and the lifecycle operations (`Emu::new`,
//! `Emu::reset`, `Emu::load`) are specified against a mathematical view of
//! the whole machine state and verified.

pub mod emu;
pub mod exec;
pub mod laws;
pub mod save;
pub mod themes;

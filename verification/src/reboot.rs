//! Ending the machine's run.

use vstd::prelude::*;

use crate::port::PortWrite;

verus! {

/// The keyboard controller's port for status and commands.
pub const CONTROLLER_PORT: u16 = 0x64;

/// The status bit for a full input buffer.
pub const INPUT_FULL: u8 = 0x02;

/// The command that pulses the reset line.
pub const CMD_RESET: u8 = 0xFE;

/// The emulator's power management port.
pub const POWER_PORT: u16 = 0x604;

/// The value that turns the power off.
pub const POWER_OFF: u16 = 0x2000;

/// What resets the machine, given the keyboard controller's status; `None` while the controller
/// is busy and its status has to be read again.
pub fn reboot(status: u8) -> (r: Option<PortWrite>)
    ensures
        r == (if status & INPUT_FULL == 0 {
            Some(PortWrite::Byte { port: CONTROLLER_PORT, value: CMD_RESET })
        } else {
            None
        }),
{
    if status & INPUT_FULL != 0 {
        None
    } else {
        Some(PortWrite::Byte { port: CONTROLLER_PORT, value: CMD_RESET })
    }
}

/// What turns the machine off.
pub fn poweroff() -> (r: PortWrite)
    ensures
        r == (PortWrite::Word { port: POWER_PORT, value: POWER_OFF }),
{
    PortWrite::Word { port: POWER_PORT, value: POWER_OFF }
}

/// What halts the machine: nothing is written, the processor just stops.
pub fn halt() -> (r: Vec<PortWrite>)
    ensures
        r@.len() == 0,
{
    Vec::new()
}

} // verus!

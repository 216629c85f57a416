//! Leaving the emulator.

use vstd::prelude::*;

use crate::port::PortWrite;

verus! {

/// The port of the device that ends the emulator.
pub const EXIT_PORT: u16 = 0xf4;

/// How a run ended.
#[derive(Debug, Clone, Copy, PartialEq, Eq, Structural)]
pub enum QemuExitCode {
    Success,
    Failed,
}

/// The number that stands for an ending.
pub open spec fn code_of(exit_code: QemuExitCode) -> u32 {
    match exit_code {
        QemuExitCode::Success => 0x10,
        QemuExitCode::Failed => 0x11,
    }
}

/// The exit status of the emulator's process when `value` was written.
pub open spec fn status_of(value: u32) -> int {
    value * 2 + 1
}

/// What ends the emulator.
pub fn exit_qemu(exit_code: QemuExitCode) -> (r: PortWrite)
    ensures
        r == (PortWrite::Long { port: EXIT_PORT, value: code_of(exit_code) }),
{
    let value: u32 = match exit_code {
        QemuExitCode::Success => 0x10,
        QemuExitCode::Failed => 0x11,
    };
    PortWrite::Long { port: EXIT_PORT, value }
}

/// Different endings give different exit statuses, and none gives that of a run that ended by
/// itself.
pub proof fn law_endings_distinct(a: QemuExitCode, b: QemuExitCode)
    ensures
        a != b ==> status_of(code_of(a)) != status_of(code_of(b)),
        status_of(code_of(a)) != 0,
{
}

} // verus!

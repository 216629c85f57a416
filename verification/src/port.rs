//! What is written to I/O ports, as plain data.

use vstd::prelude::*;

verus! {

/// One write to an I/O port.
#[allow(inconsistent_fields)]
#[derive(Debug, Clone, Copy, PartialEq, Eq, Structural)]
pub enum PortWrite {
    Byte { port: u16, value: u8 },
    Word { port: u16, value: u16 },
    Long { port: u16, value: u32 },
}

} // verus!

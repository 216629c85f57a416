//! The interval timer.

use vstd::prelude::*;

use crate::port::PortWrite;

verus! {

pub const CHANNEL0_DATA: u16 = 0x40;

pub const COMMAND: u16 = 0x43;

/// How often the timer's input clock ticks in a second.
pub const BASE_FREQUENCY: u32 = 1_193_182;

/// Channel 0, low byte then high byte, square wave, binary counting.
pub const CMD_CHANNEL0_SQUARE_WAVE: u8 = 0x36;

/// How often the timer interrupts in a second.
pub const TIMER_HZ: u32 = 100;

/// How many ticks of the input clock lie between two interrupts.
pub open spec fn divisor() -> int {
    BASE_FREQUENCY as int / TIMER_HZ as int
}

/// What sets the timer to its rate.
pub fn init() -> (r: Vec<PortWrite>)
    ensures
        r@ == seq![
            PortWrite::Byte { port: COMMAND, value: CMD_CHANNEL0_SQUARE_WAVE },
            PortWrite::Byte { port: CHANNEL0_DATA, value: (divisor() % 256) as u8 },
            PortWrite::Byte { port: CHANNEL0_DATA, value: (divisor() / 256) as u8 },
        ],
{
    let divisor: u16 = (BASE_FREQUENCY / TIMER_HZ) as u16;
    let r: Vec<PortWrite> = vec![
        PortWrite::Byte { port: COMMAND, value: CMD_CHANNEL0_SQUARE_WAVE },
        PortWrite::Byte { port: CHANNEL0_DATA, value: (divisor % 256) as u8 },
        PortWrite::Byte { port: CHANNEL0_DATA, value: (divisor / 256) as u8 },
    ];
    assert(r@ =~= seq![
        PortWrite::Byte { port: COMMAND, value: CMD_CHANNEL0_SQUARE_WAVE },
        PortWrite::Byte { port: CHANNEL0_DATA, value: (self::divisor() % 256) as u8 },
        PortWrite::Byte { port: CHANNEL0_DATA, value: (self::divisor() / 256) as u8 },
    ]);
    r
}

} // verus!

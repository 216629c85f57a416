//! The pair of 8259 interrupt controllers.

use vstd::prelude::*;

use crate::port::PortWrite;

verus! {

pub const PIC1_COMMAND: u16 = 0x20;

pub const PIC1_DATA: u16 = 0x21;

pub const PIC2_COMMAND: u16 = 0xA0;

pub const PIC2_DATA: u16 = 0xA1;

/// A write to this port does nothing but take time.
pub const WAIT_PORT: u16 = 0x80;

pub const CMD_INIT: u8 = 0x11;

pub const CMD_END_OF_INTERRUPT: u8 = 0x20;

pub const MODE_8086: u8 = 0x01;

/// The first vector of the first controller.
pub const PIC_1_OFFSET: u8 = 32;

/// The first vector of the second controller.
pub const PIC_2_OFFSET: u8 = 40;

/// A write of one byte.
pub open spec fn out(port: u16, value: u8) -> PortWrite {
    PortWrite::Byte { port, value }
}

/// What moves both controllers to their vectors, each step with time to take effect, and puts the
/// masks back that were in place.
pub open spec fn init_writes(mask1: u8, mask2: u8) -> Seq<PortWrite> {
    let wait = out(WAIT_PORT, 0);
    seq![
        out(PIC1_COMMAND, CMD_INIT),
        wait,
        out(PIC2_COMMAND, CMD_INIT),
        wait,
        out(PIC1_DATA, PIC_1_OFFSET),
        wait,
        out(PIC2_DATA, PIC_2_OFFSET),
        wait,
        out(PIC1_DATA, 4),
        wait,
        out(PIC2_DATA, 2),
        wait,
        out(PIC1_DATA, MODE_8086),
        wait,
        out(PIC2_DATA, MODE_8086),
        wait,
        out(PIC1_DATA, mask1),
        out(PIC2_DATA, mask2),
    ]
}

fn write_byte(port: u16, value: u8) -> (r: PortWrite)
    ensures
        r == out(port, value),
{
    PortWrite::Byte { port, value }
}

/// What moves both controllers to their vectors. The masks are what the data ports read before.
pub fn init(mask1: u8, mask2: u8) -> (r: Vec<PortWrite>)
    ensures
        r@ == init_writes(mask1, mask2),
{
    let wait: PortWrite = write_byte(WAIT_PORT, 0);
    let r: Vec<PortWrite> = vec![
        write_byte(PIC1_COMMAND, CMD_INIT),
        wait,
        write_byte(PIC2_COMMAND, CMD_INIT),
        wait,
        write_byte(PIC1_DATA, PIC_1_OFFSET),
        wait,
        write_byte(PIC2_DATA, PIC_2_OFFSET),
        wait,
        write_byte(PIC1_DATA, 4),
        wait,
        write_byte(PIC2_DATA, 2),
        wait,
        write_byte(PIC1_DATA, MODE_8086),
        wait,
        write_byte(PIC2_DATA, MODE_8086),
        wait,
        write_byte(PIC1_DATA, mask1),
        write_byte(PIC2_DATA, mask2),
    ];
    assert(r@ =~= init_writes(mask1, mask2));
    r
}

/// What ends an interrupt: both controllers are told where it came through the second, which
/// hangs on the first.
pub fn notify_end_of_interrupt(vector: u8) -> (r: Vec<PortWrite>)
    requires
        PIC_1_OFFSET <= vector < PIC_2_OFFSET + 8,
    ensures
        r@ == (if vector >= PIC_2_OFFSET {
            seq![
                out(PIC2_COMMAND, CMD_END_OF_INTERRUPT),
                out(PIC1_COMMAND, CMD_END_OF_INTERRUPT),
            ]
        } else {
            seq![out(PIC1_COMMAND, CMD_END_OF_INTERRUPT)]
        }),
{
    let mut r: Vec<PortWrite> = Vec::new();
    if vector >= PIC_2_OFFSET {
        r.push(write_byte(PIC2_COMMAND, CMD_END_OF_INTERRUPT));
    }
    r.push(write_byte(PIC1_COMMAND, CMD_END_OF_INTERRUPT));
    proof {
        if vector >= PIC_2_OFFSET {
            assert(r@ =~= seq![
                out(PIC2_COMMAND, CMD_END_OF_INTERRUPT),
                out(PIC1_COMMAND, CMD_END_OF_INTERRUPT),
            ]);
        } else {
            assert(r@ =~= seq![out(PIC1_COMMAND, CMD_END_OF_INTERRUPT)]);
        }
    }
    r
}

} // verus!

//! The serial port that carries the kernel's messages.

use vstd::prelude::*;

use crate::bytes::push_all;
use crate::port::PortWrite;

verus! {

/// The status bit for a transmitter that takes another byte.
pub const LSR_TRANSMIT_EMPTY: u8 = 0x20;

/// The base of the first port.
pub const COM1: u16 = 0x3F8;

/// A port, by its base.
#[derive(Debug, Clone, Copy, PartialEq, Eq, Structural)]
pub struct SerialPort {
    pub base: u16,
}

/// A write of one byte.
pub open spec fn out(port: int, value: u8) -> PortWrite {
    PortWrite::Byte { port: port as u16, value }
}

/// What sets a port up: 38400 baud, eight data bits, no parity, one stop bit.
pub open spec fn init_writes(base: u16) -> Seq<PortWrite> {
    seq![
        out(base + 1, 0x00),
        out(base + 3, 0x80),
        out(base + 0, 0x03),
        out(base + 1, 0x00),
        out(base + 3, 0x03),
        out(base + 2, 0xc7),
        out(base + 4, 0x0b),
        out(base + 1, 0x01),
    ]
}

/// What a byte becomes on the wire: a backspace also wipes out the character.
pub open spec fn wire(byte: u8) -> Seq<u8> {
    if byte == 0x08 || byte == 0x7f {
        seq![0x08u8, 0x20u8, 0x08u8]
    } else {
        seq![byte]
    }
}

/// What bytes become on the wire.
pub open spec fn wire_all(bytes: Seq<u8>) -> Seq<u8>
    decreases bytes.len(),
{
    if bytes.len() == 0 {
        Seq::empty()
    } else {
        wire_all(bytes.drop_last()) + wire(bytes.last())
    }
}

impl SerialPort {
    /// The port at `base`.
    pub fn new(base: u16) -> (r: Self)
        ensures
            r.base == base,
    {
        SerialPort { base }
    }

    /// What sets the port up.
    pub fn init(&self) -> (r: Vec<PortWrite>)
        requires
            self.base <= 65530,
        ensures
            r@ == init_writes(self.base),
    {
        let base: u16 = self.base;
        let r: Vec<PortWrite> = vec![
            PortWrite::Byte { port: base + 1, value: 0x00 },
            PortWrite::Byte { port: base + 3, value: 0x80 },
            PortWrite::Byte { port: base, value: 0x03 },
            PortWrite::Byte { port: base + 1, value: 0x00 },
            PortWrite::Byte { port: base + 3, value: 0x03 },
            PortWrite::Byte { port: base + 2, value: 0xc7 },
            PortWrite::Byte { port: base + 4, value: 0x0b },
            PortWrite::Byte { port: base + 1, value: 0x01 },
        ];
        assert(r@ =~= init_writes(base));
        r
    }

    /// What sends one byte, given the line status; `None` while the transmitter is busy and the
    /// status has to be read again.
    pub fn send_raw(&self, line_status: u8, byte: u8) -> (r: Option<PortWrite>)
        ensures
            r == (if line_status & LSR_TRANSMIT_EMPTY != 0 {
                Some(PortWrite::Byte { port: self.base, value: byte })
            } else {
                None
            }),
    {
        if line_status & LSR_TRANSMIT_EMPTY == 0 {
            None
        } else {
            Some(PortWrite::Byte { port: self.base, value: byte })
        }
    }

    /// The bytes that go on the wire for `byte`.
    pub fn send(&self, byte: u8) -> (r: Vec<u8>)
        ensures
            r@ == wire(byte),
    {
        let r: Vec<u8> = if byte == 0x08 || byte == 0x7f {
            vec![0x08u8, 0x20u8, 0x08u8]
        } else {
            vec![byte]
        };
        assert(r@ =~= wire(byte));
        r
    }

    /// The bytes that go on the wire for a message.
    pub fn write_str(&self, message: &[u8]) -> (r: Vec<u8>)
        ensures
            r@ == wire_all(message@),
    {
        let mut r: Vec<u8> = Vec::new();
        let mut i: usize = 0;
        assert(message@.take(0) =~= Seq::<u8>::empty());
        while i < message.len()
            invariant
                i <= message@.len(),
                r@ == wire_all(message@.take(i as int)),
            decreases message@.len() - i,
        {
            let bytes = self.send(message[i]);
            push_all(&mut r, bytes.as_slice());
            assert(message@.take(i + 1).drop_last() =~= message@.take(i as int));
            i += 1;
        }
        assert(message@.take(i as int) =~= message@);
        r
    }
}

/// A message goes out piece by piece as it would in one piece.
pub proof fn law_pieces(a: Seq<u8>, b: Seq<u8>)
    ensures
        wire_all(a + b) == wire_all(a) + wire_all(b),
    decreases b.len(),
{
    if b.len() == 0 {
        assert(a + b =~= a);
        assert(wire_all(a) + wire_all(b) =~= wire_all(a));
    } else {
        assert((a + b).drop_last() =~= a + b.drop_last());
        law_pieces(a, b.drop_last());
        assert(wire_all(a + b) =~= wire_all(a) + wire_all(b));
    }
}

/// A message without backspaces goes out as it is.
pub proof fn law_plain_text(s: Seq<u8>)
    requires
        forall|i: int| 0 <= i < s.len() ==> s[i] != 0x08 && s[i] != 0x7f,
    ensures
        wire_all(s) == s,
    decreases s.len(),
{
    if s.len() == 0 {
        assert(wire_all(s) =~= s);
    } else {
        law_plain_text(s.drop_last());
        assert(wire_all(s) =~= s);
    }
}

} // verus!

//! The Realtek RTL8139 card: what is written to its registers, and how its receive ring is read.

use vstd::prelude::*;

use crate::bytes::{copy_range, push_all};
use crate::net::nic::{MacAddr, NicError};
use crate::port::PortWrite;

verus! {

pub const RTL8139_VENDOR: u16 = 0x10EC;

pub const RTL8139_DEVICE: u16 = 0x8139;

pub const REG_MAC: u16 = 0x00;

/// Where the address of each transmit buffer goes.
pub const REG_TSAD: [u16; 4] = [0x20, 0x24, 0x28, 0x2C];

/// Where the length of each transmit buffer goes, which sends it.
pub const REG_TSD: [u16; 4] = [0x10, 0x14, 0x18, 0x1C];

pub const REG_RBSTART: u16 = 0x30;

pub const REG_CR: u16 = 0x37;

pub const REG_CAPR: u16 = 0x38;

pub const REG_IMR: u16 = 0x3C;

pub const REG_ISR: u16 = 0x3E;

pub const REG_RCR: u16 = 0x44;

pub const REG_CONFIG1: u16 = 0x52;

/// The command register's bit for an empty receive ring.
pub const CR_BUFFER_EMPTY: u8 = 0x01;

/// The command register's bit for a reset, which the card clears when it is through.
pub const CR_RESET: u8 = 0x10;

/// Receiving and transmitting are on.
pub const CR_ENABLE: u8 = 0x0C;

/// Interrupts for a received and a transmitted frame.
pub const ISR_ROK_TOK: u16 = 0x05;

/// Take frames to anybody, and let a frame run past the end of the ring.
pub const RCR_ACCEPT_WRAP: u32 = 0x8F;

/// Where the read position in the ring goes back to the start.
pub const RX_RING_SIZE: u32 = 8192;

/// Frames of memory for the ring: room for a frame that runs past the end.
pub const RX_RING_FRAMES: usize = 3;

/// Bytes of memory for the ring.
pub const RX_RING_BYTES: usize = 12288;

pub const NUM_TX_SLOTS: usize = 4;

pub const TX_SLOT_LEN: usize = 4096;

/// The shortest frame that goes on the wire.
pub const ETHERNET_MIN_FRAME: usize = 60;

/// How often the card is asked whether its reset is through.
pub const RESET_ATTEMPTS: u32 = 1_000_000;

/// The highest base from which every register has a port: the last port less the offset of the
/// highest register, `REG_CONFIG1`.
pub const IO_BASE_MAX: u16 = 0xFFAD;

/// The highest physical address.
pub const PHYS_ADDR_MAX: u64 = 0xF_FFFF_FFFF_FFFF;

/// A network device on the PCI bus.
#[derive(Debug, Clone, Copy, PartialEq, Eq, Structural)]
pub struct Candidate {
    pub vendor_id: u16,
    pub device_id: u16,
    pub io_bar: Option<u16>,
}

/// The card, once it is up.
pub struct Rtl8139 {
    pub io_base: u16,
    pub mac: MacAddr,
    pub rx_read_offset: u16,
    pub tx_phys: [u64; 4],
    pub next_tx_slot: usize,
}

impl Rtl8139 {
    /// The read position is one where a packet can start, and the next slot is one.
    pub open spec fn wf(&self) -> bool {
        &&& self.io_base <= IO_BASE_MAX
        &&& self.rx_read_offset < RX_RING_SIZE
        &&& self.rx_read_offset % 4 == 0
        &&& self.next_tx_slot < NUM_TX_SLOTS
    }
}

// ---------------------------------------------------------------------------------------------
// Bringing the card up
// ---------------------------------------------------------------------------------------------
/// The I/O base of a device that is this card.
pub fn probe(candidate: Option<Candidate>) -> (r: Option<u16>)
    ensures
        r == taken(candidate),
{
    match candidate {
        Some(c) => if c.vendor_id != RTL8139_VENDOR || c.device_id != RTL8139_DEVICE {
            None
        } else {
            c.io_bar
        },
        None => None,
    }
}

/// What wakes the card and starts its reset.
pub open spec fn reset_writes_of(io_base: u16) -> Seq<PortWrite> {
    seq![
        PortWrite::Byte { port: (io_base + REG_CONFIG1) as u16, value: 0 },
        PortWrite::Byte { port: (io_base + REG_CR) as u16, value: CR_RESET },
    ]
}

/// What wakes the card and starts its reset.
pub fn reset_writes(io_base: u16) -> (r: Vec<PortWrite>)
    requires
        io_base <= IO_BASE_MAX,
    ensures
        r@ == reset_writes_of(io_base),
{
    let r: Vec<PortWrite> = vec![
        PortWrite::Byte { port: io_base + REG_CONFIG1, value: 0 },
        PortWrite::Byte { port: io_base + REG_CR, value: CR_RESET },
    ];
    assert(r@ =~= reset_writes_of(io_base));
    r
}

/// Where a reset stands.
#[derive(Debug, Clone, Copy, PartialEq, Eq, Structural)]
pub enum ResetStep {
    Done,
    /// Read the command register again, with this many tries behind.
    Again(u32),
    GiveUp,
}

/// Looks at the command register after `attempts` tries that found the reset going on.
pub fn reset_step(cr: u8, attempts: u32) -> (r: ResetStep)
    requires
        attempts <= RESET_ATTEMPTS,
    ensures
        r == (if cr & CR_RESET == 0 {
            ResetStep::Done
        } else if attempts == RESET_ATTEMPTS {
            ResetStep::GiveUp
        } else {
            ResetStep::Again((attempts + 1) as u32)
        }),
{
    if cr & CR_RESET == 0 {
        ResetStep::Done
    } else if attempts + 1 > RESET_ATTEMPTS {
        ResetStep::GiveUp
    } else {
        ResetStep::Again(attempts + 1)
    }
}

/// The port of byte `i` of the card's hardware address.
pub fn mac_port(io_base: u16, i: u16) -> (r: u16)
    requires
        io_base <= IO_BASE_MAX,
        i < 6,
    ensures
        r == io_base + REG_MAC + i,
{
    io_base + REG_MAC + i
}

/// Whether `frame` is the one that comes `have` frames after `base`, or the first of all.
pub open spec fn follows(base: u64, have: usize, frame: Option<u64>) -> bool {
    frame matches Some(f) && (have == 0 || f == base + 4096 * have)
}

/// Takes one more frame into a run of `have` frames that begins at `base`. The result is where the
/// run begins; `None` where there is no frame, or it does not follow the others.
pub fn allocate_contiguous_frames(base: u64, have: usize, frame: Option<u64>) -> (r: Option<u64>)
    requires
        have < RX_RING_FRAMES,
        base <= PHYS_ADDR_MAX,
    ensures
        r == (if !follows(base, have, frame) {
            None
        } else if have == 0 {
            frame
        } else {
            Some(base)
        }),
{
    match frame {
        None => None,
        Some(f) => if have == 0 {
            Some(f)
        } else if f == base + 4096 * have as u64 {
            Some(base)
        } else {
            None
        },
    }
}

/// What points the card at its ring and turns it on.
pub open spec fn enable_writes_of(io_base: u16, rx_ring_phys: u64) -> Seq<PortWrite> {
    seq![
        PortWrite::Long {
            port: (io_base + REG_RBSTART) as u16,
            value: (rx_ring_phys % 0x1_0000_0000) as u32,
        },
        PortWrite::Long { port: (io_base + REG_RCR) as u16, value: RCR_ACCEPT_WRAP },
        PortWrite::Word { port: (io_base + REG_IMR) as u16, value: ISR_ROK_TOK },
        PortWrite::Byte { port: (io_base + REG_CR) as u16, value: CR_ENABLE },
    ]
}

/// The card after its reset: the driver's state, and what points the card at its ring and turns
/// it on.
pub fn bring_up(io_base: u16, mac: MacAddr, rx_ring_phys: u64, tx_phys: [u64; 4]) -> (r: (
    Rtl8139,
    Vec<PortWrite>,
))
    requires
        io_base <= IO_BASE_MAX,
    ensures
        r.0.wf(),
        r.0 == (Rtl8139 { io_base, mac, rx_read_offset: 0, tx_phys, next_tx_slot: 0 }),
        r.1@ == enable_writes_of(io_base, rx_ring_phys),
{
    let writes: Vec<PortWrite> = vec![
        PortWrite::Long {
            port: io_base + REG_RBSTART,
            value: (rx_ring_phys % 0x1_0000_0000) as u32,
        },
        PortWrite::Long { port: io_base + REG_RCR, value: RCR_ACCEPT_WRAP },
        PortWrite::Word { port: io_base + REG_IMR, value: ISR_ROK_TOK },
        PortWrite::Byte { port: io_base + REG_CR, value: CR_ENABLE },
    ];
    assert(writes@ =~= enable_writes_of(io_base, rx_ring_phys));
    (Rtl8139 { io_base, mac, rx_read_offset: 0, tx_phys, next_tx_slot: 0 }, writes)
}

/// How far bringing the card up has come.
#[derive(Clone, Copy)]
pub enum Probe {
    /// The bus is asked for a network device.
    Begin,
    /// The card resets; so many reads of the command register found it at that.
    Resetting { io_base: u16, attempts: u32 },
    /// The hardware address is read, and `have` bytes of it are there.
    ReadingMac { io_base: u16, mac: MacAddr, have: usize },
    /// Frames for the ring are allocated; `have` of them are there, from `base` on.
    Ring { io_base: u16, mac: MacAddr, base: u64, have: usize },
    /// Transmit buffers are allocated, and `have` of them are there.
    Buffers { io_base: u16, mac: MacAddr, base: u64, tx: [u64; 4], have: usize },
}

/// What was found out last.
#[derive(Clone, Copy)]
pub enum ProbeEvent {
    /// The network device on the bus, if there is one.
    Device(Option<Candidate>),
    /// What the command register reads.
    Command(u8),
    /// One byte of the hardware address.
    MacByte(u8),
    /// A frame of memory, if there was one.
    Frame(Option<u64>),
}

/// What bringing the card up does next.
pub enum ProbeStep {
    /// There is no card to drive.
    GiveUp,
    /// Let the device master the bus, write these, then read the command register.
    Reset(Probe, Vec<PortWrite>),
    /// Read the command register again.
    ReadCommand(Probe),
    /// Read this port for the next byte of the hardware address.
    ReadMac(Probe, u16),
    /// Allocate a frame.
    Allocate(Probe),
    /// Write these; the card is up.
    Up(Rtl8139, Vec<PortWrite>),
}

/// Whether a state of bringing the card up is one.
pub open spec fn probe_ok(p: Probe) -> bool {
    match p {
        Probe::Begin => true,
        Probe::Resetting { io_base, attempts } => io_base <= IO_BASE_MAX && attempts
            <= RESET_ATTEMPTS,
        Probe::ReadingMac { io_base, mac, have } => io_base <= IO_BASE_MAX && have < 6,
        Probe::Ring { io_base, mac, base, have } => io_base <= IO_BASE_MAX && have
            < RX_RING_FRAMES && base <= PHYS_ADDR_MAX,
        Probe::Buffers { io_base, mac, base, tx, have } => io_base <= IO_BASE_MAX && have
            < NUM_TX_SLOTS && base <= PHYS_ADDR_MAX,
    }
}

/// Whether an event is the one that a state waits for, with addresses that can be.
pub open spec fn event_ok(p: Probe, e: ProbeEvent) -> bool {
    match (p, e) {
        (Probe::Begin, ProbeEvent::Device(d)) => taken(d) matches Some(b) ==> b <= IO_BASE_MAX,
        (Probe::Resetting { .. }, ProbeEvent::Command(_)) => true,
        (Probe::ReadingMac { .. }, ProbeEvent::MacByte(_)) => true,
        (Probe::Ring { .. }, ProbeEvent::Frame(f)) => f matches Some(a) ==> a <= PHYS_ADDR_MAX,
        (Probe::Buffers { .. }, ProbeEvent::Frame(f)) => f matches Some(a) ==> a
            <= PHYS_ADDR_MAX,
        _ => false,
    }
}

/// The device that is taken, by its I/O base.
pub open spec fn taken(d: Option<Candidate>) -> Option<u16> {
    match d {
        Some(c) => if c.vendor_id == RTL8139_VENDOR && c.device_id == RTL8139_DEVICE {
            c.io_bar
        } else {
            None
        },
        None => None,
    }
}

/// Whether a step is the right one: the device must be this card and have its registers in I/O
/// space; the reset must end; then come the six bytes of the hardware address, the ring, whose
/// frames must follow each other, and the four transmit buffers.
pub open spec fn right_step(p: Probe, e: ProbeEvent, r: ProbeStep) -> bool {
    match (p, e) {
        (Probe::Begin, ProbeEvent::Device(d)) => match taken(d) {
            Some(io_base) => r matches ProbeStep::Reset(next, writes) && next
                == (Probe::Resetting { io_base, attempts: 0 }) && writes@ == reset_writes_of(
                io_base,
            ),
            None => r is GiveUp,
        },
        (Probe::Resetting { io_base, attempts }, ProbeEvent::Command(cr)) => if cr & CR_RESET
            == 0 {
            r matches ProbeStep::ReadMac(next, port) && port == io_base + REG_MAC && (
            next matches Probe::ReadingMac { io_base: b, mac, have } && b == io_base && have == 0)
        } else if attempts == RESET_ATTEMPTS {
            r is GiveUp
        } else {
            r matches ProbeStep::ReadCommand(next) && next == (Probe::Resetting {
                io_base,
                attempts: (attempts + 1) as u32,
            })
        },
        (Probe::ReadingMac { io_base, mac, have }, ProbeEvent::MacByte(byte)) => if have < 5 {
            r matches ProbeStep::ReadMac(next, port) && port == io_base + REG_MAC + have + 1 && (
            next matches Probe::ReadingMac { io_base: b, mac: m, have: h } && b == io_base && m@
                == mac@.update(have as int, byte) && h == have + 1)
        } else {
            r matches ProbeStep::Allocate(next) && (next matches Probe::Ring {
                io_base: b,
                mac: m,
                base,
                have: h,
            } && b == io_base && m@ == mac@.update(have as int, byte) && h == 0)
        },
        (Probe::Ring { io_base, mac, base, have }, ProbeEvent::Frame(f)) => {
            let first = if have == 0 {
                f->Some_0
            } else {
                base
            };
            if !follows(base, have, f) {
                r is GiveUp
            } else if have + 1 < RX_RING_FRAMES {
                r matches ProbeStep::Allocate(next) && next == (Probe::Ring {
                    io_base,
                    mac,
                    base: first,
                    have: (have + 1) as usize,
                })
            } else {
                r matches ProbeStep::Allocate(next) && (next matches Probe::Buffers {
                    io_base: b,
                    mac: m,
                    base: ring,
                    tx,
                    have: h,
                } && b == io_base && m == mac && ring == first && h == 0)
            }
        },
        (Probe::Buffers { io_base, mac, base, tx, have }, ProbeEvent::Frame(f)) => match f {
            None => r is GiveUp,
            Some(a) => if have + 1 < NUM_TX_SLOTS {
                r matches ProbeStep::Allocate(next) && (next matches Probe::Buffers {
                    io_base: b,
                    mac: m,
                    base: ring,
                    tx: t,
                    have: h,
                } && b == io_base && m == mac && ring == base && t@ == tx@.update(
                    have as int,
                    a,
                ) && h == have + 1)
            } else {
                r matches ProbeStep::Up(driver, writes) && {
                    &&& driver.wf()
                    &&& driver.io_base == io_base
                    &&& driver.mac == mac
                    &&& driver.tx_phys@ == tx@.update(have as int, a)
                    &&& driver.rx_read_offset == 0
                    &&& driver.next_tx_slot == 0
                    &&& writes@ == enable_writes_of(io_base, base)
                }
            },
        },
        _ => false,
    }
}

/// The state that a step goes on with, where there is one.
pub open spec fn goes_on(r: ProbeStep) -> Option<Probe> {
    match r {
        ProbeStep::Reset(p, _) => Some(p),
        ProbeStep::ReadCommand(p) => Some(p),
        ProbeStep::ReadMac(p, _) => Some(p),
        ProbeStep::Allocate(p) => Some(p),
        _ => None,
    }
}

/// One step of finding the card and bringing it up.
pub fn probe_and_init(p: Probe, e: ProbeEvent) -> (r: ProbeStep)
    requires
        probe_ok(p),
        event_ok(p, e),
    ensures
        right_step(p, e, r),
        goes_on(r) matches Some(next) ==> probe_ok(next),
{
    match (p, e) {
        (Probe::Begin, ProbeEvent::Device(d)) => match probe(d) {
            Some(io_base) => ProbeStep::Reset(
                Probe::Resetting { io_base, attempts: 0 },
                reset_writes(io_base),
            ),
            None => ProbeStep::GiveUp,
        },
        (Probe::Resetting { io_base, attempts }, ProbeEvent::Command(cr)) => match reset_step(
            cr,
            attempts,
        ) {
            ResetStep::Done => {
                let mac: MacAddr = [0, 0, 0, 0, 0, 0];
                ProbeStep::ReadMac(
                    Probe::ReadingMac { io_base, mac, have: 0 },
                    mac_port(io_base, 0),
                )
            },
            ResetStep::Again(n) => ProbeStep::ReadCommand(
                Probe::Resetting { io_base, attempts: n },
            ),
            ResetStep::GiveUp => ProbeStep::GiveUp,
        },
        (Probe::ReadingMac { io_base, mac, have }, ProbeEvent::MacByte(byte)) => {
            let mut m: MacAddr = mac;
            m[have] = byte;
            if have < 5 {
                ProbeStep::ReadMac(
                    Probe::ReadingMac { io_base, mac: m, have: have + 1 },
                    mac_port(io_base, have as u16 + 1),
                )
            } else {
                ProbeStep::Allocate(Probe::Ring { io_base, mac: m, base: 0, have: 0 })
            }
        },
        (Probe::Ring { io_base, mac, base, have }, ProbeEvent::Frame(f)) => {
            match allocate_contiguous_frames(base, have, f) {
                None => ProbeStep::GiveUp,
                Some(first) => if have + 1 < RX_RING_FRAMES {
                    ProbeStep::Allocate(
                        Probe::Ring { io_base, mac, base: first, have: have + 1 },
                    )
                } else {
                    ProbeStep::Allocate(
                        Probe::Buffers {
                            io_base,
                            mac,
                            base: first,
                            tx: [0u64, 0, 0, 0],
                            have: 0,
                        },
                    )
                },
            }
        },
        (Probe::Buffers { io_base, mac, base, tx, have }, ProbeEvent::Frame(f)) => match f {
            None => ProbeStep::GiveUp,
            Some(a) => {
                let mut t: [u64; 4] = tx;
                t[have] = a;
                if have + 1 < NUM_TX_SLOTS {
                    ProbeStep::Allocate(
                        Probe::Buffers { io_base, mac, base, tx: t, have: have + 1 },
                    )
                } else {
                    let (driver, writes) = bring_up(io_base, mac, base, t);
                    ProbeStep::Up(driver, writes)
                }
            },
        },
        _ => ProbeStep::GiveUp,
    }
}

// ---------------------------------------------------------------------------------------------
// Interrupts
// ---------------------------------------------------------------------------------------------
/// What the interrupt handler shares with the rest: the card's base, zero while there is none, and
/// whether it interrupted.
pub struct IrqLatch {
    pub io_base: u16,
    pub fired: bool,
}

/// Whether the card interrupted since the last call.
pub fn irq_fired(latch: &mut IrqLatch) -> (r: bool)
    ensures
        r == old(latch).fired,
        *final(latch) == (IrqLatch { fired: false, ..*old(latch) }),
{
    let r = latch.fired;
    latch.fired = false;
    r
}

/// Handles an interrupt for which the card gave the cause `isr`: the cause is written back, which
/// clears it, and the latch is set. Nothing is done while there is no card.
pub fn rtl8139_irq_handler(latch: &mut IrqLatch, isr: u16) -> (r: Option<PortWrite>)
    requires
        old(latch).io_base <= IO_BASE_MAX,
    ensures
        old(latch).io_base == 0 ==> r.is_none() && *final(latch) == *old(latch),
        old(latch).io_base != 0 ==> {
            &&& r == Some(
                PortWrite::Word { port: (old(latch).io_base + REG_ISR) as u16, value: isr },
            )
            &&& *final(latch) == (IrqLatch { fired: true, ..*old(latch) })
        },
{
    if latch.io_base == 0 {
        return None;
    }
    latch.fired = true;
    Some(PortWrite::Word { port: latch.io_base + REG_ISR, value: isr })
}

// ---------------------------------------------------------------------------------------------
// Frames
// ---------------------------------------------------------------------------------------------
/// What sends a frame: `bytes` go into buffer `slot`, then the registers are written.
pub struct Transmit {
    pub slot: usize,
    pub bytes: Vec<u8>,
    pub writes: Vec<PortWrite>,
}

/// A frame, filled up with zeros to the shortest length.
pub open spec fn padded(frame: Seq<u8>) -> Seq<u8> {
    if frame.len() >= ETHERNET_MIN_FRAME {
        frame
    } else {
        frame + Seq::new((ETHERNET_MIN_FRAME - frame.len()) as nat, |i: int| 0u8)
    }
}

/// The registers that send `len` bytes from buffer `slot`. The length comes last: it starts the
/// card.
pub open spec fn transmit_writes(d: Rtl8139, slot: int, len: nat) -> Seq<PortWrite> {
    seq![
        PortWrite::Long {
            port: (d.io_base + REG_TSAD@[slot]) as u16,
            value: (d.tx_phys@[slot] % 0x1_0000_0000) as u32,
        },
        PortWrite::Long { port: (d.io_base + REG_TSD@[slot]) as u16, value: len as u32 },
    ]
}

/// The slot after `slot`.
pub open spec fn next_slot(slot: usize) -> usize {
    ((slot + 1) % 4) as usize
}

impl Rtl8139 {
    /// Sends a frame from the next buffer. One that does not fit is not sent.
    pub fn send(&mut self, frame: &[u8]) -> (r: Result<Transmit, NicError>)
        requires
            old(self).wf(),
        ensures
            final(self).wf(),
            match r {
                Ok(t) => {
                    &&& frame@.len() <= TX_SLOT_LEN
                    &&& t.slot == old(self).next_tx_slot
                    &&& t.bytes@ == padded(frame@)
                    &&& t.writes@ == transmit_writes(
                        *old(self),
                        t.slot as int,
                        padded(frame@).len(),
                    )
                    &&& *final(self) == (Rtl8139 {
                        next_tx_slot: next_slot(old(self).next_tx_slot),
                        ..*old(self)
                    })
                },
                Err(e) => {
                    &&& frame@.len() > TX_SLOT_LEN
                    &&& e == NicError::NoTxSlotAvailable
                    &&& *final(self) == *old(self)
                },
            },
    {
        if frame.len() > TX_SLOT_LEN {
            return Err(NicError::NoTxSlotAvailable);
        }
        let slot: usize = self.next_tx_slot;
        self.next_tx_slot = (slot + 1) % NUM_TX_SLOTS;
        let mut bytes: Vec<u8> = Vec::new();
        push_all(&mut bytes, frame);
        assert(bytes@ =~= frame@);
        while bytes.len() < ETHERNET_MIN_FRAME
            invariant
                frame@.len() <= bytes@.len() <= TX_SLOT_LEN,
                bytes@.len() > frame@.len() ==> bytes@.len() <= ETHERNET_MIN_FRAME,
                bytes@ =~= frame@ + Seq::new((bytes@.len() - frame@.len()) as nat, |i: int| 0u8),
            decreases ETHERNET_MIN_FRAME - bytes@.len(),
        {
            bytes.push(0);
        }
        assert(bytes@ =~= padded(frame@));
        let len: u32 = bytes.len() as u32;
        let writes: Vec<PortWrite> = vec![
            PortWrite::Long {
                port: self.io_base + REG_TSAD[slot],
                value: (self.tx_phys[slot] % 0x1_0000_0000) as u32,
            },
            PortWrite::Long { port: self.io_base + REG_TSD[slot], value: len },
        ];
        assert(writes@ =~= transmit_writes(*old(self), slot as int, padded(frame@).len()));
        Ok(Transmit { slot, bytes, writes })
    }

    /// The frame at the read position of the ring, and the register write that gives its room
    /// back; `None` where the command register says that the ring is empty.
    pub fn poll_recv(&mut self, cr: u8, ring: &[u8]) -> (r: Option<(Vec<u8>, PortWrite)>)
        requires
            old(self).wf(),
            ring@.len() == RX_RING_BYTES,
            cr & CR_BUFFER_EMPTY == 0 ==> packet_fits(ring@, old(self).rx_read_offset),
        ensures
            final(self).wf(),
            match r {
                None => cr & CR_BUFFER_EMPTY != 0 && *final(self) == *old(self),
                Some(got) => {
                    let off = old(self).rx_read_offset;
                    &&& cr & CR_BUFFER_EMPTY == 0
                    &&& got.0@ == packet_at(ring@, off)
                    &&& *final(self) == (Rtl8139 {
                        rx_read_offset: next_offset(ring@, off),
                        ..*old(self)
                    })
                    &&& got.1 == (PortWrite::Word {
                        port: (old(self).io_base + REG_CAPR) as u16,
                        value: sixteen_before(next_offset(ring@, off)),
                    })
                },
            },
    {
        if cr & CR_BUFFER_EMPTY != 0 {
            return None;
        }
        let off: usize = self.rx_read_offset as usize;
        let length: usize = ring[off + 2] as usize + ring[off + 3] as usize * 256;
        let data_len: usize = if length >= 4 {
            length - 4
        } else {
            0
        };
        let frame = copy_range(ring, off + 4, off + 4 + data_len);
        assert(frame@ == packet_at(ring@, self.rx_read_offset));
        let next: u32 = (self.rx_read_offset as u32 + length as u32 + 4 + 3) / 4 * 4;
        let to: u16 = if next >= RX_RING_SIZE {
            (next - RX_RING_SIZE) as u16
        } else {
            next as u16
        };
        self.rx_read_offset = to;
        let capr: u16 = if to >= 16 {
            to - 16
        } else {
            (65520 + to) as u16
        };
        Some((frame, PortWrite::Word { port: self.io_base + REG_CAPR, value: capr }))
    }
}

/// The length in the header of the packet at `off`: the frame with its check sequence.
pub open spec fn length_at(ring: Seq<u8>, off: u16) -> int {
    ring[off + 2] + ring[off + 3] * 256
}

/// Whether the packet at `off` lies within the ring's memory.
pub open spec fn packet_fits(ring: Seq<u8>, off: u16) -> bool {
    off + length_at(ring, off) <= ring.len()
}

/// The frame of the packet at `off`, without header and check sequence.
pub open spec fn packet_at(ring: Seq<u8>, off: u16) -> Seq<u8> {
    let n = length_at(ring, off);
    if n < 4 {
        Seq::empty()
    } else {
        ring.subrange(off + 4, off + n)
    }
}

/// Where the packet after the one at `off` starts: behind header, frame and check sequence, at the
/// next multiple of four, and round the ring.
pub open spec fn next_offset(ring: Seq<u8>, off: u16) -> u16 {
    let next = (off + length_at(ring, off) + 4 + 3) / 4 * 4;
    if next >= RX_RING_SIZE {
        (next - RX_RING_SIZE) as u16
    } else {
        next as u16
    }
}

/// The read position as the card wants it: sixteen bytes early, round a 16-bit number.
pub open spec fn sixteen_before(off: u16) -> u16 {
    ((off + 65520) % 65536) as u16
}

/// Four frames in a row go out from four buffers.
pub proof fn law_slots_in_turn(slot: usize)
    requires
        slot < NUM_TX_SLOTS,
    ensures
        next_slot(next_slot(next_slot(next_slot(slot)))) == slot,
        next_slot(slot) != slot,
        next_slot(next_slot(slot)) != slot,
        next_slot(next_slot(next_slot(slot))) != slot,
{
}

/// A frame that the card put into the ring, between a header with its length and a check sequence,
/// is the frame that is read, and the next packet is looked for behind it.
pub proof fn law_ring_reads_back(ring: Seq<u8>, off: u16, frame: Seq<u8>)
    requires
        off % 4 == 0,
        off < RX_RING_SIZE,
        off + 8 + frame.len() <= ring.len(),
        frame.len() + 4 <= 65535,
        ring[off + 2] == (frame.len() + 4) % 256,
        ring[off + 3] == (frame.len() + 4) / 256,
        ring.subrange(off + 4, off + 4 + frame.len()) == frame,
    ensures
        packet_at(ring, off) == frame,
        off + 8 + frame.len() < RX_RING_SIZE - 3 ==> off + 8 + frame.len() <= next_offset(ring, off)
            < off + 12 + frame.len(),
{
    assert(length_at(ring, off) == frame.len() + 4);
    assert(packet_at(ring, off) =~= frame);
}

} // verus!

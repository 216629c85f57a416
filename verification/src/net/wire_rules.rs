//! What goes over the wire, byte by byte, and how the card is driven.

use vstd::prelude::*;

use crate::net::ipv4::{carried_to, checksum_of, packet_of, word_sum};
use crate::net::nic::MacAddr;
use crate::net::rtl8139::{
    enable_writes_of, next_offset, next_slot, packet_at, packet_fits, padded, probe_ok,
    reset_writes_of, right_step, sixteen_before, taken, transmit_writes, Candidate, Probe,
    ProbeEvent, ProbeStep, Rtl8139,
};
use crate::net::segment::{carried, readable, segment_of, Fields};
use crate::net::sockaddr::sockaddr_of;
use crate::port::PortWrite;

verus! {

// ---------------------------------------------------------------------------------------------
// Checksums
// ---------------------------------------------------------------------------------------------
/// What is summed: the words of sixteen bits, high byte first; a last byte alone is a high byte.
pub proof fn law_words(hi: u8, lo: u8)
    ensures
        word_sum(Seq::empty()) == 0,
        word_sum(seq![hi]) == hi * 256,
        word_sum(seq![hi, lo]) == hi * 256 + lo,
{
    assert(seq![hi].drop_last() =~= Seq::<u8>::empty());
    let s = seq![hi, lo];
    assert(s.take(s.len() - 2) =~= Seq::<u8>::empty());
    assert(word_sum(s) == word_sum(s.take(s.len() - 2)) + s[0] as nat * 256 + s[1] as nat);
}

/// Sums add up, word by word.
pub proof fn law_words_add_up(a: Seq<u8>, b: Seq<u8>)
    requires
        a.len() % 2 == 0,
    ensures
        word_sum(a + b) == word_sum(a) + word_sum(b),
    decreases b.len(),
{
    let t = a + b;
    if b.len() == 0 {
        assert(t =~= a);
    } else if b.len() % 2 == 1 {
        assert(t.drop_last() =~= a + b.drop_last());
        law_words_add_up(a, b.drop_last());
    } else {
        assert(t.take(t.len() - 2) =~= a + b.take(b.len() - 2));
        law_words_add_up(a, b.take(b.len() - 2));
    }
}

/// The checksum brings the sum to a multiple of 65535; it is 65535 itself exactly where there is
/// nothing but zeros.
pub proof fn law_checksum(s: Seq<u8>)
    ensures
        (word_sum(s) + checksum_of(s)) % 65535 == 0,
        checksum_of(s) == 65535 <==> word_sum(s) == 0,
{
    let n = word_sum(s) as int;
    if n > 0 {
        let q = (n - 1) / 65535;
        assert(n - 1 == 65535 * q + (n - 1) % 65535);
        assert(n + checksum_of(s) == 65535 * (q + 1));
    }
}

// ---------------------------------------------------------------------------------------------
// Packets and segments
// ---------------------------------------------------------------------------------------------
/// How a packet from this machine is laid out.
pub proof fn law_packet_layout(dest: Seq<u8>, protocol: u8, payload: Seq<u8>)
    requires
        dest.len() == 4,
    ensures
        ({
            let p = packet_of(dest, protocol, payload);
            &&& p.len() == 20 + payload.len()
            &&& p[0] == 0x45 && p[1] == 0
            &&& p[2] * 256 + p[3] == (20 + payload.len()) % 65536
            &&& p[4] == 0 && p[5] == 0 && p[6] == 0 && p[7] == 0
            &&& p[8] == 64 && p[9] == protocol
            &&& p.subrange(12, 16) == seq![10u8, 0, 2, 15]
            &&& p.subrange(16, 20) == dest
            &&& p.subrange(20, p.len() as int) == payload
        }),
{
    let p = packet_of(dest, protocol, payload);
    assert(crate::net::ipv4::GUEST_IP@ =~= seq![10u8, 0, 2, 15]);
    assert(p.subrange(12, 16) =~= seq![10u8, 0, 2, 15]);
    assert(p.subrange(16, 20) =~= dest);
    assert(p.subrange(20, p.len() as int) =~= payload);
}

/// The frame that carries a packet: to the neighbour given, from this machine's card, of type
/// 0x0800. Without a card there is none.
pub proof fn law_carried(our: Option<MacAddr>, mac: Seq<u8>, dest: Seq<u8>, protocol: u8, payload: Seq<u8>)
    requires
        mac.len() == 6,
    ensures
        our.is_none() ==> carried_to(our, mac, dest, protocol, payload).is_none(),
        our matches Some(src) ==> (carried_to(our, mac, dest, protocol, payload) matches Some(f)
            && f.subrange(0, 6) == mac && f.subrange(6, 12) == src@ && f[12] == 8 && f[13] == 0
            && f.subrange(14, f.len() as int) == packet_of(dest, protocol, payload)),
{
    if let Some(src) = our {
        let f = carried_to(our, mac, dest, protocol, payload)->Some_0;
        assert(f.subrange(0, 6) =~= mac);
        assert(f.subrange(6, 12) =~= src@);
        assert(f.subrange(14, f.len() as int) =~= packet_of(dest, protocol, payload));
    }
}

/// How a segment from this machine is laid out.
pub proof fn law_segment_layout(remote: Seq<u8>, f: Fields, data: Seq<u8>)
    ensures
        ({
            let s = segment_of(remote, f, data);
            &&& s.len() == 20 + data.len()
            &&& s[0] * 256 + s[1] == f.local_port
            &&& s[2] * 256 + s[3] == f.remote_port
            &&& s[4] * 0x100_0000 + s[5] * 0x1_0000 + s[6] * 256 + s[7] == f.seq
            &&& s[8] * 0x100_0000 + s[9] * 0x1_0000 + s[10] * 256 + s[11] == f.ack
            &&& s[12] == 0x50 && s[13] == f.flags
            &&& s[14] * 256 + s[15] == f.window
            &&& s[18] == 0 && s[19] == 0
            &&& s.subrange(20, s.len() as int) == data
        }),
{
    let s = segment_of(remote, f, data);
    assert(s.subrange(20, s.len() as int) =~= data);
}

/// Which segments can be read, and what they carry: the header says in its upper half-byte how
/// many words it takes, five at least; the rest is data.
pub proof fn law_readable(s: Seq<u8>)
    ensures
        readable(s) <==> s.len() >= 20 && 5 <= s[12] / 16 && (s[12] / 16) * 4 <= s.len(),
        readable(s) ==> carried(s) == s.skip((s[12] / 16) * 4),
{
    if readable(s) {
        assert(carried(s) =~= s.skip((s[12] / 16) * 4));
    }
}

/// How a socket address is laid out.
pub proof fn law_sockaddr_layout(ip: Seq<u8>, port: u16)
    requires
        ip.len() == 4,
    ensures
        ({
            let a = sockaddr_of(ip, port);
            &&& a.len() == 16
            &&& a[0] == 2 && a[1] == 0
            &&& a[2] * 256 + a[3] == port
            &&& a.subrange(4, 8) == ip
            &&& forall|i: int| 8 <= i < 16 ==> #[trigger] a[i] == 0
        }),
{
    let a = sockaddr_of(ip, port);
    assert(a.subrange(4, 8) =~= ip);
}

// ---------------------------------------------------------------------------------------------
// The card
// ---------------------------------------------------------------------------------------------
/// Which device is the card: vendor 0x10ec, device 0x8139, with its registers in I/O space.
pub proof fn law_taken(d: Option<Candidate>, base: u16)
    ensures
        taken(d) == Some(base) <==> (d matches Some(c) && c.vendor_id == 0x10ec && c.device_id
            == 0x8139 && c.io_bar == Some(base)),
{
}

/// How the card is woken and reset, and how it is turned on.
pub proof fn law_card_on(io_base: u16, ring: u64)
    requires
        io_base <= 0xff00,
        ring < 0x1_0000_0000,
    ensures
        reset_writes_of(io_base) == seq![
            PortWrite::Byte { port: (io_base + 0x52) as u16, value: 0 },
            PortWrite::Byte { port: (io_base + 0x37) as u16, value: 0x10 },
        ],
        ({
            let w = enable_writes_of(io_base, ring);
            &&& w.len() == 4
            &&& w[0] == (PortWrite::Long { port: (io_base + 0x30) as u16, value: ring as u32 })
            &&& w[1] == (PortWrite::Long { port: (io_base + 0x44) as u16, value: 0x8f })
            &&& w[2] == (PortWrite::Word { port: (io_base + 0x3c) as u16, value: 5 })
            &&& w[3] == (PortWrite::Byte { port: (io_base + 0x37) as u16, value: 0x0c })
        }),
{
}

/// What is handed to the card: the frame, and zeros behind it up to sixty bytes.
pub proof fn law_padded(frame: Seq<u8>)
    ensures
        padded(frame).len() == (if frame.len() < 60 {
            60
        } else {
            frame.len()
        }),
        padded(frame).take(frame.len() as int) == frame,
        forall|i: int| frame.len() <= i < padded(frame).len() ==> #[trigger] padded(frame)[i] == 0,
{
    assert(padded(frame).take(frame.len() as int) =~= frame);
}

/// How a frame is sent: the slot's buffer first, then the length, which starts the card; each slot
/// has its own pair of registers. Then the next of the four slots has its turn.
pub proof fn law_transmit(d: Rtl8139, slot: usize, len: nat)
    requires
        slot < 4,
        d.io_base <= 0xff00,
        len <= 0xffff,
        d.tx_phys@[slot as int] < 0x1_0000_0000,
    ensures
        transmit_writes(d, slot as int, len) == seq![
            PortWrite::Long {
                port: (d.io_base + 0x20 + 4 * slot) as u16,
                value: d.tx_phys@[slot as int] as u32,
            },
            PortWrite::Long { port: (d.io_base + 0x10 + 4 * slot) as u16, value: len as u32 },
        ],
        next_slot(slot) == (if slot == 3 {
            0
        } else {
            slot + 1
        }),
{
    let a = crate::net::rtl8139::REG_TSAD@;
    let b = crate::net::rtl8139::REG_TSD@;
    assert(a[0] == 0x20 && a[1] == 0x24 && a[2] == 0x28 && a[3] == 0x2c);
    assert(b[0] == 0x10 && b[1] == 0x14 && b[2] == 0x18 && b[3] == 0x1c);
}

/// What lies in the ring at an offset: four bytes, two of status and two of length, low byte
/// first, then as many bytes as that, of which the last four are the check sequence.
pub proof fn law_ring(ring: Seq<u8>, off: u16)
    requires
        off + 4 <= ring.len(),
    ensures
        ({
            let n = ring[off + 2] + ring[off + 3] * 256;
            &&& packet_fits(ring, off) <==> off + n <= ring.len()
            &&& n < 4 ==> packet_at(ring, off).len() == 0
            &&& n >= 4 && off + n <= ring.len() ==> packet_at(ring, off) == ring.subrange(
                off + 4,
                off + n,
            )
        }),
{
}

/// Where the next packet lies: behind this one, at a multiple of four, round the ring of 8192
/// bytes.
pub proof fn law_ring_goes_round(ring: Seq<u8>, off: u16)
    requires
        off + 4 <= ring.len(),
        off < 8192,
        off % 4 == 0,
        ring[off + 2] + ring[off + 3] * 256 <= 8180,
    ensures
        ({
            let end = off + 4 + ring[off + 2] + ring[off + 3] * 256;
            let next = next_offset(ring, off);
            &&& next % 4 == 0
            &&& next < 8192
            &&& end <= next < end + 4 || end <= next + 8192 < end + 4
        }),
        sixteen_before(off) == (if off >= 16 {
            off - 16
        } else {
            off + 65520
        }),
{
}

/// How bringing the card up ends: only with all of it done, and at once where something is
/// missing.
pub proof fn law_brought_up(p: Probe, e: ProbeEvent, r: ProbeStep)
    requires
        probe_ok(p),
        right_step(p, e, r),
    ensures
        r matches ProbeStep::Up(d, w) ==> (p matches Probe::Buffers { io_base, mac, base, tx, have }
            && have == 3 && (e matches ProbeEvent::Frame(Some(a)) && d.tx_phys@ == tx@.update(3, a))
            && d.io_base == io_base && d.mac == mac && w@ == enable_writes_of(io_base, base)),
        (e matches ProbeEvent::Frame(f) && f.is_none()) ==> r is GiveUp,
        (p matches Probe::Ring { base, have, .. } && have > 0 && (e matches ProbeEvent::Frame(Some(a))
            && a != base + 4096 * have)) ==> r is GiveUp,
        (p matches Probe::Resetting { io_base, attempts } && (e matches ProbeEvent::Command(cr) && cr
            & 0x10 != 0 && attempts == crate::net::rtl8139::RESET_ATTEMPTS)) ==> r is GiveUp,
        (e matches ProbeEvent::Device(d) && taken(d).is_none()) ==> r is GiveUp,
        e matches ProbeEvent::Device(d) ==> (taken(d) matches Some(b) ==> (r matches ProbeStep::Reset(
            q,
            w,
        ) && q == (Probe::Resetting { io_base: b, attempts: 0 }) && w@ == reset_writes_of(b))),
        p matches Probe::Resetting { io_base, attempts } ==> (e matches ProbeEvent::Command(cr)
            ==> (cr & 0x10 == 0 ==> (r matches ProbeStep::ReadMac(q, port) && port == io_base
            && (q matches Probe::ReadingMac { io_base: b, have: h, .. } && b == io_base && h == 0)))),
        p matches Probe::Ring { io_base, mac, base, have } ==> (e matches ProbeEvent::Frame(Some(a))
            ==> (have == 0 || a == base + 4096 * have ==> (r matches ProbeStep::Allocate(q) && {
            let first = if have == 0 {
                a
            } else {
                base
            };
            &&& have < 2 ==> q == (Probe::Ring {
                io_base,
                mac,
                base: first,
                have: (have + 1) as usize,
            })
            &&& have == 2 ==> (q matches Probe::Buffers { io_base: b, mac: m, base: f, have: h, .. }
                && b == io_base && m == mac && f == first && h == 0)
        }))),
{
}

/// Bringing the card up reads the six bytes of its hardware address in order.
pub proof fn law_address_read(io_base: u16, mac: MacAddr, have: usize, byte: u8, r: ProbeStep)
    requires
        have < 6,
        io_base <= 0xff00,
        right_step(Probe::ReadingMac { io_base, mac, have }, ProbeEvent::MacByte(byte), r),
    ensures
        have < 5 ==> (r matches ProbeStep::ReadMac(q, port) && port == io_base + have + 1 && (
        q matches Probe::ReadingMac { io_base: b, mac: m, have: h } && b == io_base && h == have + 1
            && m@[have as int] == byte && (forall|i: int|
            0 <= i < have ==> #[trigger] m@[i] == mac@[i]))),
        have == 5 ==> (r matches ProbeStep::Allocate(q) && (q matches Probe::Ring {
            io_base: b,
            mac: m,
            base,
            have: h,
        } && b == io_base && h == 0 && m@[5] == byte && (forall|i: int|
            0 <= i < 5 ==> #[trigger] m@[i] == mac@[i]))),
{
}

} // verus!

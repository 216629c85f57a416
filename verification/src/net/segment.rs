//! TCP segments as bytes.

use vstd::prelude::*;

use crate::bytes::{
    be16, be16_bytes, be32, be32_bytes, lemma_be16, lemma_be32, push_all, push_be16, push_be32,
    read_be16, read_be32,
};
use crate::net::ipv4::{
    checksum, checksum_of, law_sealed_verifies, push_ip, put_be16, with_be16, Ipv4Addr,
    CHECKSUM_MAX, GUEST_IP,
};
use crate::net::queue::{Packet, PacketView};

verus! {

pub const PROTO_TCP: u8 = 6;

pub const FLAG_FIN: u8 = 0x01;

pub const FLAG_SYN: u8 = 0x02;

pub const FLAG_RST: u8 = 0x04;

pub const FLAG_PSH: u8 = 0x08;

pub const FLAG_ACK: u8 = 0x10;

/// Length of the header without options.
pub const HEADER_LEN: usize = 20;

/// Length of what is summed before the segment itself.
pub const PSEUDO_LEN: usize = 12;

/// The most bytes that one segment carries.
pub const MSS: usize = 536;

/// The fields of a segment that this machine varies.
#[derive(Clone, Copy)]
pub struct Fields {
    pub local_port: u16,
    pub remote_port: u16,
    pub seq: u32,
    pub ack: u32,
    pub flags: u8,
    pub window: u16,
}

/// A segment, its checksum field zero.
pub open spec fn bare_segment(f: Fields, data: Seq<u8>) -> Seq<u8> {
    be16_bytes(f.local_port) + be16_bytes(f.remote_port) + be32_bytes(f.seq) + be32_bytes(f.ack)
        + seq![0x50u8, f.flags] + be16_bytes(f.window) + seq![0u8, 0, 0, 0] + data
}

/// What the checksum of a segment covers: both addresses, the protocol and the length go before
/// the segment.
pub open spec fn summed(src: Seq<u8>, dst: Seq<u8>, segment: Seq<u8>) -> Seq<u8> {
    src + dst + seq![0u8, PROTO_TCP] + be16_bytes((segment.len() % 65536) as u16) + segment
}

/// A segment to `remote`.
pub open spec fn segment_of(remote: Seq<u8>, f: Fields, data: Seq<u8>) -> Seq<u8> {
    let bare = bare_segment(f, data);
    with_be16(bare, 16, checksum_of(summed(GUEST_IP@, remote, bare)))
}

/// The checksum of a segment.
pub fn tcp_checksum(src_ip: Ipv4Addr, dst_ip: Ipv4Addr, segment: &[u8]) -> (r: u16)
    requires
        PSEUDO_LEN + segment@.len() <= CHECKSUM_MAX,
    ensures
        r == checksum_of(summed(src_ip@, dst_ip@, segment@)),
{
    let mut buf: Vec<u8> = Vec::new();
    push_ip(&mut buf, src_ip);
    push_ip(&mut buf, dst_ip);
    push_all(&mut buf, &[0u8, PROTO_TCP]);
    push_be16(&mut buf, (segment.len() % 65536) as u16);
    push_all(&mut buf, segment);
    assert(buf@ =~= summed(src_ip@, dst_ip@, segment@));
    checksum(buf.as_slice())
}

/// Lays out a segment, its checksum field zero.
pub fn build_segment(f: Fields, data: &[u8]) -> (r: Vec<u8>)
    ensures
        r@ == bare_segment(f, data@),
{
    let mut seg: Vec<u8> = Vec::new();
    push_be16(&mut seg, f.local_port);
    push_be16(&mut seg, f.remote_port);
    push_be32(&mut seg, f.seq);
    push_be32(&mut seg, f.ack);
    push_all(&mut seg, &[0x50u8, f.flags]);
    push_be16(&mut seg, f.window);
    push_all(&mut seg, &[0u8, 0, 0, 0]);
    push_all(&mut seg, data);
    assert(seg@ =~= bare_segment(f, data@));
    seg
}

/// The packet that carries a segment to `remote_ip`.
pub fn send_segment(remote_ip: Ipv4Addr, f: Fields, data: &[u8]) -> (r: Packet)
    requires
        data@.len() <= MSS,
    ensures
        r@ == (PacketView {
            dest: remote_ip@,
            protocol: PROTO_TCP,
            payload: segment_of(remote_ip@, f, data@),
        }),
{
    let mut seg = build_segment(f, data);
    let sum: u16 = tcp_checksum(GUEST_IP, remote_ip, seg.as_slice());
    put_be16(&mut seg, 16, sum);
    Packet { dest: remote_ip, protocol: PROTO_TCP, payload: seg }
}

/// The length of the header that a received segment claims.
pub open spec fn data_offset(s: Seq<u8>) -> int {
    s[12] / 16 * 4
}

/// Whether a received segment has a header that fits.
pub open spec fn readable(s: Seq<u8>) -> bool {
    s.len() >= HEADER_LEN && HEADER_LEN <= data_offset(s) <= s.len()
}

/// The bytes that a received segment carries, behind whatever options it has.
pub open spec fn carried(s: Seq<u8>) -> Seq<u8> {
    s.subrange(data_offset(s), s.len() as int)
}

/// The fields of a received segment.
#[derive(Clone, Copy)]
pub struct Arrived {
    pub src_port: u16,
    pub dst_port: u16,
    pub seq: u32,
    pub ack: u32,
    pub flags: u8,
    pub data_offset: usize,
}

/// Reads a received segment.
pub fn parse(payload: &[u8]) -> (r: Option<Arrived>)
    ensures
        match r {
            Some(a) => {
                &&& readable(payload@)
                &&& a.src_port == be16(payload@, 0)
                &&& a.dst_port == be16(payload@, 2)
                &&& a.seq == be32(payload@, 4)
                &&& a.ack == be32(payload@, 8)
                &&& a.flags == payload@[13]
                &&& a.data_offset == data_offset(payload@)
            },
            None => !readable(payload@),
        },
{
    if payload.len() < HEADER_LEN {
        return None;
    }
    let data_offset: usize = (payload[12] / 16) as usize * 4;
    if data_offset < HEADER_LEN || data_offset > payload.len() {
        return None;
    }
    Some(
        Arrived {
            src_port: read_be16(payload, 0),
            dst_port: read_be16(payload, 2),
            seq: read_be32(payload, 4),
            ack: read_be32(payload, 8),
            flags: payload[13],
            data_offset,
        },
    )
}

/// A receiver that sums a segment of this machine's, with what goes before it, gets zero.
pub proof fn law_segment_verifies(remote: Seq<u8>, f: Fields, data: Seq<u8>)
    requires
        remote.len() == 4,
    ensures
        checksum_of(summed(GUEST_IP@, remote, segment_of(remote, f, data))) == 0,
{
    let bare = bare_segment(f, data);
    let all = summed(GUEST_IP@, remote, bare);
    let c = checksum_of(all);
    assert(all[28] == bare[16] && all[29] == bare[17]);
    assert(bare[16] == 0 && bare[17] == 0);
    law_sealed_verifies(all, 28);
    assert(summed(GUEST_IP@, remote, with_be16(bare, 16, c)) =~= with_be16(all, 28, c));
}

/// A segment is read back as it was built.
pub proof fn law_segment_reads_back(remote: Seq<u8>, f: Fields, data: Seq<u8>)
    ensures
        ({
            let s = segment_of(remote, f, data);
            &&& readable(s)
            &&& be16(s, 0) == f.local_port
            &&& be16(s, 2) == f.remote_port
            &&& be32(s, 4) == f.seq
            &&& be32(s, 8) == f.ack
            &&& s[13] == f.flags
            &&& be16(s, 14) == f.window
            &&& carried(s) == data
        }),
{
    let s = segment_of(remote, f, data);
    lemma_be16(f.local_port);
    lemma_be16(f.remote_port);
    lemma_be32(f.seq);
    lemma_be32(f.ack);
    lemma_be16(f.window);
    let a = be16_bytes(f.local_port);
    let b = be16_bytes(f.remote_port);
    let c = be32_bytes(f.seq);
    let d = be32_bytes(f.ack);
    let w = be16_bytes(f.window);
    assert(s[0] == a[0] && s[1] == a[1] && s[2] == b[0] && s[3] == b[1]);
    assert(s[4] == c[0] && s[5] == c[1] && s[6] == c[2] && s[7] == c[3]);
    assert(s[8] == d[0] && s[9] == d[1] && s[10] == d[2] && s[11] == d[3]);
    assert(s[12] == 0x50 && s[14] == w[0] && s[15] == w[1]);
    assert(carried(s) =~= data);
}

} // verus!

//! Ethernet framing.

use vstd::prelude::*;

use crate::bytes::{be16, be16_bytes, copy_range, lemma_be16, push_all, push_be16, read_be16};
use crate::net::arp::{answer_of, heard};
use crate::net::ipv4::{law_packet_reads_back, packet_of, GUEST_IP, PROTO_ICMP};
use crate::net::stack::{Net, NetView};
use crate::net::tcp::{no_reaction, Reaction, ReactionView, PROTO_TCP};
use crate::net::udp::PROTO_UDP;
use crate::net::nic::{push_mac, MacAddr, NicDriver};

verus! {

pub const ETHERTYPE_ARP: u16 = 0x0806;

pub const ETHERTYPE_IPV4: u16 = 0x0800;

/// The address that every card listens to.
pub const BROADCAST_MAC: MacAddr = [255, 255, 255, 255, 255, 255];

/// Destination, source and ethertype.
pub const HEADER_LEN: usize = 14;

/// The bytes of a frame.
pub open spec fn frame_of(dest: Seq<u8>, src: Seq<u8>, ethertype: u16, payload: Seq<u8>) -> Seq<
    u8,
> {
    dest + src + be16_bytes(ethertype) + payload
}

/// The address of the installed card, which is what the card says it is.
pub fn our_mac<D: NicDriver>(nic: &Option<D>) -> (r: Option<MacAddr>)
    ensures
        r.is_some() == nic.is_some(),
        r matches Some(mac) ==> call_ensures(D::mac_address, (&nic->Some_0,), mac),
{
    match nic {
        Some(driver) => Some(driver.mac_address()),
        None => None,
    }
}

/// A frame that there may be.
pub open spec fn frame_view(f: Option<Vec<u8>>) -> Option<Seq<u8>> {
    match f {
        Some(f) => Some(f@),
        None => None,
    }
}

/// What a frame holds for the layers above.
#[derive(Debug, Clone, Copy, PartialEq, Eq, Structural)]
pub enum Ethertype {
    Arp,
    Ipv4,
}

/// Which protocol a frame carries, if it is one that the stack speaks.
pub open spec fn carried(frame: Seq<u8>) -> Option<Ethertype> {
    if frame.len() < HEADER_LEN {
        None
    } else if be16(frame, 12) == ETHERTYPE_ARP {
        Some(Ethertype::Arp)
    } else if be16(frame, 12) == ETHERTYPE_IPV4 {
        Some(Ethertype::Ipv4)
    } else {
        None
    }
}

/// Reads which protocol a frame carries, and its payload.
pub fn parse(frame: &[u8]) -> (r: Option<(Ethertype, Vec<u8>)>)
    ensures
        match r {
            Some(c) => {
                &&& carried(frame@) == Some(c.0)
                &&& c.1@ == frame@.subrange(HEADER_LEN as int, frame@.len() as int)
            },
            None => carried(frame@).is_none(),
        },
{
    if frame.len() < HEADER_LEN {
        return None;
    }
    let ethertype: u16 = read_be16(frame, 12);
    if ethertype == ETHERTYPE_ARP {
        Some((Ethertype::Arp, copy_range(frame, HEADER_LEN, frame.len())))
    } else if ethertype == ETHERTYPE_IPV4 {
        Some((Ethertype::Ipv4, copy_range(frame, HEADER_LEN, frame.len())))
    } else {
        None
    }
}

/// What a frame carries behind its header.
pub open spec fn inside(frame: Seq<u8>) -> Seq<u8> {
    frame.subrange(HEADER_LEN as int, frame.len() as int)
}

/// The stack after a frame came in.
pub open spec fn delivered(n: NetView, frame: Seq<u8>, fresh: u64, ticks: u64) -> NetView {
    match carried(frame) {
        Some(Ethertype::Arp) => NetView { arp: heard(n.arp, inside(frame)), ..n },
        Some(Ethertype::Ipv4) => crate::net::ipv4::delivered(n, inside(frame), fresh, ticks),
        None => n,
    }
}

/// What a frame that came in calls for.
pub open spec fn reaction_to(n: NetView, frame: Seq<u8>, fresh: u64, ticks: u64) -> ReactionView {
    match carried(frame) {
        Some(Ethertype::Ipv4) => crate::net::ipv4::reaction_to(n, inside(frame), fresh, ticks),
        _ => no_reaction(),
    }
}

/// What a frame that came in is answered with at once.
pub open spec fn answer_to(our: Option<MacAddr>, frame: Seq<u8>) -> Option<Seq<u8>> {
    if carried(frame) == Some(Ethertype::Arp) {
        answer_of(our, inside(frame))
    } else {
        None
    }
}

/// What a frame that came in calls for: first a frame for the card, then the rest.
pub struct Handled {
    pub frame: Option<Vec<u8>>,
    pub reaction: Reaction,
}

/// Takes in a frame: ARP and IPv4 go to their protocols, everything else is dropped. A connection
/// that it opens gets the number `fresh`.
pub fn handle_frame(
    net: &mut Net,
    our: Option<MacAddr>,
    frame: &[u8],
    fresh: u64,
    ticks: u64,
) -> (r: Handled)
    requires
        old(net).wf(),
        !old(net)@.tcp.sockets.contains_key(fresh),
    ensures
        final(net).wf(),
        final(net)@ == delivered(old(net)@, frame@, fresh, ticks),
        r.reaction@ == reaction_to(old(net)@, frame@, fresh, ticks),
        frame_view(r.frame) == answer_to(our, frame@),
{
    let nothing = Reaction { packet: None, track: None, resume: None };
    match parse(frame) {
        Some((Ethertype::Arp, payload)) => {
            let frame = crate::net::arp::handle_packet(&mut net.arp, our, payload.as_slice());
            Handled { frame, reaction: nothing }
        },
        Some((Ethertype::Ipv4, payload)) => {
            let reaction = crate::net::ipv4::handle_packet(net, payload.as_slice(), fresh, ticks);
            Handled { frame: None, reaction }
        },
        None => Handled { frame: None, reaction: nothing },
    }
}

/// Puts the header before `payload`.
pub fn build_frame(dest_mac: MacAddr, src_mac: MacAddr, ethertype: u16, payload: &[u8]) -> (r: Vec<
    u8,
>)
    ensures
        r@ == frame_of(dest_mac@, src_mac@, ethertype, payload@),
{
    let mut frame: Vec<u8> = Vec::new();
    push_mac(&mut frame, dest_mac);
    push_mac(&mut frame, src_mac);
    push_be16(&mut frame, ethertype);
    push_all(&mut frame, payload);
    assert(frame@ =~= frame_of(dest_mac@, src_mac@, ethertype, payload@));
    frame
}

/// The frame that carries `payload` from the card with the address `our`; `None` where there is no
/// card.
pub fn send_frame(our: Option<MacAddr>, dest_mac: MacAddr, ethertype: u16, payload: &[u8]) -> (r:
    Option<Vec<u8>>)
    ensures
        frame_view(r) == (match our {
            Some(mac) => Some(frame_of(dest_mac@, mac@, ethertype, payload@)),
            None => None,
        }),
{
    match our {
        None => None,
        Some(src_mac) => Some(build_frame(dest_mac, src_mac, ethertype, payload)),
    }
}

/// A frame is read back as what it was built from.
pub proof fn law_frame_reads_back(dest: Seq<u8>, src: Seq<u8>, ethertype: u16, payload: Seq<u8>)
    requires
        dest.len() == 6,
        src.len() == 6,
    ensures
        ({
            let f = frame_of(dest, src, ethertype, payload);
            &&& f.len() >= HEADER_LEN
            &&& be16(f, 12) == ethertype
            &&& f.subrange(HEADER_LEN as int, f.len() as int) == payload
        }),
{
    let f = frame_of(dest, src, ethertype, payload);
    lemma_be16(ethertype);
    assert(f[12] == be16_bytes(ethertype)[0] && f[13] == be16_bytes(ethertype)[1]);
    assert(f.subrange(HEADER_LEN as int, f.len() as int) =~= payload);
}

/// What goes down the layers comes up the layers: a payload that is packed for this machine's own
/// address and framed reaches the protocol that it was packed for, as it was.
pub proof fn law_layers_agree(
    n: NetView,
    dest: Seq<u8>,
    src: Seq<u8>,
    protocol: u8,
    payload: Seq<u8>,
    fresh: u64,
    ticks: u64,
)
    requires
        dest.len() == 6,
        src.len() == 6,
        crate::net::ipv4::HEADER_LEN + payload.len() <= 65535,
    ensures
        ({
            let packet = packet_of(GUEST_IP@, protocol, payload);
            let t = delivered(n, frame_of(dest, src, ETHERTYPE_IPV4, packet), fresh, ticks);
            &&& protocol == PROTO_UDP ==> t == (NetView {
                udp: crate::net::udp::received(n.udp, payload, GUEST_IP@),
                ..n
            })
            &&& protocol == PROTO_TCP ==> t == (NetView {
                tcp: crate::net::tcp::received(n.tcp, payload, GUEST_IP@, fresh, ticks),
                ..n
            })
            &&& protocol != PROTO_UDP && protocol != PROTO_TCP && protocol != PROTO_ICMP ==> t == n
        }),
{
    let packet = packet_of(GUEST_IP@, protocol, payload);
    law_packet_reads_back(protocol, payload);
    law_frame_reads_back(dest, src, ETHERTYPE_IPV4, packet);
    let frame = frame_of(dest, src, ETHERTYPE_IPV4, packet);
    assert(inside(frame) == packet);
}

} // verus!

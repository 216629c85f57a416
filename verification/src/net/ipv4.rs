//! IPv4: the checksum, the header without options, and where a packet goes first.

use vstd::prelude::*;

use crate::net::arp::{known, request_of, resolve, send_request, ArpTable};
use crate::net::ethernet::{frame_of, frame_view, send_frame, ETHERTYPE_IPV4};
use crate::net::nic::MacAddr;
use crate::net::stack::{Net, NetView};
use crate::net::tcp::{no_reaction, Reaction, ReactionView, PROTO_TCP};
use crate::net::udp::PROTO_UDP;
use crate::bytes::{be16, be16_bytes, copy_range, lemma_be16, push_all, push_be16, read_be16};

verus! {

/// An IPv4 address, first octet first.
pub type Ipv4Addr = [u8; 4];

/// The address that the machine holds.
pub const GUEST_IP: Ipv4Addr = [10, 0, 2, 15];

/// The router to everything outside the machine's own /24.
pub const GATEWAY_IP: Ipv4Addr = [10, 0, 2, 2];

/// The name server of the network.
pub const DNS_SERVER_IP: Ipv4Addr = [10, 0, 2, 3];

pub const PROTO_ICMP: u8 = 1;

/// Version 4, header of five words.
pub const VERSION_IHL: u8 = 0x45;

pub const DEFAULT_TTL: u8 = 64;

/// Length of the header without options.
pub const HEADER_LEN: usize = 20;

// ---------------------------------------------------------------------------------------------
// Checksum
// ---------------------------------------------------------------------------------------------
/// The sum of `s` taken as big-endian 16-bit words; an odd last byte is a word's high byte.
pub open spec fn word_sum(s: Seq<u8>) -> nat
    decreases s.len(),
{
    if s.len() == 0 {
        0
    } else if s.len() % 2 == 1 {
        word_sum(s.drop_last()) + s.last() as nat * 256
    } else {
        word_sum(s.take(s.len() - 2)) + s[s.len() - 2] as nat * 256 + s[s.len() - 1] as nat
    }
}

/// A sum brought into 16 bits by end-around carry: the representative modulo 65535 that is zero
/// only for zero.
pub open spec fn folded(n: nat) -> nat {
    if n == 0 {
        0
    } else {
        ((n - 1) % 65535 + 1) as nat
    }
}

/// The Internet checksum of `s`.
pub open spec fn checksum_of(s: Seq<u8>) -> u16 {
    (65535 - folded(word_sum(s))) as u16
}

proof fn lemma_word_sum_bound(s: Seq<u8>)
    ensures
        word_sum(s) <= (s.len() + 1) / 2 * 65535,
    decreases s.len(),
{
    if s.len() == 0 {
    } else if s.len() % 2 == 1 {
        lemma_word_sum_bound(s.drop_last());
    } else {
        lemma_word_sum_bound(s.take(s.len() - 2));
    }
}

/// The longest input whose sum fits in 32 bits.
pub const CHECKSUM_MAX: usize = 131074;

/// The Internet checksum: the complement of the one's complement sum.
pub fn checksum(data: &[u8]) -> (r: u16)
    requires
        data@.len() <= CHECKSUM_MAX,
    ensures
        r == checksum_of(data@),
{
    let mut sum: u32 = 0;
    let mut i: usize = 0;
    let pairs: usize = data.len() / 2 * 2;
    while i < pairs
        invariant
            i % 2 == 0,
            i <= pairs,
            pairs == data@.len() / 2 * 2,
            data@.len() <= CHECKSUM_MAX,
            sum == word_sum(data@.take(i as int)),
        decreases pairs - i,
    {
        proof {
            let next = data@.take(i + 2);
            assert(next.take(next.len() - 2) =~= data@.take(i as int));
            lemma_word_sum_bound(next);
            assert(word_sum(next) == sum + data@[i as int] * 256 + data@[i + 1]);
        }
        sum = sum + (data[i] as u32 * 256 + data[i + 1] as u32);
        i += 2;
    }
    if pairs < data.len() {
        proof {
            assert(data@.drop_last() =~= data@.take(i as int));
            lemma_word_sum_bound(data@);
            assert(word_sum(data@) == sum + data@.last() * 256);
        }
        sum = sum + data[pairs] as u32 * 256;
    }
    assert(data@.take(data@.len() as int) =~= data@);
    let ghost total = sum as nat;
    while sum >= 65536
        invariant
            folded(sum as nat) == folded(total),
        decreases sum,
    {
        proof {
            lemma_carry(sum as nat);
        }
        sum = sum % 65536 + sum / 65536;
    }
    (65535 - sum) as u16
}

/// Carrying the high half round keeps the folded value.
proof fn lemma_carry(n: nat)
    ensures
        folded((n % 65536 + n / 65536) as nat) == folded(n),
{
    let q = n / 65536;
    let m = (n % 65536 + q) as nat;
    assert(n == q * 65536 + n % 65536);
    assert(n == m + q * 65535);
    if n > 0 {
        assert(m > 0);
        assert((n - 1) == (m - 1) + q * 65535);
        vstd::arithmetic::div_mod::lemma_mod_multiples_vanish(q as int, m - 1, 65535);
        assert((65535 * q + (m - 1)) % 65535 == (m - 1) % 65535);
    }
}

/// Changing the bytes at an even offset `off` from zero to a word changes the sum by that word.
proof fn lemma_sum_field(s: Seq<u8>, off: int, v: u16)
    requires
        0 <= off,
        off % 2 == 0,
        off + 2 <= s.len(),
        s[off] == 0,
        s[off + 1] == 0,
    ensures
        word_sum(with_be16(s, off, v)) == word_sum(s) + v,
    decreases s.len(),
{
    let t = with_be16(s, off, v);
    if s.len() % 2 == 1 {
        assert(t.drop_last() =~= with_be16(s.drop_last(), off, v));
        lemma_sum_field(s.drop_last(), off, v);
        assert(t.last() == s.last());
    } else if off + 2 == s.len() {
        assert(t.take(t.len() - 2) =~= s.take(s.len() - 2));
    } else {
        assert(t.take(t.len() - 2) =~= with_be16(s.take(s.len() - 2), off, v));
        lemma_sum_field(s.take(s.len() - 2), off, v);
    }
}

/// `s` with the 16-bit number `v` written at `off`.
pub open spec fn with_be16(s: Seq<u8>, off: int, v: u16) -> Seq<u8> {
    s.update(off, be16_bytes(v)[0]).update(off + 1, be16_bytes(v)[1])
}

/// `s` with its own checksum written over the zero field at `off`.
pub open spec fn sealed(s: Seq<u8>, off: int) -> Seq<u8> {
    with_be16(s, off, checksum_of(s))
}

/// A receiver that sums what was sealed, field and all, gets zero.
pub proof fn law_sealed_verifies(s: Seq<u8>, off: int)
    requires
        0 <= off,
        off % 2 == 0,
        off + 2 <= s.len(),
        s[off] == 0,
        s[off + 1] == 0,
    ensures
        checksum_of(sealed(s, off)) == 0,
{
    let n = word_sum(s);
    let c = checksum_of(s);
    lemma_sum_field(s, off, c);
    let f = folded(n);
    assert(c == 65535 - f);
    if n == 0 {
        assert(folded(65535) == 65535);
    } else {
        let q = (n - 1) / 65535;
        assert(n - 1 == q * 65535 + (n - 1) % 65535);
        assert(n + c - 1 == q * 65535 + 65534);
        vstd::arithmetic::div_mod::lemma_mod_multiples_vanish(q, 65534, 65535);
        assert((n + c - 1) % 65535 == 65534);
    }
}

/// Writes the 16-bit number `v` at `off`.
pub fn put_be16(out: &mut Vec<u8>, off: usize, v: u16)
    requires
        off + 2 <= old(out)@.len(),
    ensures
        final(out)@ == with_be16(old(out)@, off as int, v),
{
    let _len: usize = out.len();
    out[off] = (v / 256) as u8;
    out[off + 1] = (v % 256) as u8;
}

// ---------------------------------------------------------------------------------------------
// Addresses
// ---------------------------------------------------------------------------------------------
/// Whether two addresses are the same.
pub fn same_ip(a: Ipv4Addr, b: Ipv4Addr) -> (r: bool)
    ensures
        r == (a@ == b@),
{
    let r = a[0] == b[0] && a[1] == b[1] && a[2] == b[2] && a[3] == b[3];
    if r {
        assert(a@ =~= b@);
    }
    r
}

/// The address in the four bytes at `off`.
pub fn read_ip(s: &[u8], off: usize) -> (r: Ipv4Addr)
    requires
        off + 4 <= s@.len(),
    ensures
        r@ == s@.subrange(off as int, off + 4),
{
    let r: Ipv4Addr = [s[off], s[off + 1], s[off + 2], s[off + 3]];
    assert(r@ =~= s@.subrange(off as int, off + 4));
    r
}

/// Appends an address.
pub fn push_ip(out: &mut Vec<u8>, ip: Ipv4Addr)
    ensures
        final(out)@ == old(out)@ + ip@,
{
    let ghost before = out@;
    out.push(ip[0]);
    out.push(ip[1]);
    out.push(ip[2]);
    out.push(ip[3]);
    assert(out@ =~= before + ip@);
}

/// Whether an address lies in the machine's own /24.
pub open spec fn on_link(ip: Seq<u8>) -> bool {
    ip.take(3) == GUEST_IP@.take(3)
}

/// Whose hardware address a packet for `dest` is sent to: the destination on the machine's own
/// network, the gateway beyond it.
pub open spec fn hop_of(dest: Seq<u8>) -> Seq<u8> {
    if on_link(dest) {
        dest
    } else {
        GATEWAY_IP@
    }
}

/// Finds whose hardware address a packet for `dest_ip` is sent to.
pub fn next_hop(dest_ip: Ipv4Addr) -> (r: Ipv4Addr)
    ensures
        r@ == hop_of(dest_ip@),
{
    let near = dest_ip[0] == GUEST_IP[0] && dest_ip[1] == GUEST_IP[1] && dest_ip[2] == GUEST_IP[2];
    proof {
        if near {
            assert(dest_ip@.take(3) =~= GUEST_IP@.take(3));
        } else {
            assert(dest_ip@.take(3)[0] == dest_ip@[0] && dest_ip@.take(3)[1] == dest_ip@[1]
                && dest_ip@.take(3)[2] == dest_ip@[2]);
            assert(GUEST_IP@.take(3)[0] == 10 && GUEST_IP@.take(3)[1] == 0 && GUEST_IP@.take(3)[2]
                == 2);
        }
    }
    if near {
        dest_ip
    } else {
        GATEWAY_IP
    }
}

// ---------------------------------------------------------------------------------------------
// Packets
// ---------------------------------------------------------------------------------------------
/// The header of a packet from this machine, its checksum field zero.
pub open spec fn bare_header(dest: Seq<u8>, protocol: u8, payload_len: nat) -> Seq<u8> {
    seq![VERSION_IHL, 0u8] + be16_bytes(((HEADER_LEN + payload_len) % 65536) as u16)
        + seq![0u8, 0, 0, 0, DEFAULT_TTL, protocol, 0, 0] + GUEST_IP@ + dest
}

/// A whole packet from this machine.
pub open spec fn packet_of(dest: Seq<u8>, protocol: u8, payload: Seq<u8>) -> Seq<u8> {
    sealed(bare_header(dest, protocol, payload.len()), 10) + payload
}

/// Puts the header before `payload`.
pub fn build_packet(dest_ip: Ipv4Addr, protocol: u8, payload: &[u8]) -> (r: Vec<u8>)
    requires
        HEADER_LEN + payload@.len() <= usize::MAX,
    ensures
        r@ == packet_of(dest_ip@, protocol, payload@),
{
    let total: usize = HEADER_LEN + payload.len();
    let mut packet: Vec<u8> = Vec::new();
    packet.push(VERSION_IHL);
    packet.push(0);
    push_be16(&mut packet, (total % 65536) as u16);
    push_all(&mut packet, &[0u8, 0, 0, 0, DEFAULT_TTL, protocol, 0, 0]);
    push_ip(&mut packet, GUEST_IP);
    push_ip(&mut packet, dest_ip);
    let ghost bare = bare_header(dest_ip@, protocol, payload@.len());
    assert(packet@ =~= bare);
    let sum: u16 = checksum(packet.as_slice());
    put_be16(&mut packet, 10, sum);
    push_all(&mut packet, payload);
    packet
}

/// How far the search for a neighbour has come.
#[derive(Debug, Clone, Copy, PartialEq, Eq, Structural)]
pub enum Search {
    /// It begins.
    Begin,
    /// The clock was read.
    Clock { now: u64, deadline: u64 },
    /// Everything that had arrived was handled.
    Polled,
}

/// What the search does next.
#[derive(Debug, Clone, Copy)]
pub enum SearchStep {
    /// The neighbour is there.
    Found(MacAddr),
    /// Send a request for the address, then read the clock.
    Ask,
    /// Read the clock.
    ReadClock,
    /// Handle what arrives.
    Poll,
    /// Nobody answered in time.
    GiveUp,
}

/// How long an answer to a request is waited for, in milliseconds.
pub const RESOLVE_TIMEOUT_MS: u64 = 5000;

/// One step of the search for the hardware address of `ip`: the table is asked first; where it
/// does not know, a request goes out, and until the deadline the table is asked again after
/// every poll.
pub fn resolve_with_retry(table: &ArpTable, ip: Ipv4Addr, at: Search) -> (r: SearchStep)
    ensures
        match at {
            Search::Clock { now, deadline } => r == (if now < deadline {
                SearchStep::Poll
            } else {
                SearchStep::GiveUp
            }),
            _ => match known(table@, ip@) {
                Some(mac) => r matches SearchStep::Found(found) && found@ == mac,
                None => r == (if at == Search::Begin {
                    SearchStep::Ask
                } else {
                    SearchStep::ReadClock
                }),
            },
        },
{
    match at {
        Search::Begin => match resolve(table, ip) {
            Some(mac) => SearchStep::Found(mac),
            None => SearchStep::Ask,
        },
        Search::Clock { now, deadline } => if now < deadline {
            SearchStep::Poll
        } else {
            SearchStep::GiveUp
        },
        Search::Polled => match resolve(table, ip) {
            Some(mac) => SearchStep::Found(mac),
            None => SearchStep::ReadClock,
        },
    }
}

/// What sending a packet does next.
pub enum SendStep {
    /// The neighbour is there: hand this frame to the card. `None` where there is no card.
    Send(Option<Vec<u8>>),
    /// Hand this request to the card, if there is one, then read the clock.
    Ask(Option<Vec<u8>>),
    /// Read the clock.
    ReadClock,
    /// Handle what arrives.
    Poll,
    /// Nobody answered in time; the packet is not sent.
    GiveUp,
}

/// The frame that carries a packet for `dest` to the neighbour at `mac`, where there is a card.
pub open spec fn carried_to(
    our: Option<MacAddr>,
    mac: Seq<u8>,
    dest: Seq<u8>,
    protocol: u8,
    payload: Seq<u8>,
) -> Option<Seq<u8>> {
    match our {
        Some(src) => Some(frame_of(mac, src@, ETHERTYPE_IPV4, packet_of(dest, protocol, payload))),
        None => None,
    }
}

/// One step of sending a packet: the hardware address of the next hop to `dest_ip` is searched for,
/// and as soon as the table knows it, the frame goes there.
pub fn send_packet(
    table: &ArpTable,
    our: Option<MacAddr>,
    dest_ip: Ipv4Addr,
    protocol: u8,
    payload: &[u8],
    at: Search,
) -> (r: SendStep)
    requires
        HEADER_LEN + payload@.len() <= usize::MAX,
    ensures
        match at {
            Search::Clock { now, deadline } => if now < deadline {
                r is Poll
            } else {
                r is GiveUp
            },
            _ => match known(table@, hop_of(dest_ip@)) {
                Some(mac) => r matches SendStep::Send(f) && frame_view(f) == carried_to(
                    our,
                    mac,
                    dest_ip@,
                    protocol,
                    payload@,
                ),
                None => if at == Search::Begin {
                    r matches SendStep::Ask(f) && frame_view(f) == request_of(our, hop_of(dest_ip@))
                } else {
                    r is ReadClock
                },
            },
        },
{
    let hop = next_hop(dest_ip);
    match resolve_with_retry(table, hop, at) {
        SearchStep::Found(dest_mac) => {
            let packet = build_packet(dest_ip, protocol, payload);
            SendStep::Send(send_frame(our, dest_mac, ETHERTYPE_IPV4, packet.as_slice()))
        },
        SearchStep::Ask => SendStep::Ask(send_request(our, hop)),
        SearchStep::ReadClock => SendStep::ReadClock,
        SearchStep::Poll => SendStep::Poll,
        SearchStep::GiveUp => SendStep::GiveUp,
    }
}

/// Whether a received packet is one for this machine to read: no options, addressed here, of a
/// length that fits what arrived.
pub open spec fn acceptable(s: Seq<u8>) -> bool {
    &&& s.len() >= HEADER_LEN
    &&& s[0] == VERSION_IHL
    &&& s.subrange(16, 20) == GUEST_IP@
    &&& HEADER_LEN <= be16(s, 2) <= s.len()
}

/// The fields of a received packet that the layers above go by.
#[derive(Clone, Copy)]
pub struct Header {
    pub protocol: u8,
    pub src_ip: Ipv4Addr,
    pub total_length: usize,
}

/// Reads the header of a received packet.
pub fn parse(payload: &[u8]) -> (r: Option<Header>)
    ensures
        match r {
            Some(h) => {
                &&& acceptable(payload@)
                &&& h.protocol == payload@[9]
                &&& h.src_ip@ == payload@.subrange(12, 16)
                &&& h.total_length == be16(payload@, 2)
            },
            None => !acceptable(payload@),
        },
{
    if payload.len() < HEADER_LEN || payload[0] != VERSION_IHL {
        return None;
    }
    let total_length: usize = read_be16(payload, 2) as usize;
    let dst_ip = read_ip(payload, 16);
    if !same_ip(dst_ip, GUEST_IP) || total_length < HEADER_LEN || total_length > payload.len() {
        return None;
    }
    Some(Header { protocol: payload[9], src_ip: read_ip(payload, 12), total_length })
}

/// The packet as far as its own length goes.
pub open spec fn whole(s: Seq<u8>) -> Seq<u8> {
    s.take(be16(s, 2) as int)
}

/// What the packet carries.
pub open spec fn body(s: Seq<u8>) -> Seq<u8> {
    s.subrange(HEADER_LEN as int, be16(s, 2) as int)
}

/// The stack after a packet came in.
pub open spec fn delivered(n: NetView, s: Seq<u8>, fresh: u64, ticks: u64) -> NetView {
    let src = s.subrange(12, 16);
    if !acceptable(s) {
        n
    } else if s[9] == PROTO_ICMP {
        NetView { echo: crate::net::icmp::received(n.echo, whole(s), src), ..n }
    } else if s[9] == PROTO_UDP {
        NetView { udp: crate::net::udp::received(n.udp, body(s), src), ..n }
    } else if s[9] == PROTO_TCP {
        NetView { tcp: crate::net::tcp::received(n.tcp, body(s), src, fresh, ticks), ..n }
    } else {
        n
    }
}

/// What a packet that came in calls for.
pub open spec fn reaction_to(n: NetView, s: Seq<u8>, fresh: u64, ticks: u64) -> ReactionView {
    let src = s.subrange(12, 16);
    if !acceptable(s) {
        no_reaction()
    } else if s[9] == PROTO_ICMP {
        crate::net::icmp::reaction_to(whole(s), src)
    } else if s[9] == PROTO_TCP {
        crate::net::tcp::reaction_to(n.tcp, body(s), src, fresh, ticks)
    } else {
        no_reaction()
    }
}

/// The packet cut to its own length, and what it carries.
fn split(payload: &[u8], total_length: usize) -> (r: (Vec<u8>, Vec<u8>))
    requires
        acceptable(payload@),
        total_length == be16(payload@, 2),
    ensures
        r.0@ == whole(payload@),
        r.0@.len() <= CHECKSUM_MAX,
        r.1@ == body(payload@),
{
    let all = copy_range(payload, 0, total_length);
    let inner = copy_range(payload, HEADER_LEN, total_length);
    assert(all@ =~= whole(payload@));
    (all, inner)
}

/// Takes in a packet: an acceptable one goes to its protocol, ICMP with the header and the others
/// without. A connection that it opens gets the number `fresh`.
pub fn handle_packet(net: &mut Net, payload: &[u8], fresh: u64, ticks: u64) -> (r: Reaction)
    requires
        old(net).wf(),
        !old(net)@.tcp.sockets.contains_key(fresh),
    ensures
        final(net).wf(),
        final(net)@ == delivered(old(net)@, payload@, fresh, ticks),
        r@ == reaction_to(old(net)@, payload@, fresh, ticks),
{
    let h: Header = match parse(payload) {
        Some(h) => h,
        None => {
            return Reaction { packet: None, track: None, resume: None };
        },
    };
    let (all, inner) = split(payload, h.total_length);
    if h.protocol == PROTO_ICMP {
        let packet = crate::net::icmp::handle_packet(&mut net.echo, all.as_slice(), h.src_ip);
        Reaction { packet, track: None, resume: None }
    } else if h.protocol == PROTO_UDP {
        crate::net::udp::handle_packet(&mut net.udp, inner.as_slice(), h.src_ip);
        Reaction { packet: None, track: None, resume: None }
    } else if h.protocol == PROTO_TCP {
        crate::net::tcp::handle_packet(&mut net.tcp, inner.as_slice(), h.src_ip, fresh, ticks)
    } else {
        Reaction { packet: None, track: None, resume: None }
    }
}

/// A packet built for this machine's own address is read back whole: protocol, sender, payload.
pub proof fn law_packet_reads_back(protocol: u8, payload: Seq<u8>)
    requires
        HEADER_LEN + payload.len() <= 65535,
    ensures
        ({
            let s = packet_of(GUEST_IP@, protocol, payload);
            &&& acceptable(s)
            &&& s[9] == protocol
            &&& s.subrange(12, 16) == GUEST_IP@
            &&& s.subrange(HEADER_LEN as int, be16(s, 2) as int) == payload
        }),
{
    let s = packet_of(GUEST_IP@, protocol, payload);
    let n = (HEADER_LEN + payload.len()) as u16;
    lemma_be16(n);
    let bare = bare_header(GUEST_IP@, protocol, payload.len());
    assert(bare.len() == 20);
    assert(s[2] == be16_bytes(n)[0] && s[3] == be16_bytes(n)[1]);
    assert(be16(s, 2) == n);
    assert(s.subrange(16, 20) =~= GUEST_IP@);
    assert(s.subrange(12, 16) =~= GUEST_IP@);
    assert(s.subrange(HEADER_LEN as int, n as int) =~= payload);
}

/// The header of every packet sent sums to zero.
pub proof fn law_header_verifies(dest: Seq<u8>, protocol: u8, payload: Seq<u8>)
    requires
        dest.len() == 4,
    ensures
        checksum_of(packet_of(dest, protocol, payload).take(HEADER_LEN as int)) == 0,
{
    let bare = bare_header(dest, protocol, payload.len());
    assert(bare.len() == 20);
    assert(bare[10] == 0 && bare[11] == 0);
    law_sealed_verifies(bare, 10);
    assert(packet_of(dest, protocol, payload).take(HEADER_LEN as int) =~= sealed(bare, 10));
}

} // verus!

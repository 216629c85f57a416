//! ICMP: echo, and sockets that see every ICMP packet whole.

use vstd::prelude::*;

use crate::bytes::{be16, be16_bytes, copy_range, push_all, push_be16, read_be16};
use crate::errno::{failed, negated, EDESTADDRREQ, EINVAL, ENOTSOCK};
use crate::net::ipv4::{
    checksum, checksum_of, law_sealed_verifies, put_be16, sealed, Ipv4Addr, CHECKSUM_MAX,
    HEADER_LEN as IP_HEADER_LEN, PROTO_ICMP,
};
use crate::net::queue::{
    cut, cut_to, packet_view, queued, Datagram, DatagramView, Packet, PacketView, RecvQueue,
};
use crate::net::tcp::{no_reaction, ReactionView};
use crate::ordmap::{group_map_views, views, OrdMap};

verus! {

broadcast use group_map_views;

pub const TYPE_ECHO_REPLY: u8 = 0;

pub const TYPE_ECHO_REQUEST: u8 = 8;

pub const HEADER_LEN: usize = 8;

/// An echo reply that came in.
#[derive(Debug, Clone, Copy)]
pub struct EchoReply {
    pub from: Ipv4Addr,
    pub identifier: u16,
    pub sequence: u16,
}

/// An echo reply that came in, as a value.
pub struct EchoReplyView {
    pub from: Seq<u8>,
    pub identifier: u16,
    pub sequence: u16,
}

/// The newest echo reply, and the raw sockets by number.
pub struct EchoState {
    pub last_echo_reply: Option<EchoReply>,
    pub sockets: OrdMap<RecvQueue>,
}

/// The newest echo reply, and what waits for each raw socket.
pub struct EchoView {
    pub last_echo_reply: Option<EchoReplyView>,
    pub sockets: Map<u64, Seq<DatagramView>>,
}

/// An echo reply that there may be.
pub open spec fn reply_view(r: Option<EchoReply>) -> Option<EchoReplyView> {
    match r {
        Some(r) => Some(
            EchoReplyView { from: r.from@, identifier: r.identifier, sequence: r.sequence },
        ),
        None => None,
    }
}

impl View for EchoState {
    type V = EchoView;

    open spec fn view(&self) -> EchoView {
        EchoView {
            last_echo_reply: reply_view(self.last_echo_reply),
            sockets: views(self.sockets@),
        }
    }
}

impl EchoState {
    /// The table is one.
    pub open spec fn wf(&self) -> bool {
        self.sockets.wf()
    }

    /// No reply seen, no socket open.
    pub fn new() -> (r: Self)
        ensures
            r.wf(),
            r@ == (EchoView { last_echo_reply: None, sockets: Map::empty() }),
    {
        EchoState { last_echo_reply: None, sockets: OrdMap::new() }
    }
}

// ---------------------------------------------------------------------------------------------
// Messages
// ---------------------------------------------------------------------------------------------
/// An echo message, its checksum field zero.
pub open spec fn bare_echo(kind: u8, identifier: u16, sequence: u16, data: Seq<u8>) -> Seq<
    u8,
> {
    seq![kind, 0u8, 0, 0] + be16_bytes(identifier) + be16_bytes(sequence) + data
}

/// An echo message.
pub open spec fn echo_of(kind: u8, identifier: u16, sequence: u16, data: Seq<u8>) -> Seq<u8> {
    sealed(bare_echo(kind, identifier, sequence, data), 2)
}

/// Builds an echo message.
pub fn build_packet(kind: u8, identifier: u16, sequence: u16, data: &[u8]) -> (r: Vec<u8>)
    requires
        HEADER_LEN + data@.len() <= CHECKSUM_MAX,
    ensures
        r@ == echo_of(kind, identifier, sequence, data@),
{
    let mut packet: Vec<u8> = Vec::new();
    push_all(&mut packet, &[kind, 0u8, 0, 0]);
    push_be16(&mut packet, identifier);
    push_be16(&mut packet, sequence);
    push_all(&mut packet, data);
    assert(packet@ =~= bare_echo(kind, identifier, sequence, data@));
    let sum: u16 = checksum(packet.as_slice());
    put_be16(&mut packet, 2, sum);
    packet
}

/// The message that asks `dest_ip` for an echo.
pub fn send_echo_request(dest_ip: Ipv4Addr, identifier: u16, sequence: u16, data: &[u8]) -> (r:
    Packet)
    requires
        HEADER_LEN + data@.len() <= CHECKSUM_MAX,
    ensures
        r@ == (PacketView {
            dest: dest_ip@,
            protocol: PROTO_ICMP,
            payload: echo_of(TYPE_ECHO_REQUEST, identifier, sequence, data@),
        }),
{
    let payload = build_packet(TYPE_ECHO_REQUEST, identifier, sequence, data);
    Packet { dest: dest_ip, protocol: PROTO_ICMP, payload }
}

/// The ICMP message in a packet.
pub open spec fn message(ip_packet: Seq<u8>) -> Seq<u8> {
    ip_packet.subrange(IP_HEADER_LEN as int, ip_packet.len() as int)
}

/// Whether a packet holds a message of this type with an echo header.
pub open spec fn is_echo(ip_packet: Seq<u8>, kind: u8) -> bool {
    ip_packet.len() >= IP_HEADER_LEN + HEADER_LEN && ip_packet[IP_HEADER_LEN as int] == kind
}

/// What a packet is answered with.
pub open spec fn answer(ip_packet: Seq<u8>, src: Seq<u8>) -> Option<PacketView> {
    if is_echo(ip_packet, TYPE_ECHO_REQUEST) {
        let m = message(ip_packet);
        Some(
            PacketView {
                dest: src,
                protocol: PROTO_ICMP,
                payload: echo_of(
                    TYPE_ECHO_REPLY,
                    be16(m, 4),
                    be16(m, 6),
                    m.subrange(HEADER_LEN as int, m.len() as int),
                ),
            },
        )
    } else {
        None
    }
}

/// Every raw socket gets the packet.
pub open spec fn delivered(sockets: Map<u64, Seq<DatagramView>>, d: DatagramView) -> Map<
    u64,
    Seq<DatagramView>,
> {
    Map::new(|fd: u64| sockets.contains_key(fd), |fd: u64| queued(sockets[fd], d))
}

/// The state after a packet came in: an echo reply is noted, and every raw socket gets the whole
/// packet, header and all.
pub open spec fn received(s: EchoView, ip_packet: Seq<u8>, src: Seq<u8>) -> EchoView {
    if ip_packet.len() < IP_HEADER_LEN {
        s
    } else {
        EchoView {
            last_echo_reply: if is_echo(ip_packet, TYPE_ECHO_REPLY) {
                let m = message(ip_packet);
                Some(EchoReplyView { from: src, identifier: be16(m, 4), sequence: be16(m, 6) })
            } else {
                s.last_echo_reply
            },
            sockets: delivered(s.sockets, DatagramView { ip: src, port: 0, data: ip_packet }),
        }
    }
}

fn deliver_to_raw_sockets(state: &mut EchoState, src_ip: Ipv4Addr, ip_packet: &[u8])
    requires
        old(state).wf(),
    ensures
        final(state).wf(),
        final(state)@ == (EchoView {
            sockets: delivered(
                old(state)@.sockets,
                DatagramView { ip: src_ip@, port: 0, data: ip_packet@ },
            ),
            ..old(state)@
        }),
{
    let ghost before = state@;
    let ghost d = DatagramView { ip: src_ip@, port: 0, data: ip_packet@ };
    let ghost order = state.sockets.order();
    let mut i: usize = 0;
    proof {
        state.sockets.lemma_order();
    }
    while i < state.sockets.len()
        invariant
            state.wf(),
            i <= order.len(),
            state.sockets.order() == order,
            reply_view(state.last_echo_reply) == before.last_echo_reply,
            d == (DatagramView { ip: src_ip@, port: 0, data: ip_packet@ }),
            state@.sockets.dom() == before.sockets.dom(),
            forall|j: int, k: int| 0 <= j < k < order.len() ==> order[j] < order[k],
            forall|fd: u64| #[trigger] before.sockets.contains_key(fd) <==> order.contains(fd),
            forall|j: int|
                0 <= j < i ==> state@.sockets[#[trigger] order[j]] == queued(
                    before.sockets[order[j]],
                    d,
                ),
            forall|j: int|
                i <= j < order.len() ==> state@.sockets[#[trigger] order[j]]
                    == before.sockets[order[j]],
        decreases order.len() - i,
    {
        let fd: u64 = state.sockets.key_at(i);
        let data = copy_range(ip_packet, 0, ip_packet.len());
        assert(data@ =~= ip_packet@);
        if let Some(socket) = state.sockets.get_mut(fd) {
            socket.push(Datagram { ip: src_ip, port: 0, data });
        }
        assert(state@.sockets.dom() =~= before.sockets.dom());
        i += 1;
    }
    assert(state@.sockets =~= delivered(before.sockets, d)) by {
        assert forall|fd: u64| before.sockets.contains_key(fd) implies state@.sockets[fd] == queued(
            before.sockets[fd],
            d,
        ) by {
            assert(order.contains(fd));
            let j = order.index_of(fd);
            assert(order[j] == fd);
        }
    }
}

/// Takes in a packet, header included. The result is the reply that it asks for.
pub fn handle_packet(state: &mut EchoState, ip_packet: &[u8], src_ip: Ipv4Addr) -> (r: Option<
    Packet,
>)
    requires
        old(state).wf(),
        is_echo(ip_packet@, TYPE_ECHO_REQUEST) ==> message(ip_packet@).len() <= CHECKSUM_MAX,
    ensures
        final(state).wf(),
        final(state)@ == received(old(state)@, ip_packet@, src_ip@),
        packet_view(r) == answer(ip_packet@, src_ip@),
{
    if ip_packet.len() < IP_HEADER_LEN {
        return None;
    }
    let mut reply: Option<Packet> = None;
    if ip_packet.len() >= IP_HEADER_LEN + HEADER_LEN {
        let ghost m = message(ip_packet@);
        let kind: u8 = ip_packet[IP_HEADER_LEN];
        let identifier: u16 = read_be16(ip_packet, IP_HEADER_LEN + 4);
        let sequence: u16 = read_be16(ip_packet, IP_HEADER_LEN + 6);
        assert(identifier == be16(m, 4) && sequence == be16(m, 6));
        if kind == TYPE_ECHO_REQUEST {
            let data = copy_range(ip_packet, IP_HEADER_LEN + HEADER_LEN, ip_packet.len());
            assert(data@ =~= m.subrange(HEADER_LEN as int, m.len() as int));
            let payload = build_packet(TYPE_ECHO_REPLY, identifier, sequence, data.as_slice());
            reply = Some(Packet { dest: src_ip, protocol: PROTO_ICMP, payload });
        } else if kind == TYPE_ECHO_REPLY {
            state.last_echo_reply = Some(EchoReply { from: src_ip, identifier, sequence });
        }
    }
    deliver_to_raw_sockets(state, src_ip, ip_packet);
    reply
}

/// The state once the newest echo reply was taken.
pub open spec fn reply_taken(s: EchoView) -> EchoView {
    EchoView { last_echo_reply: None, ..s }
}

/// Takes the newest echo reply.
pub fn take_echo_reply(state: &mut EchoState) -> (r: Option<EchoReply>)
    requires
        old(state).wf(),
    ensures
        final(state).wf(),
        reply_view(r) == old(state)@.last_echo_reply,
        final(state)@ == reply_taken(old(state)@),
{
    let r = state.last_echo_reply;
    state.last_echo_reply = None;
    r
}

/// What an ICMP packet calls for.
pub open spec fn reaction_to(ip_packet: Seq<u8>, src: Seq<u8>) -> ReactionView {
    ReactionView { packet: answer(ip_packet, src), ..no_reaction() }
}

// ---------------------------------------------------------------------------------------------
// Raw sockets
// ---------------------------------------------------------------------------------------------
/// Whether anything waits for a raw socket; `None` for what is not one.
pub fn has_data_ready(state: &EchoState, real_fd: u64) -> (r: Option<bool>)
    requires
        state.wf(),
    ensures
        r == (if state@.sockets.contains_key(real_fd) {
            Some(state@.sockets[real_fd].len() > 0)
        } else {
            None
        }),
{
    match state.sockets.get(real_fd) {
        Some(socket) => Some(!socket.is_empty()),
        None => None,
    }
}

/// Plain reads carry no sender's address, so a raw socket refuses them.
pub fn raw_read() -> (r: i64)
    ensures
        r == negated(ENOTSOCK),
{
    failed(ENOTSOCK)
}

/// Plain writes carry no destination, so a raw socket refuses them.
pub fn raw_write() -> (r: i64)
    ensures
        r == negated(EDESTADDRREQ),
{
    failed(EDESTADDRREQ)
}

/// Closes a raw socket.
pub fn raw_close(state: &mut EchoState, real_fd: u64) -> (r: i64)
    requires
        old(state).wf(),
    ensures
        final(state).wf(),
        r == 0,
        final(state)@ == (EchoView { sockets: old(state)@.sockets.remove(real_fd), ..old(state)@ }),
{
    let _ = state.sockets.remove(real_fd);
    0
}

/// Opens a raw socket under the number `fd`.
pub fn create_socket(state: &mut EchoState, fd: u64) -> (r: u64)
    requires
        old(state).wf(),
    ensures
        final(state).wf(),
        r == fd,
        final(state)@ == (EchoView {
            sockets: old(state)@.sockets.insert(fd, Seq::empty()),
            ..old(state)@
        }),
{
    state.sockets.insert(fd, RecvQueue::new());
    fd
}

/// Accepts any address for a raw socket, which has no port; `None` for what is not one.
pub fn bind(state: &EchoState, real_fd: u64, addr_given: bool) -> (r: Option<i64>)
    requires
        state.wf(),
    ensures
        r == (if !state@.sockets.contains_key(real_fd) {
            None
        } else if !addr_given {
            Some(negated(EINVAL))
        } else {
            Some(0i64)
        }),
{
    if !state.sockets.contains_key(real_fd) {
        return None;
    }
    if !addr_given {
        return Some(failed(EINVAL));
    }
    Some(0)
}

/// Accepts any option for a raw socket; `None` for what is not one.
pub fn setsockopt(state: &EchoState, real_fd: u64) -> (r: Option<i64>)
    requires
        state.wf(),
    ensures
        r == (if state@.sockets.contains_key(real_fd) {
            Some(0i64)
        } else {
            None
        }),
{
    if state.sockets.contains_key(real_fd) {
        Some(0)
    } else {
        None
    }
}

/// The packet that carries a message through a raw socket as the caller built it. `None` for
/// what is not a raw socket; `data` is missing where the caller gave no buffer for a length above
/// zero.
pub fn sendto(state: &EchoState, real_fd: u64, data: Option<&[u8]>, dest_ip: Ipv4Addr) -> (r:
    Option<Result<Packet, u64>>)
    requires
        state.wf(),
    ensures
        match r {
            None => !state@.sockets.contains_key(real_fd),
            Some(Err(e)) => state@.sockets.contains_key(real_fd) && data.is_none() && e == EINVAL,
            Some(Ok(p)) => {
                &&& state@.sockets.contains_key(real_fd)
                &&& data matches Some(bytes) && p@ == (PacketView {
                    dest: dest_ip@,
                    protocol: PROTO_ICMP,
                    payload: bytes@,
                })
            },
        },
{
    if !state.sockets.contains_key(real_fd) {
        return None;
    }
    match data {
        None => Some(Err(EINVAL)),
        Some(bytes) => {
            let payload = copy_range(bytes, 0, bytes.len());
            assert(payload@ =~= bytes@);
            Some(Ok(Packet { dest: dest_ip, protocol: PROTO_ICMP, payload }))
        },
    }
}

/// Takes the oldest packet that waits for a raw socket, cut to the caller's room. `None` for what
/// is not a raw socket, `Some(None)` where nothing waits.
pub fn recvfrom(state: &mut EchoState, real_fd: u64, buf_len: u64) -> (r: Option<Option<Datagram>>)
    requires
        old(state).wf(),
    ensures
        final(state).wf(),
        ({
            let s = old(state)@;
            match r {
                None => !s.sockets.contains_key(real_fd) && final(state)@ == s,
                Some(None) => {
                    &&& s.sockets.contains_key(real_fd)
                    &&& s.sockets[real_fd].len() == 0
                    &&& final(state)@ == s
                },
                Some(Some(d)) => {
                    let q = s.sockets[real_fd];
                    &&& s.sockets.contains_key(real_fd)
                    &&& q.len() > 0
                    &&& d@ == (DatagramView { port: 0, data: cut(q[0].data, buf_len), ..q[0] })
                    &&& final(state)@ == (EchoView {
                        sockets: s.sockets.insert(real_fd, q.drop_first()),
                        ..s
                    })
                },
            }
        }),
{
    let ghost before = state@;
    let taken = match state.sockets.get_mut(real_fd) {
        None => {
            return None;
        },
        Some(socket) => socket.pop(),
    };
    match taken {
        None => {
            assert(state@.sockets =~= before.sockets);
            Some(None)
        },
        Some(d) => Some(
            Some(Datagram { ip: d.ip, port: 0, data: cut_to(d.data.as_slice(), buf_len) }),
        ),
    }
}

// ---------------------------------------------------------------------------------------------
// Laws
// ---------------------------------------------------------------------------------------------
/// Every echo message sums to zero.
pub proof fn law_echo_verifies(kind: u8, identifier: u16, sequence: u16, data: Seq<u8>)
    ensures
        checksum_of(echo_of(kind, identifier, sequence, data)) == 0,
{
    let s = bare_echo(kind, identifier, sequence, data);
    assert(s[2] == 0 && s[3] == 0);
    law_sealed_verifies(s, 2);
}

/// An echo request is answered to its sender with its own identifier, sequence number and data.
pub proof fn law_echo_answered(
    header: Seq<u8>,
    src: Seq<u8>,
    identifier: u16,
    sequence: u16,
    data: Seq<u8>,
)
    requires
        header.len() == IP_HEADER_LEN,
    ensures
        answer(header + echo_of(TYPE_ECHO_REQUEST, identifier, sequence, data), src) == Some(
            PacketView {
                dest: src,
                protocol: PROTO_ICMP,
                payload: echo_of(TYPE_ECHO_REPLY, identifier, sequence, data),
            },
        ),
{
    let e = echo_of(TYPE_ECHO_REQUEST, identifier, sequence, data);
    let p = header + e;
    assert(message(p) =~= e);
    crate::bytes::lemma_be16(identifier);
    crate::bytes::lemma_be16(sequence);
    assert(e[4] == be16_bytes(identifier)[0] && e[5] == be16_bytes(identifier)[1]);
    assert(e[6] == be16_bytes(sequence)[0] && e[7] == be16_bytes(sequence)[1]);
    assert(e.subrange(HEADER_LEN as int, e.len() as int) =~= data);
}

/// An echo reply that came in is what is taken next, and is taken once.
pub proof fn law_reply_noted(
    s: EchoView,
    header: Seq<u8>,
    src: Seq<u8>,
    identifier: u16,
    sequence: u16,
    data: Seq<u8>,
)
    requires
        header.len() == IP_HEADER_LEN,
    ensures
        received(
            s,
            header + echo_of(TYPE_ECHO_REPLY, identifier, sequence, data),
            src,
        ).last_echo_reply == Some(EchoReplyView { from: src, identifier, sequence }),
{
    let e = echo_of(TYPE_ECHO_REPLY, identifier, sequence, data);
    let p = header + e;
    assert(message(p) =~= e);
    crate::bytes::lemma_be16(identifier);
    crate::bytes::lemma_be16(sequence);
    assert(e[4] == be16_bytes(identifier)[0] && e[5] == be16_bytes(identifier)[1]);
    assert(e[6] == be16_bytes(sequence)[0] && e[7] == be16_bytes(sequence)[1]);
}

/// Whatever was noted before, the echo reply that came in last is what is taken, and it is taken
/// once.
pub proof fn law_reply_taken_once(s: EchoView, ip_packet: Seq<u8>, src: Seq<u8>)
    requires
        is_echo(ip_packet, TYPE_ECHO_REPLY),
    ensures
        received(s, ip_packet, src).last_echo_reply == Some(
            EchoReplyView {
                from: src,
                identifier: be16(ip_packet, 24),
                sequence: be16(ip_packet, 26),
            },
        ),
        reply_taken(received(s, ip_packet, src)).last_echo_reply.is_none(),
{
    let m = message(ip_packet);
    assert(m[4] == ip_packet[24] && m[5] == ip_packet[25]);
    assert(m[6] == ip_packet[26] && m[7] == ip_packet[27]);
}

} // verus!

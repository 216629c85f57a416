//! UDP: datagrams to and from bound sockets.

use vstd::prelude::*;

use crate::bytes::{be16, be16_bytes, copy_range, lemma_be16, push_all, push_be16, read_be16};
use crate::errno::{failed, negated, EADDRINUSE, EDESTADDRREQ, ENOTSOCK};
use crate::net::ipv4::Ipv4Addr;
use crate::net::ports::{
    alloc_ephemeral_port, ephemeral, law_port_is_free, next_after, port_for, EPHEMERAL_PORT_START,
};
use crate::net::queue::{
    cut, cut_to, queued, Datagram, DatagramView, Packet, PacketView, RecvQueue,
};
use crate::ordmap::{group_map_views, views, OrdMap};

verus! {

broadcast use group_map_views;

pub const PROTO_UDP: u8 = 17;

pub const HEADER_LEN: usize = 8;

/// A socket: its port once it has one, and what waits for its reader.
pub struct UdpSocket {
    pub local_port: Option<u16>,
    pub recv_queue: RecvQueue,
}

/// A socket, as a value.
pub struct UdpSocketView {
    pub local_port: Option<u16>,
    pub queue: Seq<DatagramView>,
}

impl View for UdpSocket {
    type V = UdpSocketView;

    open spec fn view(&self) -> UdpSocketView {
        UdpSocketView { local_port: self.local_port, queue: self.recv_queue@ }
    }
}

/// The sockets by number, who has which port, and the port that is up next.
pub struct UdpState {
    pub sockets: OrdMap<UdpSocket>,
    pub ports: OrdMap<u64>,
    pub next_ephemeral: u16,
}

/// The sockets by number, who has which port, and the port that is up next.
pub struct UdpView {
    pub sockets: Map<u64, UdpSocketView>,
    pub ports: Map<u64, u64>,
    pub next_ephemeral: u16,
}

impl View for UdpState {
    type V = UdpView;

    open spec fn view(&self) -> UdpView {
        UdpView {
            sockets: views(self.sockets@),
            ports: self.ports@,
            next_ephemeral: self.next_ephemeral,
        }
    }
}

/// A socket's port leads to that socket.
pub open spec fn udp_ok(s: UdpView) -> bool {
    &&& ephemeral(s.next_ephemeral)
    &&& forall|fd: u64| #[trigger]
        s.sockets.contains_key(fd) ==> (s.sockets[fd].local_port matches Some(p)
            ==> s.ports.contains_key(p as u64) && s.ports[p as u64] == fd)
}

/// A socket that was just made.
pub open spec fn fresh_socket() -> UdpSocketView {
    UdpSocketView { local_port: None, queue: Seq::empty() }
}

/// The state with socket `fd` at `port`.
pub open spec fn bound(s: UdpView, fd: u64, port: u16, next: u16) -> UdpView {
    UdpView {
        sockets: s.sockets.insert(
            fd,
            UdpSocketView { local_port: Some(port), ..s.sockets[fd] },
        ),
        ports: s.ports.insert(port as u64, fd),
        next_ephemeral: next,
    }
}

impl UdpState {
    /// The tables are well formed and agree.
    pub open spec fn wf(&self) -> bool {
        &&& self.sockets.wf()
        &&& self.ports.wf()
        &&& udp_ok(self@)
    }

    /// No socket.
    pub fn new() -> (r: Self)
        ensures
            r.wf(),
            r@ == (UdpView {
                sockets: Map::empty(),
                ports: Map::empty(),
                next_ephemeral: EPHEMERAL_PORT_START,
            }),
    {
        UdpState {
            sockets: OrdMap::new(),
            ports: OrdMap::new(),
            next_ephemeral: EPHEMERAL_PORT_START,
        }
    }
}

/// Opens a socket under the number `fd`.
pub fn create_socket(state: &mut UdpState, fd: u64) -> (r: u64)
    requires
        old(state).wf(),
    ensures
        final(state).wf(),
        r == fd,
        final(state)@ == (UdpView {
            sockets: old(state)@.sockets.insert(fd, fresh_socket()),
            ..old(state)@
        }),
{
    let ghost before = state@;
    state.sockets.insert(fd, UdpSocket { local_port: None, recv_queue: RecvQueue::new() });
    proof {
        assert forall|f: u64| #[trigger] state@.sockets.contains_key(f) implies (
        state@.sockets[f].local_port matches Some(p) ==> state@.ports.contains_key(p as u64)
            && state@.ports[p as u64] == f) by {
            assert(f == fd || before.sockets.contains_key(f));
        }
    }
    fd
}

/// Gives socket `fd` the port `port`, which nobody has.
fn set_port(state: &mut UdpState, fd: u64, port: u16)
    requires
        old(state).wf(),
        old(state)@.sockets.contains_key(fd),
        !old(state)@.ports.contains_key(port as u64),
    ensures
        final(state).wf(),
        final(state)@ == bound(old(state)@, fd, port, old(state)@.next_ephemeral),
{
    let ghost before = state@;
    state.ports.insert(port as u64, fd);
    if let Some(socket) = state.sockets.get_mut(fd) {
        socket.local_port = Some(port);
    }
    proof {
        assert(state@ == bound(before, fd, port, before.next_ephemeral));
        assert forall|f: u64| #[trigger] state@.sockets.contains_key(f) implies (
        state@.sockets[f].local_port matches Some(p) ==> state@.ports.contains_key(p as u64)
            && state@.ports[p as u64] == f) by {
            assert(before.sockets.contains_key(f));
        }
    }
}

/// The port of socket `fd`: the one that it has, or one that nobody has. `None` where all are
/// taken.
pub fn ensure_bound(state: &mut UdpState, fd: u64) -> (r: Option<u16>)
    requires
        old(state).wf(),
        old(state)@.sockets.contains_key(fd),
    ensures
        final(state).wf(),
        r == send_port(old(state)@, fd),
        final(state)@ == send_bound(old(state)@, fd),
{
    let ghost before = state@;
    let has: Option<u16> = match state.sockets.get(fd) {
        Some(socket) => socket.local_port,
        None => None,
    };
    if has.is_some() {
        return has;
    }
    proof {
        law_port_is_free(before.ports, before.next_ephemeral);
    }
    let mut next: u16 = state.next_ephemeral;
    let found: Option<u16> = alloc_ephemeral_port(&state.ports, &mut next);
    state.next_ephemeral = next;
    proof {
        assert forall|f: u64| #[trigger] state@.sockets.contains_key(f) implies (
        state@.sockets[f].local_port matches Some(p) ==> state@.ports.contains_key(p as u64)
            && state@.ports[p as u64] == f) by {
            assert(before.sockets.contains_key(f));
        }
    }
    match found {
        Some(port) => {
            set_port(state, fd, port);
            Some(port)
        },
        None => None,
    }
}

/// The port from which socket `fd` sends.
pub open spec fn send_port(s: UdpView, fd: u64) -> Option<u16> {
    match s.sockets[fd].local_port {
        Some(p) => Some(p),
        None => port_for(s.ports, s.next_ephemeral),
    }
}

/// The state once socket `fd` has a port to send from.
pub open spec fn send_bound(s: UdpView, fd: u64) -> UdpView {
    match s.sockets[fd].local_port {
        Some(_) => s,
        None => match port_for(s.ports, s.next_ephemeral) {
            Some(p) => bound(s, fd, p, next_after(s.ports, s.next_ephemeral)),
            None => s,
        },
    }
}

/// What binding socket `fd` to `port` answers: any free port will do where `port` is zero.
pub open spec fn bind_answer(s: UdpView, fd: u64, port: u16) -> i64 {
    if port == 0 {
        if port_for(s.ports, s.next_ephemeral).is_some() {
            0
        } else {
            negated(EADDRINUSE)
        }
    } else if s.ports.contains_key(port as u64) {
        negated(EADDRINUSE)
    } else {
        0
    }
}

/// The state after binding socket `fd` to `port`.
pub open spec fn bind_state(s: UdpView, fd: u64, port: u16) -> UdpView {
    if port == 0 {
        match port_for(s.ports, s.next_ephemeral) {
            Some(p) => bound(s, fd, p, next_after(s.ports, s.next_ephemeral)),
            None => s,
        }
    } else if s.ports.contains_key(port as u64) {
        s
    } else {
        bound(s, fd, port, s.next_ephemeral)
    }
}

/// Binds a socket to a port.
pub fn bind(state: &mut UdpState, fd: u64, port: u16) -> (r: i64)
    requires
        old(state).wf(),
        old(state)@.sockets.contains_key(fd),
    ensures
        final(state).wf(),
        r == bind_answer(old(state)@, fd, port),
        final(state)@ == bind_state(old(state)@, fd, port),
{
    let ghost before = state@;
    let port: u16 = if port == 0 {
        proof {
            law_port_is_free(before.ports, before.next_ephemeral);
        }
        let mut next: u16 = state.next_ephemeral;
        let found: Option<u16> = alloc_ephemeral_port(&state.ports, &mut next);
        state.next_ephemeral = next;
        proof {
            assert forall|f: u64| #[trigger] state@.sockets.contains_key(f) implies (
            state@.sockets[f].local_port matches Some(p) ==> state@.ports.contains_key(p as u64)
                && state@.ports[p as u64] == f) by {
                assert(before.sockets.contains_key(f));
            }
        }
        match found {
            Some(p) => p,
            None => {
                return failed(EADDRINUSE);
            },
        }
    } else {
        if state.ports.contains_key(port as u64) {
            return failed(EADDRINUSE);
        }
        port
    };
    set_port(state, fd, port);
    0
}

/// Whether `payload` is a datagram: a header, and a length that fits.
pub open spec fn readable(payload: Seq<u8>) -> bool {
    payload.len() >= HEADER_LEN && HEADER_LEN <= be16(payload, 4) <= payload.len()
}

/// The state after `payload` came in from `src`: the datagram waits at the socket that has its
/// destination port, and is lost where there is none.
pub open spec fn received(s: UdpView, payload: Seq<u8>, src: Seq<u8>) -> UdpView {
    let port = be16(payload, 2) as u64;
    if readable(payload) && s.ports.contains_key(port) && s.sockets.contains_key(s.ports[port]) {
        let fd = s.ports[port];
        let d = DatagramView {
            ip: src,
            port: be16(payload, 0),
            data: payload.subrange(HEADER_LEN as int, be16(payload, 4) as int),
        };
        UdpView {
            sockets: s.sockets.insert(
                fd,
                UdpSocketView { queue: queued(s.sockets[fd].queue, d), ..s.sockets[fd] },
            ),
            ..s
        }
    } else {
        s
    }
}

/// Takes in what IPv4 carried.
pub fn handle_packet(state: &mut UdpState, payload: &[u8], src_ip: Ipv4Addr)
    requires
        old(state).wf(),
    ensures
        final(state).wf(),
        final(state)@ == received(old(state)@, payload@, src_ip@),
{
    if payload.len() < HEADER_LEN {
        return;
    }
    let src_port: u16 = read_be16(payload, 0);
    let dst_port: u16 = read_be16(payload, 2);
    let length: usize = read_be16(payload, 4) as usize;
    if length < HEADER_LEN || length > payload.len() {
        return;
    }
    let fd: u64 = match state.ports.get(dst_port as u64) {
        Some(fd) => *fd,
        None => {
            return;
        },
    };
    let ghost before = state@;
    if let Some(socket) = state.sockets.get_mut(fd) {
        let data = copy_range(payload, HEADER_LEN, length);
        socket.recv_queue.push(Datagram { ip: src_ip, port: src_port, data });
    }
    proof {
        assert(state@ == received(before, payload@, src_ip@)) by {
            if !before.sockets.contains_key(fd) {
                assert(state@.sockets =~= before.sockets);
            }
        }
        assert forall|f: u64| #[trigger] state@.sockets.contains_key(f) implies (
        state@.sockets[f].local_port matches Some(p) ==> state@.ports.contains_key(p as u64)
            && state@.ports[p as u64] == f) by {
            assert(before.sockets.contains_key(f));
        }
    }
}

/// The bytes of a datagram. The checksum is left at zero, which stands for none.
pub open spec fn datagram_of(from: u16, to: u16, data: Seq<u8>) -> Seq<u8> {
    be16_bytes(from) + be16_bytes(to) + be16_bytes(((HEADER_LEN + data.len()) % 65536) as u16)
        + seq![0u8, 0u8] + data
}

/// The packet that carries `data` from socket `fd`, which gets a port for it if it has none.
pub fn send(state: &mut UdpState, fd: u64, dest_ip: Ipv4Addr, dest_port: u16, data: &[u8]) -> (r:
    Result<Packet, u64>)
    requires
        old(state).wf(),
        old(state)@.sockets.contains_key(fd),
        HEADER_LEN + data@.len() <= usize::MAX,
    ensures
        final(state).wf(),
        final(state)@ == send_bound(old(state)@, fd),
        match send_port(old(state)@, fd) {
            Some(port) => r matches Ok(p) && p@ == (PacketView {
                dest: dest_ip@,
                protocol: PROTO_UDP,
                payload: datagram_of(port, dest_port, data@),
            }),
            None => r == Err::<Packet, u64>(EADDRINUSE),
        },
{
    match ensure_bound(state, fd) {
        None => Err(EADDRINUSE),
        Some(port) => {
            let mut payload: Vec<u8> = Vec::new();
            push_be16(&mut payload, port);
            push_be16(&mut payload, dest_port);
            push_be16(&mut payload, ((HEADER_LEN + data.len()) % 65536) as u16);
            push_all(&mut payload, &[0u8, 0]);
            push_all(&mut payload, data);
            assert(payload@ =~= datagram_of(port, dest_port, data@));
            Ok(Packet { dest: dest_ip, protocol: PROTO_UDP, payload })
        },
    }
}

/// Takes the oldest datagram that waits for a socket, cut to the caller's room. `None` for what is
/// not a socket of this protocol, `Some(None)` where nothing waits.
pub fn recvfrom(state: &mut UdpState, fd: u64, buf_len: u64) -> (r: Option<Option<Datagram>>)
    requires
        old(state).wf(),
    ensures
        final(state).wf(),
        ({
            let s = old(state)@;
            match r {
                None => !s.sockets.contains_key(fd) && final(state)@ == s,
                Some(None) => {
                    &&& s.sockets.contains_key(fd)
                    &&& s.sockets[fd].queue.len() == 0
                    &&& final(state)@ == s
                },
                Some(Some(d)) => {
                    let q = s.sockets[fd].queue;
                    &&& s.sockets.contains_key(fd)
                    &&& q.len() > 0
                    &&& d@ == (DatagramView { data: cut(q[0].data, buf_len), ..q[0] })
                    &&& final(state)@ == taken(s, fd)
                },
            }
        }),
{
    let ghost before = state@;
    let taken = match state.sockets.get_mut(fd) {
        None => {
            return None;
        },
        Some(socket) => socket.recv_queue.pop(),
    };
    proof {
        if taken.is_none() {
            assert(state@.sockets =~= before.sockets);
        }
        assert forall|f: u64| #[trigger] state@.sockets.contains_key(f) implies (
        state@.sockets[f].local_port matches Some(p) ==> state@.ports.contains_key(p as u64)
            && state@.ports[p as u64] == f) by {
            assert(before.sockets.contains_key(f));
        }
    }
    match taken {
        None => Some(None),
        Some(d) => Some(
            Some(Datagram { ip: d.ip, port: d.port, data: cut_to(d.data.as_slice(), buf_len) }),
        ),
    }
}

/// The state without the oldest datagram of socket `fd`.
pub open spec fn taken(s: UdpView, fd: u64) -> UdpView {
    UdpView {
        sockets: s.sockets.insert(
            fd,
            UdpSocketView { queue: s.sockets[fd].queue.drop_first(), ..s.sockets[fd] },
        ),
        ..s
    }
}

/// Whether anything waits for a socket; `None` for what is not one of this protocol.
pub fn has_data_ready(state: &UdpState, real_fd: u64) -> (r: Option<bool>)
    requires
        state.wf(),
    ensures
        r == (if state@.sockets.contains_key(real_fd) {
            Some(state@.sockets[real_fd].queue.len() > 0)
        } else {
            None
        }),
{
    match state.sockets.get(real_fd) {
        Some(socket) => Some(!socket.recv_queue.is_empty()),
        None => None,
    }
}

/// Plain reads carry no sender's address, so the socket refuses them.
pub fn udp_read() -> (r: i64)
    ensures
        r == negated(ENOTSOCK),
{
    failed(ENOTSOCK)
}

/// Plain writes carry no destination, so the socket refuses them.
pub fn udp_write() -> (r: i64)
    ensures
        r == negated(EDESTADDRREQ),
{
    failed(EDESTADDRREQ)
}

/// The state without socket `fd`.
pub open spec fn closed(s: UdpView, fd: u64) -> UdpView {
    if s.sockets.contains_key(fd) {
        UdpView {
            sockets: s.sockets.remove(fd),
            ports: match s.sockets[fd].local_port {
                Some(p) => s.ports.remove(p as u64),
                None => s.ports,
            },
            ..s
        }
    } else {
        s
    }
}

/// Closes a socket and gives its port back.
pub fn udp_close(state: &mut UdpState, real_fd: u64) -> (r: i64)
    requires
        old(state).wf(),
    ensures
        final(state).wf(),
        r == 0,
        final(state)@ == closed(old(state)@, real_fd),
{
    let ghost before = state@;
    let gone = state.sockets.remove(real_fd);
    match gone {
        Some(socket) => {
            if let Some(port) = socket.local_port {
                let _ = state.ports.remove(port as u64);
            }
        },
        None => {
            assert(state@.sockets =~= before.sockets);
        },
    }
    proof {
        assert(state@ == closed(before, real_fd));
        assert forall|f: u64| #[trigger] state@.sockets.contains_key(f) implies (
        state@.sockets[f].local_port matches Some(p) ==> state@.ports.contains_key(p as u64)
            && state@.ports[p as u64] == f) by {
            assert(before.sockets.contains_key(f));
            if before.sockets.contains_key(real_fd) {
                assert(before.sockets[real_fd].local_port matches Some(p)
                    ==> before.ports[p as u64] == real_fd);
            }
        }
    }
    0
}

// ---------------------------------------------------------------------------------------------
// Laws
// ---------------------------------------------------------------------------------------------
/// No two sockets have the same port.
pub proof fn law_ports_not_shared(s: UdpView, a: u64, b: u64)
    requires
        udp_ok(s),
        s.sockets.contains_key(a),
        s.sockets.contains_key(b),
        s.sockets[a].local_port.is_some(),
        s.sockets[a].local_port == s.sockets[b].local_port,
    ensures
        a == b,
{
}

/// A datagram that one socket sends to the port of another of this machine's waits there, with
/// its sender's port and its data.
pub proof fn law_datagram_arrives(s: UdpView, from: u16, fd: u64, to: u16, data: Seq<u8>, src: Seq<u8>)
    requires
        udp_ok(s),
        s.sockets.contains_key(fd),
        s.sockets[fd].local_port == Some(to),
        HEADER_LEN + data.len() <= 65535,
    ensures
        received(s, datagram_of(from, to, data), src).sockets[fd].queue == queued(
            s.sockets[fd].queue,
            DatagramView { ip: src, port: from, data },
        ),
{
    let d = datagram_of(from, to, data);
    let n = (HEADER_LEN + data.len()) as u16;
    lemma_be16(from);
    lemma_be16(to);
    lemma_be16(n);
    assert(d[0] == be16_bytes(from)[0] && d[1] == be16_bytes(from)[1]);
    assert(d[2] == be16_bytes(to)[0] && d[3] == be16_bytes(to)[1]);
    assert(d[4] == be16_bytes(n)[0] && d[5] == be16_bytes(n)[1]);
    assert(be16(d, 4) == n);
    assert(d.subrange(HEADER_LEN as int, n as int) =~= data);
}

/// A datagram reaches no other socket than the one that has its port.
pub proof fn law_others_untouched(s: UdpView, payload: Seq<u8>, src: Seq<u8>, fd: u64)
    requires
        udp_ok(s),
        s.sockets.contains_key(fd),
        s.ports.contains_key(be16(payload, 2) as u64) ==> s.ports[be16(payload, 2) as u64] != fd,
    ensures
        received(s, payload, src).sockets[fd] == s.sockets[fd],
{
}

/// Once a socket is closed its port can be bound again.
pub proof fn law_port_given_back(s: UdpView, fd: u64, port: u16, other: u64)
    requires
        udp_ok(s),
        s.sockets.contains_key(fd),
        s.sockets[fd].local_port == Some(port),
        port != 0,
    ensures
        bind_answer(s, other, port) == negated(EADDRINUSE),
        bind_answer(closed(s, fd), other, port) == 0,
{
}

} // verus!

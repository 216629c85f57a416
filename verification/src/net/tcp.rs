//! TCP with one segment in flight at a time, a fixed retransmission timeout, and data taken in
//! order only.

use std::collections::VecDeque;

use vstd::prelude::*;

use crate::bytes::{append, be16, be32, copy_range, drain};
use crate::errno::{
    failed, negated, EADDRINUSE, EAGAIN, EBADF, ECONNREFUSED, EHOSTUNREACH, EINVAL, EISCONN,
    ENOTCONN, EOPNOTSUPP, ETIMEDOUT,
};
use crate::net::ipv4::Ipv4Addr;
use crate::net::ports::{
    alloc_ephemeral_port, ephemeral, law_port_is_free, next_after, port_for, EPHEMERAL_PORT_START,
};
use crate::net::queue::{packet_view, Packet, PacketView};
use crate::net::segment::{
    carried, parse, readable, segment_of, send_segment, Arrived, Fields, FLAG_ACK, FLAG_FIN,
    FLAG_PSH, FLAG_RST, FLAG_SYN, MSS,
};
use crate::net::sockaddr::{sockaddr_of, write_sockaddr, SockAddr};
use crate::ordmap::{group_map_views, views, OrdMap};

pub use crate::net::segment::PROTO_TCP;

verus! {

broadcast use group_map_views;

/// The most bytes that wait for a reader.
pub const MAX_RECV_BUF: usize = 65536;

/// How long an acknowledgement is waited for, in ticks.
pub const RETRANSMIT_TICKS: u64 = 100;

/// How often a segment is sent again.
pub const MAX_RETRANSMITS: u32 = 5;

/// How long a connection may take to come up, in ticks.
pub const CONNECT_TIMEOUT_TICKS: u64 = 500;

pub const ACCEPT_BACKLOG_MIN: usize = 1;

pub const ACCEPT_BACKLOG_MAX: usize = 128;

/// Where a connection stands.
#[derive(Clone, Copy, PartialEq, Eq, Debug, Structural)]
pub enum ConnState {
    SynSent,
    SynReceived,
    Established,
    FinWait1,
    FinWait2,
    CloseWait,
    LastAck,
    Closed,
}

/// One connection.
pub struct Connection {
    pub state: ConnState,
    pub local_port: u16,
    pub remote_ip: Ipv4Addr,
    pub remote_port: u16,
    pub send_next: u32,
    pub send_unacked: u32,
    pub recv_next: u32,
    pub send_buf: VecDeque<u8>,
    pub recv_buf: VecDeque<u8>,
    /// The segment that still wants an acknowledgement, as it was sent.
    pub unacked_segment: Option<Vec<u8>>,
    pub retransmit_deadline: Option<u64>,
    pub retransmit_count: u32,
}

/// One connection, as a value.
pub struct ConnView {
    pub state: ConnState,
    pub local_port: u16,
    pub remote_ip: Seq<u8>,
    pub remote_port: u16,
    pub send_next: u32,
    pub send_unacked: u32,
    pub recv_next: u32,
    pub send_buf: Seq<u8>,
    pub recv_buf: Seq<u8>,
    pub unacked_segment: Option<Seq<u8>>,
    pub retransmit_deadline: Option<u64>,
    pub retransmit_count: u32,
}

/// Bytes that there may be.
pub open spec fn bytes_view(b: Option<Vec<u8>>) -> Option<Seq<u8>> {
    match b {
        Some(b) => Some(b@),
        None => None,
    }
}

impl View for Connection {
    type V = ConnView;

    open spec fn view(&self) -> ConnView {
        ConnView {
            state: self.state,
            local_port: self.local_port,
            remote_ip: self.remote_ip@,
            remote_port: self.remote_port,
            send_next: self.send_next,
            send_unacked: self.send_unacked,
            recv_next: self.recv_next,
            send_buf: self.send_buf@,
            recv_buf: self.recv_buf@,
            unacked_segment: bytes_view(self.unacked_segment),
            retransmit_deadline: self.retransmit_deadline,
            retransmit_count: self.retransmit_count,
        }
    }
}

/// A socket that takes connections: those that are up wait in `pending` for `accept`.
pub struct Listener {
    pub backlog: usize,
    pub pending: VecDeque<u64>,
}

/// A socket.
pub enum TcpSocket {
    /// Neither connected nor listening yet.
    Unbound { local_port: Option<u16> },
    Listener(Listener),
    Connection(Connection),
}

/// A socket, as a value.
pub enum SocketView {
    Unbound { local_port: Option<u16> },
    Listener { backlog: usize, pending: Seq<u64> },
    Connection(ConnView),
}

impl View for TcpSocket {
    type V = SocketView;

    open spec fn view(&self) -> SocketView {
        match self {
            TcpSocket::Unbound { local_port } => SocketView::Unbound { local_port: *local_port },
            TcpSocket::Listener(l) => SocketView::Listener {
                backlog: l.backlog,
                pending: l.pending@,
            },
            TcpSocket::Connection(c) => SocketView::Connection(c@),
        }
    }
}

/// Every socket by number, who listens at which port, which socket has which connection, the port
/// that is up next, and how many sequence numbers were drawn.
pub struct TcpState {
    pub sockets: OrdMap<TcpSocket>,
    pub listeners: OrdMap<u64>,
    pub connections: OrdMap<u64>,
    pub next_ephemeral: u16,
    pub isn_counter: u32,
}

/// The state, as a value.
pub struct TcpView {
    pub sockets: Map<u64, SocketView>,
    pub listeners: Map<u64, u64>,
    pub connections: Map<u64, u64>,
    pub next_ephemeral: u16,
    pub isn_counter: u32,
}

impl View for TcpState {
    type V = TcpView;

    open spec fn view(&self) -> TcpView {
        TcpView {
            sockets: views(self.sockets@),
            listeners: self.listeners@,
            connections: self.connections@,
            next_ephemeral: self.next_ephemeral,
            isn_counter: self.isn_counter,
        }
    }
}

// ---------------------------------------------------------------------------------------------
// Numbers
// ---------------------------------------------------------------------------------------------
/// The sequence number `n` bytes on.
pub open spec fn seq_after(seq: u32, n: int) -> u32 {
    ((seq + n) % 0x1_0000_0000) as u32
}

/// The sequence number `n` bytes on.
pub fn advance(seq: u32, n: usize) -> (r: u32)
    ensures
        r == seq_after(seq, n as int),
{
    let n: u64 = n as u64 % 0x1_0000_0000;
    ((seq as u64 + n) % 0x1_0000_0000) as u32
}

/// The number that stands for a connection in the table.
pub open spec fn conn_key(local_port: u16, remote_ip: Seq<u8>, remote_port: u16) -> u64 {
    (local_port * 0x1_0000_0000_0000 + be32(remote_ip, 0) * 0x1_0000 + remote_port) as u64
}

/// The number that stands for a connection in the table.
pub fn connection_key(local_port: u16, remote_ip: Ipv4Addr, remote_port: u16) -> (r: u64)
    ensures
        r == conn_key(local_port, remote_ip@, remote_port),
{
    let ip: u32 = remote_ip[0] as u32 * 16777216 + remote_ip[1] as u32 * 65536 + remote_ip[2] as u32
        * 256 + remote_ip[3] as u32;
    assert(ip == be32(remote_ip@, 0));
    local_port as u64 * 0x1_0000_0000_0000 + ip as u64 * 0x1_0000 + remote_port as u64
}

/// Four bytes are known by their number.
proof fn lemma_ip_unique(a: Seq<u8>, b: Seq<u8>)
    requires
        a.len() == 4,
        b.len() == 4,
        be32(a, 0) == be32(b, 0),
    ensures
        a == b,
{
    let x = a[0] * 16777216 + a[1] * 65536 + a[2] * 256 + a[3];
    let y = b[0] * 16777216 + b[1] * 65536 + b[2] * 256 + b[3];
    assert(x == y);
    let x1 = a[0] * 65536 + a[1] * 256 + a[2];
    let y1 = b[0] * 65536 + b[1] * 256 + b[2];
    assert(x == x1 * 256 + a[3] && y == y1 * 256 + b[3]);
    assert(x1 == y1 && a[3] == b[3]);
    let x2 = a[0] * 256 + a[1];
    let y2 = b[0] * 256 + b[1];
    assert(x1 == x2 * 256 + a[2] && y1 == y2 * 256 + b[2]);
    assert(x2 == y2 && a[2] == b[2]);
    assert(a[0] == b[0] && a[1] == b[1]);
    assert(a =~= b);
}

/// No two connections have the same number.
pub proof fn law_key_unique(p1: u16, ip1: Seq<u8>, q1: u16, p2: u16, ip2: Seq<u8>, q2: u16)
    requires
        ip1.len() == 4,
        ip2.len() == 4,
        conn_key(p1, ip1, q1) == conn_key(p2, ip2, q2),
    ensures
        p1 == p2,
        ip1 == ip2,
        q1 == q2,
{
    let a = be32(ip1, 0);
    let b = be32(ip2, 0);
    lemma_key_parts(p1, a, q1, p2, b, q2);
    lemma_ip_unique(ip1, ip2);
}

/// The parts of a connection's number can be told apart.
proof fn lemma_key_parts(p1: u16, a: u32, q1: u16, p2: u16, b: u32, q2: u16)
    requires
        p1 * 0x1_0000_0000_0000 + a * 0x1_0000 + q1 == p2 * 0x1_0000_0000_0000 + b * 0x1_0000 + q2,
    ensures
        p1 == p2,
        a == b,
        q1 == q2,
{
    let x = p1 * 0x1_0000_0000 + a;
    let y = p2 * 0x1_0000_0000 + b;
    assert(x * 0x1_0000 + q1 == y * 0x1_0000 + q2);
    assert(x == y && q1 == q2);
    assert(p1 == p2 && a == b);
}

/// The window that a buffer with so many bytes leaves.
pub open spec fn window_of(waiting: nat) -> u16 {
    if waiting >= MAX_RECV_BUF {
        0
    } else if waiting == 0 {
        65535
    } else {
        (MAX_RECV_BUF - waiting) as u16
    }
}

/// How much more the peer may send when `recv_buf_len` bytes wait for the reader.
pub fn window_for(recv_buf_len: usize) -> (r: u16)
    ensures
        r == window_of(recv_buf_len as nat),
{
    if recv_buf_len >= MAX_RECV_BUF {
        0
    } else {
        let room: usize = MAX_RECV_BUF - recv_buf_len;
        if room > 65535 {
            65535
        } else {
            room as u16
        }
    }
}

/// The first sequence number of a connection: the clock mixed with a counter.
pub open spec fn isn_of(ticks: u64, counter: u32) -> u32 {
    ((ticks % 0x1_0000_0000) as u32) ^ ((counter * 0x9E37_79B1) % 0x1_0000_0000) as u32
}

/// Draws the first sequence number of a connection.
pub fn isn(state: &mut TcpState, ticks: u64) -> (r: u32)
    ensures
        r == isn_of(ticks, old(state).isn_counter),
        *final(state) == (TcpState {
            isn_counter: seq_after(old(state).isn_counter, 1),
            ..*old(state)
        }),
{
    let counter: u32 = state.isn_counter;
    state.isn_counter = advance(counter, 1);
    let mixed: u32 = ((counter as u64 * 0x9E37_79B1) % 0x1_0000_0000) as u32;
    ((ticks % 0x1_0000_0000) as u32) ^ mixed
}

// ---------------------------------------------------------------------------------------------
// Invariant
// ---------------------------------------------------------------------------------------------
/// A connection's buffers and counters are within their bounds, and a deadline stands exactly
/// where a segment is in flight.
pub open spec fn conn_ok(c: ConnView) -> bool {
    &&& c.recv_buf.len() <= MAX_RECV_BUF
    &&& c.retransmit_count <= MAX_RETRANSMITS
    &&& c.retransmit_deadline.is_some() == c.unacked_segment.is_some()
    &&& c.remote_ip.len() == 4
}

/// Whether a socket is a connection.
pub open spec fn is_conn(s: TcpView, fd: u64) -> bool {
    s.sockets.contains_key(fd) && s.sockets[fd] is Connection
}

/// The connection of socket `fd`.
pub open spec fn conn(s: TcpView, fd: u64) -> ConnView {
    s.sockets[fd]->Connection_0
}

/// Whether a socket listens.
pub open spec fn is_listener(s: TcpView, fd: u64) -> bool {
    s.sockets.contains_key(fd) && s.sockets[fd] is Listener
}

/// The number that stands for this connection.
pub open spec fn key_of(c: ConnView) -> u64 {
    conn_key(c.local_port, c.remote_ip, c.remote_port)
}

/// A socket is what it should be.
pub open spec fn socket_ok(s: SocketView) -> bool {
    match s {
        SocketView::Connection(c) => conn_ok(c),
        SocketView::Listener { backlog, pending } => ACCEPT_BACKLOG_MIN <= backlog
            <= ACCEPT_BACKLOG_MAX,
        SocketView::Unbound { local_port } => true,
    }
}

/// Every socket is what it should be.
pub open spec fn sockets_ok(m: Map<u64, SocketView>) -> bool {
    forall|fd: u64| #[trigger] m.contains_key(fd) ==> socket_ok(m[fd])
}

/// A listening port leads to a listener.
pub open spec fn listeners_ok(s: TcpView) -> bool {
    forall|port: u64| #[trigger]
        s.listeners.contains_key(port) ==> is_listener(s, s.listeners[port])
}

/// A connection's number leads to that connection.
pub open spec fn connections_ok(s: TcpView) -> bool {
    forall|key: u64| #[trigger]
        s.connections.contains_key(key) ==> is_conn(s, s.connections[key]) && key_of(
            conn(s, s.connections[key]),
        ) == key
}

/// The tables agree.
pub open spec fn tcp_ok(s: TcpView) -> bool {
    &&& ephemeral(s.next_ephemeral)
    &&& sockets_ok(s.sockets)
    &&& listeners_ok(s)
    &&& connections_ok(s)
}

impl TcpState {
    /// The tables are well formed and agree.
    pub open spec fn wf(&self) -> bool {
        &&& self.sockets.wf()
        &&& self.listeners.wf()
        &&& self.connections.wf()
        &&& tcp_ok(self@)
    }

    /// No socket.
    pub fn new() -> (r: Self)
        ensures
            r.wf(),
            r@ == (TcpView {
                sockets: Map::empty(),
                listeners: Map::empty(),
                connections: Map::empty(),
                next_ephemeral: EPHEMERAL_PORT_START,
                isn_counter: 0,
            }),
    {
        TcpState {
            sockets: OrdMap::new(),
            listeners: OrdMap::new(),
            connections: OrdMap::new(),
            next_ephemeral: EPHEMERAL_PORT_START,
            isn_counter: 0,
        }
    }
}

/// The state with another connection under `fd`.
pub open spec fn with_conn(s: TcpView, fd: u64, c: ConnView) -> TcpView {
    TcpView { sockets: s.sockets.insert(fd, SocketView::Connection(c)), ..s }
}

/// Changing a connection, but not between whom it is, keeps the tables in agreement.
proof fn lemma_with_conn(s: TcpView, fd: u64, c: ConnView)
    requires
        tcp_ok(s),
        is_conn(s, fd),
        conn_ok(c),
        key_of(c) == key_of(conn(s, fd)),
    ensures
        tcp_ok(with_conn(s, fd, c)),
{
    let t = with_conn(s, fd, c);
    assert forall|f: u64| #[trigger] t.sockets.contains_key(f) implies socket_ok(t.sockets[f]) by {
        assert(s.sockets.contains_key(f));
    }
    assert forall|port: u64| #[trigger] t.listeners.contains_key(port) implies is_listener(
        t,
        t.listeners[port],
    ) by {
        assert(s.listeners.contains_key(port));
    }
    assert forall|key: u64| #[trigger] t.connections.contains_key(key) implies is_conn(
        t,
        t.connections[key],
    ) && key_of(conn(t, t.connections[key])) == key by {
        assert(s.connections.contains_key(key));
    }
}

/// Replaces the sockets' invariant where only the counters beside the tables changed.
proof fn lemma_same_tables(s: TcpView, t: TcpView)
    requires
        tcp_ok(s),
        t.sockets == s.sockets,
        t.listeners == s.listeners,
        t.connections == s.connections,
        ephemeral(t.next_ephemeral),
    ensures
        tcp_ok(t),
{
    assert forall|port: u64| #[trigger] t.listeners.contains_key(port) implies is_listener(
        t,
        t.listeners[port],
    ) by {
        assert(s.listeners.contains_key(port));
    }
    assert forall|key: u64| #[trigger] t.connections.contains_key(key) implies is_conn(
        t,
        t.connections[key],
    ) && key_of(conn(t, t.connections[key])) == key by {
        assert(s.connections.contains_key(key));
    }
}

// ---------------------------------------------------------------------------------------------
// Going away
// ---------------------------------------------------------------------------------------------
/// The state without socket `fd` and without its connection's number.
pub open spec fn torn_down(s: TcpView, fd: u64) -> TcpView {
    TcpView {
        sockets: s.sockets.remove(fd),
        connections: if is_conn(s, fd) {
            s.connections.remove(key_of(conn(s, fd)))
        } else {
            s.connections
        },
        ..s
    }
}

/// Forgets a connection.
fn teardown(state: &mut TcpState, real_fd: u64)
    requires
        old(state).wf(),
        !is_listener(old(state)@, real_fd),
    ensures
        final(state).wf(),
        final(state)@ == torn_down(old(state)@, real_fd),
{
    let ghost s = state@;
    if let Some(TcpSocket::Connection(conn)) = state.sockets.get(real_fd) {
        let key: u64 = connection_key(conn.local_port, conn.remote_ip, conn.remote_port);
        let _ = state.connections.remove(key);
    }
    let _ = state.sockets.remove(real_fd);
    proof {
        let t = state@;
        assert(t == torn_down(s, real_fd));
        assert forall|f: u64| #[trigger] t.sockets.contains_key(f) implies socket_ok(
            t.sockets[f],
        ) by {
            assert(s.sockets.contains_key(f));
        }
        assert forall|port: u64| #[trigger] t.listeners.contains_key(port) implies is_listener(
            t,
            t.listeners[port],
        ) by {
            assert(s.listeners.contains_key(port));
        }
        assert forall|key: u64| #[trigger] t.connections.contains_key(key) implies is_conn(
            t,
            t.connections[key],
        ) && key_of(conn(t, t.connections[key])) == key by {
            assert(s.connections.contains_key(key));
        }
    }
}

// ---------------------------------------------------------------------------------------------
// Sending
// ---------------------------------------------------------------------------------------------
/// The packet that carries a segment of connection `c`.
pub open spec fn conn_packet(c: ConnView, seq: u32, ack: u32, flags: u8, data: Seq<u8>) -> PacketView {
    PacketView {
        dest: c.remote_ip,
        protocol: PROTO_TCP,
        payload: segment_of(
            c.remote_ip,
            Fields {
                local_port: c.local_port,
                remote_port: c.remote_port,
                seq,
                ack,
                flags,
                window: window_of(c.recv_buf.len()),
            },
            data,
        ),
    }
}

fn conn_segment(c: &Connection, seq: u32, ack: u32, flags: u8, data: &[u8]) -> (r: Packet)
    requires
        data@.len() <= MSS,
    ensures
        r@ == conn_packet(c@, seq, ack, flags, data@),
{
    let fields = Fields {
        local_port: c.local_port,
        remote_port: c.remote_port,
        seq,
        ack,
        flags,
        window: window_for(c.recv_buf.len()),
    };
    send_segment(c.remote_ip, fields, data)
}

/// The connection with `segment` in flight since `now`.
pub open spec fn in_flight(c: ConnView, segment: Seq<u8>, now: u64) -> ConnView {
    ConnView {
        unacked_segment: Some(segment),
        retransmit_deadline: Some((now + RETRANSMIT_TICKS) as u64),
        ..c
    }
}

/// The state with `segment` in flight on connection `fd`, where that is still one.
pub open spec fn awaiting(s: TcpView, fd: u64, segment: Seq<u8>, now: u64) -> TcpView {
    if is_conn(s, fd) {
        with_conn(s, fd, in_flight(conn(s, fd), segment, now))
    } else {
        s
    }
}

/// The packet that carries a segment of connection `real_fd`; `None` where that is none.
pub fn send_and_track(
    state: &TcpState,
    real_fd: u64,
    seq: u32,
    ack: u32,
    flags: u8,
    data: &[u8],
) -> (r: Option<Packet>)
    requires
        state.wf(),
        data@.len() <= MSS,
    ensures
        packet_view(r) == (if is_conn(state@, real_fd) {
            Some(conn_packet(conn(state@, real_fd), seq, ack, flags, data@))
        } else {
            None
        }),
{
    match state.sockets.get(real_fd) {
        Some(TcpSocket::Connection(conn)) => Some(conn_segment(conn, seq, ack, flags, data)),
        _ => None,
    }
}

/// Notes that a segment that the peer has to acknowledge went out.
pub fn segment_sent(state: &mut TcpState, real_fd: u64, segment: Vec<u8>, now: u64)
    requires
        old(state).wf(),
        now <= u64::MAX - RETRANSMIT_TICKS,
    ensures
        final(state).wf(),
        final(state)@ == awaiting(old(state)@, real_fd, segment@, now),
{
    let ghost s = state@;
    proof {
        if is_conn(s, real_fd) {
            assert(socket_ok(s.sockets[real_fd]));
            lemma_with_conn(s, real_fd, in_flight(conn(s, real_fd), segment@, now));
        }
    }
    match state.sockets.get_mut(real_fd) {
        Some(TcpSocket::Connection(conn)) => {
            conn.unacked_segment = Some(segment);
            conn.retransmit_deadline = Some(now + RETRANSMIT_TICKS);
        },
        _ => {},
    }
    assert(state@.sockets =~= awaiting(s, real_fd, segment@, now).sockets);
}

/// Bytes of a connection on their way out: the packet that carries them, and what is needed to
/// finish the step once it is known whether the packet went out.
pub struct Outgoing {
    pub fd: u64,
    pub seq: u32,
    pub data: Vec<u8>,
    pub packet: Packet,
}

/// Whether a connection has something to send and may.
pub open spec fn can_send(c: ConnView) -> bool {
    &&& c.unacked_segment.is_none()
    &&& c.send_buf.len() > 0
    &&& c.state == ConnState::Established || c.state == ConnState::CloseWait
}

/// How much of the buffer goes into the next segment.
pub open spec fn next_size(c: ConnView) -> int {
    if c.send_buf.len() <= MSS {
        c.send_buf.len() as int
    } else {
        MSS as int
    }
}

/// The connection without the bytes of the next segment.
pub open spec fn without_next(c: ConnView) -> ConnView {
    ConnView { send_buf: c.send_buf.skip(next_size(c)), ..c }
}

/// What `try_send` hands out.
pub open spec fn is_next(o: Outgoing, fd: u64, c: ConnView) -> bool {
    let chunk = c.send_buf.take(next_size(c));
    &&& o.fd == fd
    &&& o.seq == c.send_next
    &&& o.data@ == chunk
    &&& o.packet@ == conn_packet(c, c.send_next, c.recv_next, FLAG_ACK | FLAG_PSH, chunk)
}

/// Takes the next segment's bytes out of the buffer of a connection that may send. The step is
/// finished by `try_send_done`.
pub fn try_send(state: &mut TcpState, real_fd: u64) -> (r: Option<Outgoing>)
    requires
        old(state).wf(),
    ensures
        final(state).wf(),
        match r {
            Some(o) => {
                let c = conn(old(state)@, real_fd);
                &&& is_conn(old(state)@, real_fd)
                &&& can_send(c)
                &&& is_next(o, real_fd, c)
                &&& final(state)@ == with_conn(old(state)@, real_fd, without_next(c))
            },
            None => {
                &&& !(is_conn(old(state)@, real_fd) && can_send(conn(old(state)@, real_fd)))
                &&& final(state)@ == old(state)@
            },
        },
{
    let ghost s = state@;
    let ghost c = conn(s, real_fd);
    let sendable = match state.sockets.get_mut(real_fd) {
        Some(TcpSocket::Connection(conn)) => if conn.unacked_segment.is_some()
            || conn.send_buf.len() == 0 || !(conn.state == ConnState::Established || conn.state
            == ConnState::CloseWait) {
            None
        } else {
            let take: usize = if conn.send_buf.len() <= MSS {
                conn.send_buf.len()
            } else {
                MSS
            };
            let data = drain(&mut conn.send_buf, take);
            let packet = conn_segment(
                conn,
                conn.send_next,
                conn.recv_next,
                FLAG_ACK | FLAG_PSH,
                data.as_slice(),
            );
            Some(Outgoing { fd: real_fd, seq: conn.send_next, data, packet })
        },
        _ => None,
    };
    proof {
        if sendable.is_some() {
            assert(is_conn(s, real_fd));
            assert(socket_ok(s.sockets[real_fd]));
            lemma_with_conn(s, real_fd, without_next(c));
            assert(state@ == with_conn(s, real_fd, without_next(c)));
        } else {
            assert(state@.sockets =~= s.sockets);
        }
    }
    sendable
}

/// Puts bytes back at the front of a buffer.
fn put_back(buf: &mut VecDeque<u8>, bytes: &[u8])
    ensures
        final(buf)@ == bytes@ + old(buf)@,
{
    let ghost before = buf@;
    let mut i: usize = bytes.len();
    assert(bytes@.skip(i as int) + before =~= before);
    while i > 0
        invariant
            i <= bytes@.len(),
            buf@ == bytes@.skip(i as int) + before,
        decreases i,
    {
        i -= 1;
        buf.push_front(bytes[i]);
        assert(bytes@.skip(i as int) =~= seq![bytes@[i as int]] + bytes@.skip(i + 1));
        assert(buf@ =~= bytes@.skip(i as int) + before);
    }
    assert(bytes@.skip(0) =~= bytes@);
}

/// The state after a segment with `data` from `seq` on went out, or did not: bytes that did not
/// go out are back at the front of the buffer.
pub open spec fn send_done(
    s: TcpView,
    fd: u64,
    seq: u32,
    data: Seq<u8>,
    segment: Seq<u8>,
    went_out: bool,
    now: u64,
) -> TcpView {
    if !is_conn(s, fd) {
        s
    } else if went_out {
        with_conn(
            s,
            fd,
            ConnView {
                send_next: seq_after(seq, data.len() as int),
                ..in_flight(conn(s, fd), segment, now)
            },
        )
    } else {
        with_conn(s, fd, ConnView { send_buf: data + conn(s, fd).send_buf, ..conn(s, fd) })
    }
}

/// Finishes a step that `try_send` began.
pub fn try_send_done(state: &mut TcpState, o: Outgoing, went_out: bool, now: u64)
    requires
        old(state).wf(),
        now <= u64::MAX - RETRANSMIT_TICKS,
    ensures
        final(state).wf(),
        final(state)@ == send_done(
            old(state)@,
            o.fd,
            o.seq,
            o.data@,
            o.packet.payload@,
            went_out,
            now,
        ),
{
    let ghost s = state@;
    let ghost t = send_done(s, o.fd, o.seq, o.data@, o.packet.payload@, went_out, now);
    proof {
        if is_conn(s, o.fd) {
            assert(socket_ok(s.sockets[o.fd]));
            lemma_with_conn(s, o.fd, conn(t, o.fd));
        }
    }
    match state.sockets.get_mut(o.fd) {
        Some(TcpSocket::Connection(conn)) => {
            if went_out {
                conn.unacked_segment = Some(o.packet.payload);
                conn.retransmit_deadline = Some(now + RETRANSMIT_TICKS);
                conn.send_next = advance(o.seq, o.data.len());
            } else {
                put_back(&mut conn.send_buf, o.data.as_slice());
            }
        },
        _ => {},
    }
    assert(state@.sockets =~= t.sockets);
}

/// Starts the end of a connection's sending: the connection moves on to `next_state`, and the
/// result carries the FIN. The step is finished by `fin_done`.
fn send_fin_and_transition(state: &mut TcpState, real_fd: u64, next_state: ConnState) -> (r: Option<
    Outgoing,
>)
    requires
        old(state).wf(),
    ensures
        final(state).wf(),
        match r {
            Some(o) => {
                let c = conn(old(state)@, real_fd);
                &&& is_conn(old(state)@, real_fd)
                &&& is_fin(o, real_fd, c)
                &&& final(state)@ == with_conn(
                    old(state)@,
                    real_fd,
                    ConnView { state: next_state, ..c },
                )
            },
            None => !is_conn(old(state)@, real_fd) && final(state)@ == old(state)@,
        },
{
    let ghost s = state@;
    let ghost c = conn(s, real_fd);
    let out = match state.sockets.get_mut(real_fd) {
        Some(TcpSocket::Connection(conn)) => {
            conn.state = next_state;
            let data: Vec<u8> = Vec::new();
            let packet = conn_segment(
                conn,
                conn.send_next,
                conn.recv_next,
                FLAG_FIN | FLAG_ACK,
                data.as_slice(),
            );
            Some(Outgoing { fd: real_fd, seq: conn.send_next, data, packet })
        },
        _ => None,
    };
    proof {
        if out.is_some() {
            assert(is_conn(s, real_fd));
            assert(socket_ok(s.sockets[real_fd]));
            lemma_with_conn(s, real_fd, ConnView { state: next_state, ..c });
            assert(state@ == with_conn(s, real_fd, ConnView { state: next_state, ..c }));
        } else {
            assert(state@.sockets =~= s.sockets);
        }
    }
    out
}

/// What carries the FIN of a connection.
pub open spec fn is_fin(o: Outgoing, fd: u64, c: ConnView) -> bool {
    &&& o.fd == fd
    &&& o.seq == c.send_next
    &&& o.data@ == Seq::<u8>::empty()
    &&& o.packet@ == conn_packet(c, c.send_next, c.recv_next, FLAG_FIN | FLAG_ACK, Seq::empty())
}

/// The state after a FIN with the number `seq` went out, or did not: its number is used up either
/// way.
pub open spec fn fin_sent(
    s: TcpView,
    fd: u64,
    seq: u32,
    segment: Seq<u8>,
    went_out: bool,
    now: u64,
) -> TcpView {
    if !is_conn(s, fd) {
        s
    } else {
        let c = if went_out {
            in_flight(conn(s, fd), segment, now)
        } else {
            conn(s, fd)
        };
        with_conn(s, fd, ConnView { send_next: seq_after(seq, 1), ..c })
    }
}

/// Finishes a close that sent a FIN.
pub fn fin_done(state: &mut TcpState, o: Outgoing, went_out: bool, now: u64)
    requires
        old(state).wf(),
        now <= u64::MAX - RETRANSMIT_TICKS,
    ensures
        final(state).wf(),
        final(state)@ == fin_sent(old(state)@, o.fd, o.seq, o.packet.payload@, went_out, now),
{
    let ghost s = state@;
    let ghost t = fin_sent(s, o.fd, o.seq, o.packet.payload@, went_out, now);
    proof {
        if is_conn(s, o.fd) {
            assert(socket_ok(s.sockets[o.fd]));
            lemma_with_conn(s, o.fd, conn(t, o.fd));
        }
    }
    match state.sockets.get_mut(o.fd) {
        Some(TcpSocket::Connection(conn)) => {
            if went_out {
                conn.unacked_segment = Some(o.packet.payload);
                conn.retransmit_deadline = Some(now + RETRANSMIT_TICKS);
            }
            conn.send_next = advance(o.seq, 1);
        },
        _ => {},
    }
    assert(state@.sockets =~= t.sockets);
}

// ---------------------------------------------------------------------------------------------
// Sending again
// ---------------------------------------------------------------------------------------------
/// Whether the acknowledgement that a connection waits for is overdue.
pub open spec fn overdue(s: TcpView, fd: u64, now: u64) -> bool {
    is_conn(s, fd) && (conn(s, fd).retransmit_deadline matches Some(d) && now >= d)
}

/// Whether `fd` comes behind `after` in the order of numbers.
pub open spec fn beyond(after: Option<u64>, fd: u64) -> bool {
    after matches Some(a) ==> a < fd
}

/// Whether `fd` is the first connection behind `after` that was overdue when the round began and
/// still is.
pub open spec fn is_next_due(s: TcpView, after: Option<u64>, began: u64, fd: u64) -> bool {
    &&& beyond(after, fd)
    &&& overdue(s, fd, began)
    &&& forall|g: u64| beyond(after, g) && #[trigger] overdue(s, g, began) ==> fd <= g
}

/// The state after one more try on connection `fd`, which is given up when the tries are used up.
pub open spec fn retried(s: TcpView, fd: u64, now: u64) -> TcpView {
    if !is_conn(s, fd) {
        s
    } else if conn(s, fd).retransmit_count >= MAX_RETRANSMITS {
        torn_down(s, fd)
    } else {
        with_conn(
            s,
            fd,
            ConnView {
                retransmit_count: (conn(s, fd).retransmit_count + 1) as u32,
                retransmit_deadline: Some((now + RETRANSMIT_TICKS) as u64),
                ..conn(s, fd)
            },
        )
    }
}

/// What one more try on connection `fd` sends: the segment as it was.
pub open spec fn retry_packet(s: TcpView, fd: u64) -> Option<PacketView> {
    if is_conn(s, fd) && conn(s, fd).retransmit_count < MAX_RETRANSMITS {
        match conn(s, fd).unacked_segment {
            Some(segment) => Some(
                PacketView {
                    dest: conn(s, fd).remote_ip,
                    protocol: PROTO_TCP,
                    payload: segment,
                },
            ),
            None => None,
        }
    } else {
        None
    }
}

/// Tries once more, or gives up.
fn retransmit_or_give_up(state: &mut TcpState, real_fd: u64, now: u64) -> (r: Option<Packet>)
    requires
        old(state).wf(),
        is_conn(old(state)@, real_fd),
        conn(old(state)@, real_fd).unacked_segment.is_some(),
        now <= u64::MAX - RETRANSMIT_TICKS,
    ensures
        final(state).wf(),
        final(state)@ == retried(old(state)@, real_fd, now),
        packet_view(r) == retry_packet(old(state)@, real_fd),
{
    let ghost s = state@;
    proof {
        assert(socket_ok(s.sockets[real_fd]));
        if conn(s, real_fd).retransmit_count < MAX_RETRANSMITS {
            lemma_with_conn(s, real_fd, conn(retried(s, real_fd, now), real_fd));
        }
    }
    let mut give_up = false;
    let mut again: Option<Packet> = None;
    match state.sockets.get_mut(real_fd) {
        Some(TcpSocket::Connection(conn)) => {
            if conn.retransmit_count >= MAX_RETRANSMITS {
                give_up = true;
            } else {
                conn.retransmit_count = conn.retransmit_count + 1;
                conn.retransmit_deadline = Some(now + RETRANSMIT_TICKS);
                if let Some(segment) = &conn.unacked_segment {
                    let payload = copy_range(segment.as_slice(), 0, segment.len());
                    assert(payload@ =~= segment@);
                    again = Some(
                        Packet { dest: conn.remote_ip, protocol: PROTO_TCP, payload },
                    );
                }
            }
        },
        _ => {},
    }
    if give_up {
        assert(state@.sockets =~= s.sockets);
        teardown(state, real_fd);
    } else {
        assert(state@.sockets =~= retried(s, real_fd, now).sockets);
    }
    again
}

/// A connection that was seen to: what is to be sent again, unless it was given up.
pub struct Retry {
    pub fd: u64,
    pub packet: Option<Packet>,
}

/// One step of a round that began at tick `began`: sees to the first connection behind `after` whose
/// acknowledgement was overdue then and has not come since. The packet is sent before the next
/// step, and what arrives meanwhile counts. `None` ends the round.
pub fn check_retransmits(state: &mut TcpState, after: Option<u64>, began: u64, now: u64) -> (r: Option<
    Retry,
>)
    requires
        old(state).wf(),
        now <= u64::MAX - RETRANSMIT_TICKS,
    ensures
        final(state).wf(),
        match r {
            Some(again) => {
                &&& is_next_due(old(state)@, after, began, again.fd)
                &&& final(state)@ == retried(old(state)@, again.fd, now)
                &&& packet_view(again.packet) == retry_packet(old(state)@, again.fd)
            },
            None => {
                &&& forall|g: u64| beyond(after, g) ==> !#[trigger] overdue(old(state)@, g, began)
                &&& final(state)@ == old(state)@
            },
        },
{
    let ghost s = state@;
    let ghost order = state.sockets.order();
    let mut i: usize = 0;
    proof {
        state.sockets.lemma_order();
    }
    while i < state.sockets.len()
        invariant
            state.wf(),
            state@ == s,
            state.sockets.order() == order,
            i <= order.len(),
            now <= u64::MAX - RETRANSMIT_TICKS,
            *state == *old(state),
            forall|j: int, k: int| 0 <= j < k < order.len() ==> order[j] < order[k],
            forall|g: u64| #[trigger] s.sockets.contains_key(g) <==> order.contains(g),
            forall|j: int|
                0 <= j < i ==> !(beyond(after, #[trigger] order[j]) && overdue(s, order[j], began)),
        decreases order.len() - i,
    {
        let fd: u64 = state.sockets.key_at(i);
        let mut late = false;
        match state.sockets.val_at(i) {
            TcpSocket::Connection(conn) => {
                if let Some(d) = conn.retransmit_deadline {
                    if began >= d {
                        late = true;
                    }
                }
            },
            _ => {},
        }
        assert(late == overdue(s, fd, began));
        let behind: bool = match after {
            Some(a) => a < fd,
            None => true,
        };
        if late && behind {
            proof {
                assert forall|g: u64| beyond(after, g) && #[trigger] overdue(s, g, began) implies fd
                    <= g by {
                    assert(s.sockets.contains_key(g));
                    let j = order.index_of(g);
                    assert(order[j] == g);
                    if j < i {
                        assert(!(beyond(after, order[j]) && overdue(s, order[j], began)));
                    }
                }
                assert(socket_ok(s.sockets[fd]));
            }
            let packet = retransmit_or_give_up(state, fd, now);
            return Some(Retry { fd, packet });
        }
        i += 1;
    }
    proof {
        assert forall|g: u64| beyond(after, g) implies !#[trigger] overdue(s, g, began) by {
            if overdue(s, g, began) {
                assert(s.sockets.contains_key(g));
                let j = order.index_of(g);
                assert(order[j] == g);
            }
        }
    }
    None
}

// ---------------------------------------------------------------------------------------------
// Receiving
// ---------------------------------------------------------------------------------------------
/// What a received segment calls for, in this order: a packet is sent; where it has to be
/// acknowledged and went out, `segment_sent` is told of it for the socket in `track`; the socket
/// in `resume` goes on with `try_send`.
pub struct Reaction {
    pub packet: Option<Packet>,
    pub track: Option<u64>,
    pub resume: Option<u64>,
}

/// What a received segment calls for, as a value.
pub struct ReactionView {
    pub packet: Option<PacketView>,
    pub track: Option<u64>,
    pub resume: Option<u64>,
}

impl View for Reaction {
    type V = ReactionView;

    open spec fn view(&self) -> ReactionView {
        ReactionView {
            packet: packet_view(self.packet),
            track: self.track,
            resume: self.resume,
        }
    }
}

/// Nothing is called for.
pub open spec fn no_reaction() -> ReactionView {
    ReactionView { packet: None, track: None, resume: None }
}

/// One packet is called for, and nothing after it.
pub open spec fn reply_with(p: PacketView) -> ReactionView {
    ReactionView { packet: Some(p), ..no_reaction() }
}

fn nothing() -> (r: Reaction)
    ensures
        r@ == no_reaction(),
{
    Reaction { packet: None, track: None, resume: None }
}

fn reply(p: Packet) -> (r: Reaction)
    ensures
        r@ == reply_with(p@),
{
    Reaction { packet: Some(p), track: None, resume: None }
}

/// A refusal of a segment with the number `seq`.
pub open spec fn reset_packet(local_port: u16, remote_ip: Seq<u8>, remote_port: u16, seq: u32) -> PacketView {
    PacketView {
        dest: remote_ip,
        protocol: PROTO_TCP,
        payload: segment_of(
            remote_ip,
            Fields {
                local_port,
                remote_port,
                seq: 0,
                ack: seq_after(seq, 1),
                flags: FLAG_RST | FLAG_ACK,
                window: 0,
            },
            Seq::empty(),
        ),
    }
}

fn reset(local_port: u16, remote_ip: Ipv4Addr, remote_port: u16, seq: u32) -> (r: Packet)
    ensures
        r@ == reset_packet(local_port, remote_ip@, remote_port, seq),
{
    let none: Vec<u8> = Vec::new();
    let fields = Fields {
        local_port,
        remote_port,
        seq: 0,
        ack: advance(seq, 1),
        flags: FLAG_RST | FLAG_ACK,
        window: 0,
    };
    let r = send_segment(remote_ip, fields, none.as_slice());
    assert(none@ =~= Seq::<u8>::empty());
    r
}

/// A connection at its first segment, which has the number `isn`.
pub open spec fn new_conn(
    state: ConnState,
    local_port: u16,
    remote_ip: Seq<u8>,
    remote_port: u16,
    isn: u32,
    recv_next: u32,
) -> ConnView {
    ConnView {
        state,
        local_port,
        remote_ip,
        remote_port,
        send_next: seq_after(isn, 1),
        send_unacked: isn,
        recv_next,
        send_buf: Seq::empty(),
        recv_buf: Seq::empty(),
        unacked_segment: None,
        retransmit_deadline: None,
        retransmit_count: 0,
    }
}

/// The state with connection `c` under the number `fd`.
pub open spec fn with_new_conn(s: TcpView, fd: u64, c: ConnView) -> TcpView {
    TcpView {
        sockets: s.sockets.insert(fd, SocketView::Connection(c)),
        connections: s.connections.insert(key_of(c), fd),
        ..s
    }
}

/// Puts a connection at its first segment under the number `fd`, which nobody listens or is
/// connected under.
fn open_connection(
    state: &mut TcpState,
    fd: u64,
    conn_state: ConnState,
    local_port: u16,
    remote_ip: Ipv4Addr,
    remote_port: u16,
    isn: u32,
    recv_next: u32,
)
    requires
        old(state).wf(),
        old(state)@.sockets.contains_key(fd) ==> old(state)@.sockets[fd] is Unbound,
    ensures
        final(state).wf(),
        final(state)@ == with_new_conn(
            old(state)@,
            fd,
            new_conn(conn_state, local_port, remote_ip@, remote_port, isn, recv_next),
        ),
{
    let ghost s = state@;
    let opened = Connection {
        state: conn_state,
        local_port,
        remote_ip,
        remote_port,
        send_next: advance(isn, 1),
        send_unacked: isn,
        recv_next,
        send_buf: VecDeque::new(),
        recv_buf: VecDeque::new(),
        unacked_segment: None,
        retransmit_deadline: None,
        retransmit_count: 0,
    };
    let ghost c = opened@;
    assert(c == new_conn(conn_state, local_port, remote_ip@, remote_port, isn, recv_next));
    state.connections.insert(connection_key(local_port, remote_ip, remote_port), fd);
    state.sockets.insert(fd, TcpSocket::Connection(opened));
    proof {
        let t = state@;
        assert(t == with_new_conn(s, fd, c));
        assert forall|f: u64| #[trigger] t.sockets.contains_key(f) implies socket_ok(
            t.sockets[f],
        ) by {
            assert(f == fd || s.sockets.contains_key(f));
        }
        assert forall|port: u64| #[trigger] t.listeners.contains_key(port) implies is_listener(
            t,
            t.listeners[port],
        ) by {
            assert(s.listeners.contains_key(port));
        }
        assert forall|key: u64| #[trigger] t.connections.contains_key(key) implies is_conn(
            t,
            t.connections[key],
        ) && key_of(conn(t, t.connections[key])) == key by {
            if key != key_of(c) {
                assert(s.connections.contains_key(key));
            }
        }
    }
}

/// Whether the port takes one more connection.
pub open spec fn has_room(s: TcpView, port: u16) -> bool {
    let l = s.listeners[port as u64];
    s.sockets.contains_key(l) && (s.sockets[l] matches SocketView::Listener { backlog, pending }
        && pending.len() < backlog)
}

/// The state after somebody asked for a connection.
pub open spec fn syn_state(
    s: TcpView,
    local_port: u16,
    remote_ip: Seq<u8>,
    remote_port: u16,
    their_seq: u32,
    fresh: u64,
    ticks: u64,
) -> TcpView {
    if s.listeners.contains_key(local_port as u64) && has_room(s, local_port) {
        let drawn = TcpView { isn_counter: seq_after(s.isn_counter, 1), ..s };
        with_new_conn(
            drawn,
            fresh,
            new_conn(
                ConnState::SynReceived,
                local_port,
                remote_ip,
                remote_port,
                isn_of(ticks, s.isn_counter),
                seq_after(their_seq, 1),
            ),
        )
    } else {
        s
    }
}

/// What asking for a connection is answered with: a reset where nobody listens, nothing where the
/// listener has no room, and otherwise the second step of the handshake.
pub open spec fn syn_reaction(
    s: TcpView,
    local_port: u16,
    remote_ip: Seq<u8>,
    remote_port: u16,
    their_seq: u32,
    fresh: u64,
    ticks: u64,
) -> ReactionView {
    if !s.listeners.contains_key(local_port as u64) {
        reply_with(reset_packet(local_port, remote_ip, remote_port, their_seq))
    } else if !has_room(s, local_port) {
        no_reaction()
    } else {
        let t = syn_state(s, local_port, remote_ip, remote_port, their_seq, fresh, ticks);
        ReactionView {
            packet: Some(
                conn_packet(
                    conn(t, fresh),
                    isn_of(ticks, s.isn_counter),
                    seq_after(their_seq, 1),
                    FLAG_SYN | FLAG_ACK,
                    Seq::empty(),
                ),
            ),
            track: Some(fresh),
            resume: None,
        }
    }
}

/// Takes in a request for a connection, which gets the number `fresh`.
pub fn handle_new_syn(
    state: &mut TcpState,
    local_port: u16,
    remote_ip: Ipv4Addr,
    remote_port: u16,
    their_seq: u32,
    fresh: u64,
    ticks: u64,
) -> (r: Reaction)
    requires
        old(state).wf(),
        !old(state)@.sockets.contains_key(fresh),
    ensures
        final(state).wf(),
        final(state)@ == syn_state(
            old(state)@,
            local_port,
            remote_ip@,
            remote_port,
            their_seq,
            fresh,
            ticks,
        ),
        r@ == syn_reaction(
            old(state)@,
            local_port,
            remote_ip@,
            remote_port,
            their_seq,
            fresh,
            ticks,
        ),
{
    let ghost s = state@;
    let listener_fd: u64 = match state.listeners.get(local_port as u64) {
        Some(fd) => *fd,
        None => {
            return reply(reset(local_port, remote_ip, remote_port, their_seq));
        },
    };
    let backlog_full = match state.sockets.get(listener_fd) {
        Some(TcpSocket::Listener(l)) => l.pending.len() >= l.backlog,
        _ => true,
    };
    if backlog_full {
        return nothing();
    }
    let seq: u32 = isn(state, ticks);
    proof {
        lemma_same_tables(s, state@);
    }
    open_connection(
        state,
        fresh,
        ConnState::SynReceived,
        local_port,
        remote_ip,
        remote_port,
        seq,
        advance(their_seq, 1),
    );
    let none: Vec<u8> = Vec::new();
    assert(none@ =~= Seq::<u8>::empty());
    let packet = send_and_track(
        state,
        fresh,
        seq,
        advance(their_seq, 1),
        FLAG_SYN | FLAG_ACK,
        none.as_slice(),
    );
    Reaction { packet, track: Some(fresh), resume: None }
}

/// The connection when the segment in flight was acknowledged.
pub open spec fn acknowledged(c: ConnView) -> ConnView {
    ConnView {
        send_unacked: c.send_next,
        unacked_segment: None,
        retransmit_deadline: None,
        ..c
    }
}

/// Whether this is the answer that a connection in its first step waits for.
pub open spec fn answers_syn(c: ConnView, ack: u32, flags: u8) -> bool {
    flags & FLAG_SYN != 0 && flags & FLAG_ACK != 0 && ack == c.send_next
}

/// The connection once its request was answered.
pub open spec fn connected(c: ConnView, seq: u32) -> ConnView {
    ConnView {
        state: ConnState::Established,
        recv_next: seq_after(seq, 1),
        ..acknowledged(c)
    }
}

/// The acknowledgement of all that came in.
pub open spec fn ack_packet(c: ConnView) -> PacketView {
    conn_packet(c, c.send_next, c.recv_next, FLAG_ACK, Seq::empty())
}

fn ack_segment(c: &Connection) -> (r: Packet)
    ensures
        r@ == ack_packet(c@),
{
    let none: Vec<u8> = Vec::new();
    assert(none@ =~= Seq::<u8>::empty());
    conn_segment(c, c.send_next, c.recv_next, FLAG_ACK, none.as_slice())
}

/// Takes in what a connection that asked for itself gets back.
fn handle_syn_sent(state: &mut TcpState, real_fd: u64, seq: u32, ack: u32, flags: u8) -> (r: Reaction)
    requires
        old(state).wf(),
        is_conn(old(state)@, real_fd),
    ensures
        final(state).wf(),
        ({
            let s = old(state)@;
            let c = conn(s, real_fd);
            if answers_syn(c, ack, flags) {
                &&& final(state)@ == with_conn(s, real_fd, connected(c, seq))
                &&& r@ == reply_with(ack_packet(connected(c, seq)))
            } else {
                final(state)@ == s && r@ == no_reaction()
            }
        }),
{
    let ghost s = state@;
    let ghost c = conn(s, real_fd);
    if flags & FLAG_SYN == 0 || flags & FLAG_ACK == 0 {
        return nothing();
    }
    proof {
        assert(socket_ok(s.sockets[real_fd]));
        lemma_with_conn(s, real_fd, connected(c, seq));
    }
    let mut r = nothing();
    match state.sockets.get_mut(real_fd) {
        Some(TcpSocket::Connection(conn)) => {
            if ack == conn.send_next {
                conn.recv_next = advance(seq, 1);
                conn.send_unacked = conn.send_next;
                conn.unacked_segment = None;
                conn.retransmit_deadline = None;
                conn.state = ConnState::Established;
                r = reply(ack_segment(conn));
            }
        },
        _ => {},
    }
    proof {
        if answers_syn(c, ack, flags) {
            assert(state@ == with_conn(s, real_fd, connected(c, seq)));
        } else {
            assert(state@.sockets =~= s.sockets);
        }
    }
    r
}

/// The state with connection `fd` waiting to be accepted at `port`, where somebody still listens.
pub open spec fn pended(s: TcpView, port: u16, fd: u64) -> TcpView {
    if s.listeners.contains_key(port as u64) {
        let l = s.listeners[port as u64];
        match s.sockets[l] {
            SocketView::Listener { backlog, pending } => TcpView {
                sockets: s.sockets.insert(
                    l,
                    SocketView::Listener { backlog, pending: pending.push(fd) },
                ),
                ..s
            },
            _ => s,
        }
    } else {
        s
    }
}

/// The connection once its handshake is through.
pub open spec fn accepted(c: ConnView) -> ConnView {
    ConnView { state: ConnState::Established, ..acknowledged(c) }
}

/// Replacing a listener by another keeps the tables in agreement.
proof fn lemma_with_listener(s: TcpView, fd: u64, backlog: usize, pending: Seq<u64>)
    requires
        tcp_ok(s),
        is_listener(s, fd),
        ACCEPT_BACKLOG_MIN <= backlog <= ACCEPT_BACKLOG_MAX,
    ensures
        tcp_ok(
            TcpView {
                sockets: s.sockets.insert(fd, SocketView::Listener { backlog, pending }),
                ..s
            },
        ),
{
    let t = TcpView {
        sockets: s.sockets.insert(fd, SocketView::Listener { backlog, pending }),
        ..s
    };
    assert forall|f: u64| #[trigger] t.sockets.contains_key(f) implies socket_ok(t.sockets[f]) by {
        assert(f == fd || s.sockets.contains_key(f));
    }
    assert forall|port: u64| #[trigger] t.listeners.contains_key(port) implies is_listener(
        t,
        t.listeners[port],
    ) by {
        assert(s.listeners.contains_key(port));
    }
    assert forall|key: u64| #[trigger] t.connections.contains_key(key) implies is_conn(
        t,
        t.connections[key],
    ) && key_of(conn(t, t.connections[key])) == key by {
        assert(s.connections.contains_key(key));
    }
}

/// Takes in the third step of a handshake.
fn handle_syn_received(state: &mut TcpState, real_fd: u64, ack: u32, flags: u8)
    requires
        old(state).wf(),
        is_conn(old(state)@, real_fd),
    ensures
        final(state).wf(),
        ({
            let s = old(state)@;
            let c = conn(s, real_fd);
            final(state)@ == (if flags & FLAG_ACK != 0 && ack == c.send_next {
                pended(with_conn(s, real_fd, accepted(c)), c.local_port, real_fd)
            } else {
                s
            })
        }),
{
    let ghost s = state@;
    let ghost c = conn(s, real_fd);
    if flags & FLAG_ACK == 0 {
        return;
    }
    proof {
        assert(socket_ok(s.sockets[real_fd]));
        lemma_with_conn(s, real_fd, accepted(c));
    }
    let mut port: Option<u16> = None;
    match state.sockets.get_mut(real_fd) {
        Some(TcpSocket::Connection(conn)) => {
            if ack == conn.send_next {
                conn.send_unacked = conn.send_next;
                conn.unacked_segment = None;
                conn.retransmit_deadline = None;
                conn.state = ConnState::Established;
                port = Some(conn.local_port);
            }
        },
        _ => {},
    }
    if let Some(local_port) = port {
        let ghost t = state@;
        assert(t == with_conn(s, real_fd, accepted(c)));
        if let Some(l) = state.listeners.get(local_port as u64) {
            let listener_fd: u64 = *l;
            assert(t.listeners.contains_key(local_port as u64));
            assert(is_listener(t, listener_fd));
            assert(t.sockets.contains_key(listener_fd));
            assert(socket_ok(t.sockets[listener_fd]));
            proof {
                lemma_with_listener(
                    t,
                    listener_fd,
                    t.sockets[listener_fd]->Listener_backlog,
                    t.sockets[listener_fd]->Listener_pending.push(real_fd),
                );
            }
            match state.sockets.get_mut(listener_fd) {
                Some(TcpSocket::Listener(l)) => {
                    l.pending.push_back(real_fd);
                },
                _ => {},
            }
            assert(state@.sockets =~= pended(t, c.local_port, real_fd).sockets);
        }
    } else {
        assert(state@.sockets =~= s.sockets);
    }
}

/// The connection after the acknowledgement in a segment was read.
pub open spec fn after_ack(c: ConnView, ack: u32, flags: u8) -> ConnView {
    if flags & FLAG_ACK != 0 && ack != c.send_unacked && ack == c.send_next {
        ConnView {
            state: if c.state == ConnState::FinWait1 {
                ConnState::FinWait2
            } else {
                c.state
            },
            retransmit_count: 0,
            ..acknowledged(c)
        }
    } else {
        c
    }
}

/// How many of `n` bytes the connection has room for.
pub open spec fn room_for(c: ConnView, n: nat) -> int {
    if c.recv_buf.len() + n <= MAX_RECV_BUF {
        n as int
    } else {
        MAX_RECV_BUF - c.recv_buf.len()
    }
}

/// The connection after the bytes in a segment were read: only the next ones in order are taken,
/// as far as there is room.
pub open spec fn after_data(c: ConnView, seq: u32, data: Seq<u8>) -> ConnView {
    if data.len() > 0 && seq == c.recv_next {
        let n = room_for(c, data.len());
        ConnView {
            recv_buf: c.recv_buf + data.take(n),
            recv_next: seq_after(c.recv_next, n),
            ..c
        }
    } else {
        c
    }
}

/// Whether a segment ends the peer's sending, everything before the end having come in.
pub open spec fn ends(c: ConnView, seq: u32, flags: u8, len: nat) -> bool {
    flags & FLAG_FIN != 0 && seq_after(seq, len as int) == c.recv_next
}

/// The connection after the end of the peer's sending came in.
pub open spec fn after_end(c: ConnView) -> ConnView {
    ConnView {
        recv_next: seq_after(c.recv_next, 1),
        state: match c.state {
            ConnState::Established => ConnState::CloseWait,
            ConnState::FinWait1 => ConnState::Closed,
            ConnState::FinWait2 => ConnState::Closed,
            other => other,
        },
        ..c
    }
}

/// The connection after a segment was read.
pub open spec fn after_segment(c: ConnView, seq: u32, ack: u32, flags: u8, data: Seq<u8>) -> ConnView {
    let b = after_data(after_ack(c, ack, flags), seq, data);
    if ends(b, seq, flags, data.len()) {
        after_end(b)
    } else {
        b
    }
}

/// Whether a segment is to be acknowledged.
pub open spec fn wants_ack(c: ConnView, seq: u32, ack: u32, flags: u8, data: Seq<u8>) -> bool {
    data.len() > 0 || ends(
        after_data(after_ack(c, ack, flags), seq, data),
        seq,
        flags,
        data.len(),
    )
}

/// What a segment of a connection that is up calls for.
pub open spec fn established_reaction(
    c: ConnView,
    fd: u64,
    seq: u32,
    ack: u32,
    flags: u8,
    data: Seq<u8>,
) -> ReactionView {
    ReactionView {
        packet: if wants_ack(c, seq, ack, flags, data) {
            Some(ack_packet(after_segment(c, seq, ack, flags, data)))
        } else {
            None
        },
        track: None,
        resume: Some(fd),
    }
}

/// Takes in a segment of a connection that is up.
fn process_established(
    state: &mut TcpState,
    real_fd: u64,
    seq: u32,
    ack: u32,
    flags: u8,
    data: &[u8],
) -> (r: Reaction)
    requires
        old(state).wf(),
        is_conn(old(state)@, real_fd),
    ensures
        final(state).wf(),
        ({
            let s = old(state)@;
            let c = conn(s, real_fd);
            &&& final(state)@ == with_conn(s, real_fd, after_segment(c, seq, ack, flags, data@))
            &&& r@ == established_reaction(c, real_fd, seq, ack, flags, data@)
        }),
{
    let ghost s = state@;
    let ghost c = conn(s, real_fd);
    proof {
        assert(socket_ok(s.sockets[real_fd]));
        lemma_with_conn(s, real_fd, after_segment(c, seq, ack, flags, data@));
    }
    let mut packet: Option<Packet> = None;
    match state.sockets.get_mut(real_fd) {
        Some(TcpSocket::Connection(conn)) => {
            if flags & FLAG_ACK != 0 && ack != conn.send_unacked && ack == conn.send_next {
                conn.send_unacked = conn.send_next;
                conn.unacked_segment = None;
                conn.retransmit_deadline = None;
                conn.retransmit_count = 0;
                if conn.state == ConnState::FinWait1 {
                    conn.state = ConnState::FinWait2;
                }
            }
            assert(conn@ == after_ack(c, ack, flags));
            if data.len() > 0 && seq == conn.recv_next {
                let room: usize = MAX_RECV_BUF - conn.recv_buf.len();
                let take: usize = if data.len() <= room {
                    data.len()
                } else {
                    room
                };
                let bytes = copy_range(data, 0, take);
                assert(bytes@ =~= data@.take(take as int));
                append(&mut conn.recv_buf, bytes.as_slice());
                conn.recv_next = advance(conn.recv_next, take);
            }
            assert(conn@ == after_data(after_ack(c, ack, flags), seq, data@));
            let mut fin_seen = false;
            if flags & FLAG_FIN != 0 && advance(seq, data.len()) == conn.recv_next {
                conn.recv_next = advance(conn.recv_next, 1);
                fin_seen = true;
                conn.state = match conn.state {
                    ConnState::Established => ConnState::CloseWait,
                    ConnState::FinWait1 => ConnState::Closed,
                    ConnState::FinWait2 => ConnState::Closed,
                    other => other,
                };
            }
            assert(conn@ == after_segment(c, seq, ack, flags, data@));
            if data.len() > 0 || fin_seen {
                packet = Some(ack_segment(conn));
            }
        },
        _ => {},
    }
    assert(state@ == with_conn(s, real_fd, after_segment(c, seq, ack, flags, data@)));
    Reaction { packet, track: None, resume: Some(real_fd) }
}

/// The state after connection `fd` got a segment.
pub open spec fn segment_state(s: TcpView, fd: u64, seq: u32, ack: u32, flags: u8, data: Seq<u8>) -> TcpView {
    let c = conn(s, fd);
    if flags & FLAG_RST != 0 {
        torn_down(s, fd)
    } else {
        match c.state {
            ConnState::SynSent => if answers_syn(c, ack, flags) {
                with_conn(s, fd, connected(c, seq))
            } else {
                s
            },
            ConnState::SynReceived => if flags & FLAG_ACK != 0 && ack == c.send_next {
                pended(with_conn(s, fd, accepted(c)), c.local_port, fd)
            } else {
                s
            },
            ConnState::LastAck => if flags & FLAG_ACK != 0 {
                torn_down(s, fd)
            } else {
                s
            },
            ConnState::Closed => s,
            _ => with_conn(s, fd, after_segment(c, seq, ack, flags, data)),
        }
    }
}

/// What a segment for connection `fd` calls for.
pub open spec fn segment_reaction(
    s: TcpView,
    fd: u64,
    seq: u32,
    ack: u32,
    flags: u8,
    data: Seq<u8>,
) -> ReactionView {
    let c = conn(s, fd);
    if flags & FLAG_RST != 0 {
        no_reaction()
    } else {
        match c.state {
            ConnState::SynSent => if answers_syn(c, ack, flags) {
                reply_with(ack_packet(connected(c, seq)))
            } else {
                no_reaction()
            },
            ConnState::SynReceived => no_reaction(),
            ConnState::LastAck => no_reaction(),
            ConnState::Closed => no_reaction(),
            _ => established_reaction(c, fd, seq, ack, flags, data),
        }
    }
}

/// Takes in a segment for a connection.
fn handle_for_connection(
    state: &mut TcpState,
    real_fd: u64,
    seq: u32,
    ack: u32,
    flags: u8,
    data: &[u8],
) -> (r: Reaction)
    requires
        old(state).wf(),
        is_conn(old(state)@, real_fd),
    ensures
        final(state).wf(),
        final(state)@ == segment_state(old(state)@, real_fd, seq, ack, flags, data@),
        r@ == segment_reaction(old(state)@, real_fd, seq, ack, flags, data@),
{
    if flags & FLAG_RST != 0 {
        teardown(state, real_fd);
        return nothing();
    }
    let cur_state = match state.sockets.get(real_fd) {
        Some(TcpSocket::Connection(conn)) => conn.state,
        _ => {
            return nothing();
        },
    };
    match cur_state {
        ConnState::SynSent => handle_syn_sent(state, real_fd, seq, ack, flags),
        ConnState::SynReceived => {
            handle_syn_received(state, real_fd, ack, flags);
            nothing()
        },
        ConnState::LastAck => {
            if flags & FLAG_ACK != 0 {
                teardown(state, real_fd);
            }
            nothing()
        },
        ConnState::Closed => nothing(),
        _ => process_established(state, real_fd, seq, ack, flags, data),
    }
}

/// The number that a received segment's connection would have.
pub open spec fn arrived_key(payload: Seq<u8>, src: Seq<u8>) -> u64 {
    conn_key(be16(payload, 2), src, be16(payload, 0))
}

/// Whether a received segment asks for a connection.
pub open spec fn asks(payload: Seq<u8>) -> bool {
    payload[13] & FLAG_SYN != 0 && payload[13] & FLAG_ACK == 0
}

/// The state after a segment came in from `src`.
pub open spec fn received(s: TcpView, payload: Seq<u8>, src: Seq<u8>, fresh: u64, ticks: u64) -> TcpView {
    let key = arrived_key(payload, src);
    if !readable(payload) {
        s
    } else if s.connections.contains_key(key) {
        segment_state(
            s,
            s.connections[key],
            be32(payload, 4),
            be32(payload, 8),
            payload[13],
            carried(payload),
        )
    } else if asks(payload) {
        syn_state(s, be16(payload, 2), src, be16(payload, 0), be32(payload, 4), fresh, ticks)
    } else {
        s
    }
}

/// What a segment from `src` calls for: one that belongs to no connection, asks for none and is
/// not itself a reset is answered with a reset.
pub open spec fn reaction_to(s: TcpView, payload: Seq<u8>, src: Seq<u8>, fresh: u64, ticks: u64) -> ReactionView {
    let key = arrived_key(payload, src);
    if !readable(payload) {
        no_reaction()
    } else if s.connections.contains_key(key) {
        segment_reaction(
            s,
            s.connections[key],
            be32(payload, 4),
            be32(payload, 8),
            payload[13],
            carried(payload),
        )
    } else if asks(payload) {
        syn_reaction(s, be16(payload, 2), src, be16(payload, 0), be32(payload, 4), fresh, ticks)
    } else if payload[13] & FLAG_RST == 0 {
        reply_with(reset_packet(be16(payload, 2), src, be16(payload, 0), be32(payload, 4)))
    } else {
        no_reaction()
    }
}

/// Takes in what IPv4 carried. A connection that it opens gets the number `fresh`.
pub fn handle_packet(
    state: &mut TcpState,
    payload: &[u8],
    src_ip: Ipv4Addr,
    fresh: u64,
    ticks: u64,
) -> (r: Reaction)
    requires
        old(state).wf(),
        !old(state)@.sockets.contains_key(fresh),
    ensures
        final(state).wf(),
        final(state)@ == received(old(state)@, payload@, src_ip@, fresh, ticks),
        r@ == reaction_to(old(state)@, payload@, src_ip@, fresh, ticks),
{
    let ghost s = state@;
    let a: Arrived = match parse(payload) {
        Some(a) => a,
        None => {
            return nothing();
        },
    };
    let data = copy_range(payload, a.data_offset, payload.len());
    assert(data@ == carried(payload@));
    let key: u64 = connection_key(a.dst_port, src_ip, a.src_port);
    if let Some(fd) = state.connections.get(key) {
        let real_fd: u64 = *fd;
        assert(s.connections.contains_key(key));
        return handle_for_connection(state, real_fd, a.seq, a.ack, a.flags, data.as_slice());
    }
    if a.flags & FLAG_SYN != 0 && a.flags & FLAG_ACK == 0 {
        return handle_new_syn(state, a.dst_port, src_ip, a.src_port, a.seq, fresh, ticks);
    }
    if a.flags & FLAG_RST == 0 {
        return reply(reset(a.dst_port, src_ip, a.src_port, a.seq));
    }
    nothing()
}

/// The number of the socket that has a connection.
pub fn debug_connection_for(
    state: &TcpState,
    local_port: u16,
    remote_ip: Ipv4Addr,
    remote_port: u16,
) -> (r: Option<u64>)
    requires
        state.wf(),
    ensures
        ({
            let key = conn_key(local_port, remote_ip@, remote_port);
            r == (if state@.connections.contains_key(key) {
                Some(state@.connections[key])
            } else {
                None
            })
        }),
{
    match state.connections.get(connection_key(local_port, remote_ip, remote_port)) {
        Some(fd) => Some(*fd),
        None => None,
    }
}

/// The number of the next byte that a connection sends.
pub fn debug_send_next(state: &TcpState, real_fd: u64) -> (r: Option<u32>)
    requires
        state.wf(),
    ensures
        r == (if is_conn(state@, real_fd) {
            Some(conn(state@, real_fd).send_next)
        } else {
            None
        }),
{
    match state.sockets.get(real_fd) {
        Some(TcpSocket::Connection(conn)) => Some(conn.send_next),
        _ => None,
    }
}

/// Whether a reader of the socket would get something.
pub open spec fn ready(s: SocketView) -> bool {
    match s {
        SocketView::Connection(c) => c.recv_buf.len() > 0,
        SocketView::Listener { backlog, pending } => pending.len() > 0,
        SocketView::Unbound { local_port } => false,
    }
}

/// Whether bytes wait at a connection, or connections at a listener; `None` for what is not a
/// socket of this protocol.
pub fn has_data_ready(state: &TcpState, real_fd: u64) -> (r: Option<bool>)
    requires
        state.wf(),
    ensures
        r == (if state@.sockets.contains_key(real_fd) {
            Some(ready(state@.sockets[real_fd]))
        } else {
            None
        }),
{
    match state.sockets.get(real_fd) {
        Some(TcpSocket::Connection(conn)) => Some(conn.recv_buf.len() > 0),
        Some(TcpSocket::Listener(l)) => Some(l.pending.len() > 0),
        Some(TcpSocket::Unbound { .. }) => Some(false),
        None => None,
    }
}

// ---------------------------------------------------------------------------------------------
// Calls
// ---------------------------------------------------------------------------------------------
/// Putting a socket that is not connected under a number that nobody listens or is connected
/// under keeps the tables in agreement.
proof fn lemma_with_idle(s: TcpView, fd: u64, v: SocketView, next: u16)
    requires
        tcp_ok(s),
        s.sockets.contains_key(fd) ==> s.sockets[fd] is Unbound,
        socket_ok(v),
        ephemeral(next),
    ensures
        tcp_ok(TcpView { sockets: s.sockets.insert(fd, v), next_ephemeral: next, ..s }),
{
    let t = TcpView { sockets: s.sockets.insert(fd, v), next_ephemeral: next, ..s };
    assert forall|f: u64| #[trigger] t.sockets.contains_key(f) implies socket_ok(t.sockets[f]) by {
        assert(f == fd || s.sockets.contains_key(f));
    }
    assert forall|port: u64| #[trigger] t.listeners.contains_key(port) implies is_listener(
        t,
        t.listeners[port],
    ) by {
        assert(s.listeners.contains_key(port));
    }
    assert forall|key: u64| #[trigger] t.connections.contains_key(key) implies is_conn(
        t,
        t.connections[key],
    ) && key_of(conn(t, t.connections[key])) == key by {
        assert(s.connections.contains_key(key));
    }
}

/// Opens a socket under the number `fd`.
pub fn create_socket(state: &mut TcpState, fd: u64) -> (r: u64)
    requires
        old(state).wf(),
        !old(state)@.sockets.contains_key(fd),
    ensures
        final(state).wf(),
        r == fd,
        final(state)@ == (TcpView {
            sockets: old(state)@.sockets.insert(fd, SocketView::Unbound { local_port: None }),
            ..old(state)@
        }),
{
    proof {
        lemma_with_idle(
            state@,
            fd,
            SocketView::Unbound { local_port: None },
            state@.next_ephemeral,
        );
    }
    state.sockets.insert(fd, TcpSocket::Unbound { local_port: None });
    fd
}

/// Whether a socket is neither connected nor listening.
pub open spec fn is_unbound(s: TcpView, fd: u64) -> bool {
    s.sockets.contains_key(fd) && s.sockets[fd] is Unbound
}

/// The port that a socket has or is given.
pub open spec fn own_port(s: TcpView, fd: u64) -> Option<u16> {
    match s.sockets[fd] {
        SocketView::Unbound { local_port: Some(p) } => Some(p),
        _ => port_for(s.listeners, s.next_ephemeral),
    }
}

/// The port that is up next once a socket has one.
pub open spec fn own_port_next(s: TcpView, fd: u64) -> u16 {
    match s.sockets[fd] {
        SocketView::Unbound { local_port: Some(p) } => s.next_ephemeral,
        _ => next_after(s.listeners, s.next_ephemeral),
    }
}

/// The port of a socket that is neither connected nor listening, or one where nobody listens.
fn port_of(state: &mut TcpState, has: Option<u16>) -> (r: Option<u16>)
    requires
        old(state).wf(),
    ensures
        final(state).wf(),
        match has {
            Some(p) => r == Some(p) && final(state)@ == old(state)@,
            None => {
                let s = old(state)@;
                &&& r == port_for(s.listeners, s.next_ephemeral)
                &&& final(state)@ == (TcpView {
                    next_ephemeral: next_after(s.listeners, s.next_ephemeral),
                    ..s
                })
            },
        },
{
    let ghost s = state@;
    if has.is_some() {
        return has;
    }
    let mut next: u16 = state.next_ephemeral;
    let found: Option<u16> = alloc_ephemeral_port(&state.listeners, &mut next);
    state.next_ephemeral = next;
    proof {
        lemma_same_tables(s, state@);
    }
    found
}

/// What binding a socket answers; `None` for what is not a socket of this protocol.
pub open spec fn bind_answer(s: TcpView, fd: u64, addr: Option<SockAddr>) -> Option<i64> {
    if !s.sockets.contains_key(fd) {
        None
    } else if !(s.sockets[fd] is Unbound) {
        Some(negated(EISCONN))
    } else {
        match addr {
            None => Some(negated(EINVAL)),
            Some(a) => if a.port == 0 && port_for(s.listeners, s.next_ephemeral).is_none() {
                Some(negated(EADDRINUSE))
            } else {
                Some(0)
            },
        }
    }
}

/// The state after binding a socket.
pub open spec fn bind_state(s: TcpView, fd: u64, addr: Option<SockAddr>) -> TcpView {
    if bind_answer(s, fd, addr) != Some(0i64) {
        s
    } else {
        let port = addr->Some_0.port;
        let local_port = if port == 0 {
            port_for(s.listeners, s.next_ephemeral)
        } else {
            Some(port)
        };
        TcpView {
            sockets: s.sockets.insert(fd, SocketView::Unbound { local_port }),
            next_ephemeral: if port == 0 {
                next_after(s.listeners, s.next_ephemeral)
            } else {
                s.next_ephemeral
            },
            ..s
        }
    }
}

/// Binds a socket to a port; any will do where the port is zero. `None` for what is not a socket
/// of this protocol.
pub fn bind(state: &mut TcpState, real_fd: u64, addr: Option<SockAddr>) -> (r: Option<i64>)
    requires
        old(state).wf(),
    ensures
        final(state).wf(),
        r == bind_answer(old(state)@, real_fd, addr),
        final(state)@ == bind_state(old(state)@, real_fd, addr),
{
    let ghost s = state@;
    match state.sockets.get(real_fd) {
        Some(TcpSocket::Unbound { .. }) => {},
        Some(_) => {
            return Some(failed(EISCONN));
        },
        None => {
            return None;
        },
    }
    let wanted: u16 = match addr {
        Some(a) => a.port,
        None => {
            return Some(failed(EINVAL));
        },
    };
    let asked: Option<u16> = if wanted == 0 {
        None
    } else {
        Some(wanted)
    };
    let port: Option<u16> = port_of(state, asked);
    if port.is_none() {
        return Some(failed(EADDRINUSE));
    }
    proof {
        lemma_with_idle(
            s,
            real_fd,
            SocketView::Unbound { local_port: port },
            state@.next_ephemeral,
        );
    }
    state.sockets.insert(real_fd, TcpSocket::Unbound { local_port: port });
    Some(0)
}

/// Accepts any option; `None` for what is not a socket of this protocol.
pub fn setsockopt(state: &TcpState, real_fd: u64) -> (r: Option<i64>)
    requires
        state.wf(),
    ensures
        r == (if state@.sockets.contains_key(real_fd) {
            Some(0i64)
        } else {
            None
        }),
{
    if state.sockets.contains_key(real_fd) {
        Some(0)
    } else {
        None
    }
}

/// Why a socket cannot connect.
pub open spec fn connect_error(s: TcpView, fd: Option<u64>, addr: Option<SockAddr>) -> Option<u64> {
    match (fd, addr) {
        (None, _) => Some(EBADF),
        (_, None) => Some(EINVAL),
        (Some(fd), _) => if !s.sockets.contains_key(fd) {
            Some(EBADF)
        } else if !(s.sockets[fd] is Unbound) {
            Some(EISCONN)
        } else if own_port(s, fd).is_none() {
            Some(EADDRINUSE)
        } else {
            None
        },
    }
}

/// The state once a socket asked for its connection.
pub open spec fn connect_state(s: TcpView, fd: u64, addr: SockAddr, ticks: u64) -> TcpView {
    let drawn = TcpView {
        next_ephemeral: own_port_next(s, fd),
        isn_counter: seq_after(s.isn_counter, 1),
        ..s
    };
    with_new_conn(
        drawn,
        fd,
        new_conn(
            ConnState::SynSent,
            own_port(s, fd)->Some_0,
            addr.ip@,
            addr.port,
            isn_of(ticks, s.isn_counter),
            0,
        ),
    )
}

/// What carries the request for a connection.
pub open spec fn is_syn(o: Outgoing, fd: u64, c: ConnView) -> bool {
    &&& o.fd == fd
    &&& o.seq == c.send_unacked
    &&& o.data@ == Seq::<u8>::empty()
    &&& o.packet@ == conn_packet(c, c.send_unacked, 0, FLAG_SYN, Seq::empty())
}

/// Asks for a connection to `addr`. The result carries the request; `connect_sent` is told whether
/// it went out, and `connect_wait` says when the call is over.
pub fn oxidebsd_sys_connect(
    state: &mut TcpState,
    real_fd: Option<u64>,
    addr: Option<SockAddr>,
    ticks: u64,
) -> (r: Result<Outgoing, u64>)
    requires
        old(state).wf(),
    ensures
        final(state).wf(),
        match r {
            Ok(o) => {
                let s = old(state)@;
                let fd = real_fd->Some_0;
                &&& connect_error(s, real_fd, addr).is_none()
                &&& final(state)@ == connect_state(s, fd, addr->Some_0, ticks)
                &&& is_syn(o, fd, conn(final(state)@, fd))
            },
            Err(e) => connect_error(old(state)@, real_fd, addr) == Some(e) && final(state)@ == old(
                state,
            )@,
        },
{
    let ghost s = state@;
    let fd: u64 = match real_fd {
        Some(fd) => fd,
        None => {
            return Err(EBADF);
        },
    };
    let to: SockAddr = match addr {
        Some(a) => a,
        None => {
            return Err(EINVAL);
        },
    };
    let has: Option<u16> = match state.sockets.get(fd) {
        Some(TcpSocket::Unbound { local_port }) => *local_port,
        Some(_) => {
            return Err(EISCONN);
        },
        None => {
            return Err(EBADF);
        },
    };
    let local_port: u16 = match port_of(state, has) {
        Some(p) => p,
        None => {
            return Err(EADDRINUSE);
        },
    };
    let ghost mid = state@;
    let seq: u32 = isn(state, ticks);
    proof {
        lemma_same_tables(mid, state@);
    }
    open_connection(state, fd, ConnState::SynSent, local_port, to.ip, to.port, seq, 0);
    let data: Vec<u8> = Vec::new();
    assert(data@ =~= Seq::<u8>::empty());
    assert(state@ == connect_state(s, fd, to, ticks));
    match send_and_track(state, fd, seq, 0, FLAG_SYN, data.as_slice()) {
        Some(packet) => Ok(Outgoing { fd, seq, data, packet }),
        None => Err(EBADF),
    }
}

/// Notes whether the request for a connection went out. One that did not ends the call.
pub fn connect_sent(state: &mut TcpState, o: Outgoing, went_out: bool, now: u64) -> (r: Result<
    (),
    u64,
>)
    requires
        old(state).wf(),
        !is_listener(old(state)@, o.fd),
        now <= u64::MAX - RETRANSMIT_TICKS,
    ensures
        final(state).wf(),
        went_out ==> r.is_ok() && final(state)@ == awaiting(
            old(state)@,
            o.fd,
            o.packet.payload@,
            now,
        ),
        !went_out ==> r == Err::<(), u64>(EHOSTUNREACH) && final(state)@ == torn_down(
            old(state)@,
            o.fd,
        ),
{
    if went_out {
        segment_sent(state, o.fd, o.packet.payload, now);
        Ok(())
    } else {
        teardown(state, o.fd);
        Err(EHOSTUNREACH)
    }
}

/// What a call that waits for its connection answers, if it is over.
pub open spec fn connect_answer(s: TcpView, fd: u64, now: u64, deadline: u64) -> Option<i64> {
    if !is_conn(s, fd) || conn(s, fd).state == ConnState::Closed {
        Some(negated(ECONNREFUSED))
    } else if conn(s, fd).state == ConnState::Established {
        Some(0)
    } else if now >= deadline {
        Some(negated(ETIMEDOUT))
    } else {
        None
    }
}

/// Looks, after what had arrived was handled, whether a connection came up. One that took too long
/// is given up.
pub fn connect_wait(state: &mut TcpState, fd: u64, now: u64, deadline: u64) -> (r: Option<i64>)
    requires
        old(state).wf(),
    ensures
        final(state).wf(),
        r == connect_answer(old(state)@, fd, now, deadline),
        final(state)@ == (if r == Some(negated(ETIMEDOUT)) {
            torn_down(old(state)@, fd)
        } else {
            old(state)@
        }),
{
    let cur_state = match state.sockets.get(fd) {
        Some(TcpSocket::Connection(conn)) => conn.state,
        _ => {
            return Some(failed(ECONNREFUSED));
        },
    };
    match cur_state {
        ConnState::Established => Some(0),
        ConnState::Closed => Some(failed(ECONNREFUSED)),
        _ => if now >= deadline {
            teardown(state, fd);
            Some(failed(ETIMEDOUT))
        } else {
            None
        },
    }
}

/// What listening answers.
pub open spec fn listen_answer(s: TcpView, fd: Option<u64>) -> i64 {
    match fd {
        None => negated(EBADF),
        Some(fd) => if !s.sockets.contains_key(fd) {
            negated(EBADF)
        } else {
            match s.sockets[fd] {
                SocketView::Listener { .. } => 0,
                SocketView::Connection(_) => negated(EISCONN),
                SocketView::Unbound { .. } => match own_port(s, fd) {
                    None => negated(EADDRINUSE),
                    Some(p) => if s.listeners.contains_key(p as u64) {
                        negated(EADDRINUSE)
                    } else {
                        0
                    },
                },
            }
        },
    }
}

/// A backlog within its limits.
pub open spec fn backlog_of(backlog: u64) -> usize {
    if backlog < ACCEPT_BACKLOG_MIN {
        ACCEPT_BACKLOG_MIN
    } else if backlog > ACCEPT_BACKLOG_MAX {
        ACCEPT_BACKLOG_MAX
    } else {
        backlog as usize
    }
}

/// The state after listening.
pub open spec fn listen_state(s: TcpView, fd: Option<u64>, backlog: u64) -> TcpView {
    if listen_answer(s, fd) == 0 && is_unbound(s, fd->Some_0) {
        let fd = fd->Some_0;
        TcpView {
            sockets: s.sockets.insert(
                fd,
                SocketView::Listener { backlog: backlog_of(backlog), pending: Seq::empty() },
            ),
            listeners: s.listeners.insert(own_port(s, fd)->Some_0 as u64, fd),
            next_ephemeral: own_port_next(s, fd),
            ..s
        }
    } else {
        s
    }
}

/// Makes a socket take connections at its port.
pub fn oxidebsd_sys_listen(state: &mut TcpState, real_fd: Option<u64>, backlog: u64) -> (r: i64)
    requires
        old(state).wf(),
    ensures
        final(state).wf(),
        r == listen_answer(old(state)@, real_fd),
        final(state)@ == listen_state(old(state)@, real_fd, backlog),
{
    let ghost s = state@;
    let fd: u64 = match real_fd {
        Some(fd) => fd,
        None => {
            return failed(EBADF);
        },
    };
    let has: Option<u16> = match state.sockets.get(fd) {
        Some(TcpSocket::Unbound { local_port }) => *local_port,
        Some(TcpSocket::Listener(_)) => {
            return 0;
        },
        Some(_) => {
            return failed(EISCONN);
        },
        None => {
            return failed(EBADF);
        },
    };
    proof {
        law_port_is_free(s.listeners, s.next_ephemeral);
    }
    let local_port: u16 = match port_of(state, has) {
        Some(p) => p,
        None => {
            return failed(EADDRINUSE);
        },
    };
    if state.listeners.contains_key(local_port as u64) {
        return failed(EADDRINUSE);
    }
    let backlog: usize = if backlog < ACCEPT_BACKLOG_MIN as u64 {
        ACCEPT_BACKLOG_MIN
    } else if backlog > ACCEPT_BACKLOG_MAX as u64 {
        ACCEPT_BACKLOG_MAX
    } else {
        backlog as usize
    };
    let ghost mid = state@;
    state.sockets.insert(
        fd,
        TcpSocket::Listener(Listener { backlog, pending: VecDeque::new() }),
    );
    state.listeners.insert(local_port as u64, fd);
    proof {
        let v = SocketView::Listener { backlog, pending: Seq::empty() };
        lemma_with_idle(mid, fd, v, mid.next_ephemeral);
        let t = state@;
        assert(t == listen_state(s, real_fd, backlog as u64));
        assert forall|port: u64| #[trigger] t.listeners.contains_key(port) implies is_listener(
            t,
            t.listeners[port],
        ) by {
            if port != local_port as u64 {
                assert(mid.listeners.contains_key(port));
            }
        }
        assert forall|key: u64| #[trigger] t.connections.contains_key(key) implies is_conn(
            t,
            t.connections[key],
        ) && key_of(conn(t, t.connections[key])) == key by {
            assert(mid.connections.contains_key(key));
        }
    }
    0
}

/// A connection that was accepted, and its peer's address.
pub struct Accepted {
    pub fd: u64,
    pub addr: Vec<u8>,
}

/// Why nothing can be accepted.
pub open spec fn accept_error(s: TcpView, fd: Option<u64>) -> Option<u64> {
    match fd {
        None => Some(EBADF),
        Some(fd) => if !s.sockets.contains_key(fd) {
            Some(EBADF)
        } else {
            match s.sockets[fd] {
                SocketView::Listener { backlog, pending } => if pending.len() == 0 {
                    Some(EAGAIN)
                } else if !is_conn(s, pending[0]) {
                    Some(ECONNREFUSED)
                } else {
                    None
                },
                _ => Some(EOPNOTSUPP),
            }
        },
    }
}

/// The state after a try to accept: whoever waited longest is taken, even where its connection is
/// gone by now.
pub open spec fn accept_state(s: TcpView, fd: Option<u64>) -> TcpView {
    match fd {
        None => s,
        Some(fd) => if !s.sockets.contains_key(fd) {
            s
        } else {
            match s.sockets[fd] {
                SocketView::Listener { backlog, pending } => if pending.len() == 0 {
                    s
                } else {
                    TcpView {
                        sockets: s.sockets.insert(
                            fd,
                            SocketView::Listener { backlog, pending: pending.drop_first() },
                        ),
                        ..s
                    }
                },
                _ => s,
            }
        },
    }
}

/// Takes the connection that has waited longest at a listener.
pub fn oxidebsd_sys_accept(state: &mut TcpState, real_fd: Option<u64>) -> (r: Result<Accepted, u64>)
    requires
        old(state).wf(),
    ensures
        final(state).wf(),
        final(state)@ == accept_state(old(state)@, real_fd),
        match r {
            Ok(a) => {
                let s = old(state)@;
                &&& accept_error(s, real_fd).is_none()
                &&& a.fd == s.sockets[real_fd->Some_0]->Listener_pending[0]
                &&& a.addr@ == sockaddr_of(conn(s, a.fd).remote_ip, conn(s, a.fd).remote_port)
            },
            Err(e) => accept_error(old(state)@, real_fd) == Some(e),
        },
{
    let ghost s = state@;
    let fd: u64 = match real_fd {
        Some(fd) => fd,
        None => {
            return Err(EBADF);
        },
    };
    proof {
        if is_listener(s, fd) {
            assert(socket_ok(s.sockets[fd]));
            lemma_with_listener(
                s,
                fd,
                s.sockets[fd]->Listener_backlog,
                s.sockets[fd]->Listener_pending.drop_first(),
            );
        }
    }
    let mut error: Option<u64> = None;
    let mut taken: Option<u64> = None;
    match state.sockets.get_mut(fd) {
        Some(TcpSocket::Listener(l)) => {
            taken = l.pending.pop_front();
        },
        Some(_) => {
            error = Some(EOPNOTSUPP);
        },
        None => {
            error = Some(EBADF);
        },
    }
    assert(state@.sockets =~= accept_state(s, real_fd).sockets);
    assert(state@ == accept_state(s, real_fd));
    if let Some(e) = error {
        return Err(e);
    }
    let conn_fd: u64 = match taken {
        Some(c) => c,
        None => {
            return Err(EAGAIN);
        },
    };
    assert(conn_fd != fd ==> state@.sockets.contains_key(conn_fd) == s.sockets.contains_key(conn_fd));
    match state.sockets.get(conn_fd) {
        Some(TcpSocket::Connection(conn)) => Ok(
            Accepted { fd: conn_fd, addr: write_sockaddr(conn.remote_ip, conn.remote_port) },
        ),
        _ => Err(ECONNREFUSED),
    }
}

/// What reading from a connection comes to.
pub enum ReadStep {
    /// The next bytes.
    Data(Vec<u8>),
    /// The peer has sent its last byte.
    End,
    Failed(u64),
    /// Handle what arrives and read again.
    Wait,
}

/// How many bytes a reader with room for `len` gets.
pub open spec fn readable_now(c: ConnView, len: u64) -> int {
    if c.recv_buf.len() <= len {
        c.recv_buf.len() as int
    } else {
        len as int
    }
}

/// Whether an empty buffer is read as the end of the stream: the peer has sent its FIN, or has
/// acknowledged this side's own.
pub open spec fn peer_done(c: ConnView) -> bool {
    c.state == ConnState::CloseWait || c.state == ConnState::FinWait2 || c.state
        == ConnState::Closed
}

/// Reads up to `len` bytes from a connection.
pub fn tcp_read(state: &mut TcpState, real_fd: u64, len: u64, nonblocking: bool) -> (r: ReadStep)
    requires
        old(state).wf(),
    ensures
        final(state).wf(),
        ({
            let s = old(state)@;
            let c = conn(s, real_fd);
            let n = readable_now(c, len);
            if !is_conn(s, real_fd) {
                r == ReadStep::Failed(EBADF) && final(state)@ == s
            } else if n > 0 {
                &&& r matches ReadStep::Data(bytes) && bytes@ == c.recv_buf.take(n)
                &&& final(state)@ == with_conn(
                    s,
                    real_fd,
                    ConnView { recv_buf: c.recv_buf.skip(n), ..c },
                )
            } else {
                &&& final(state)@ == s
                &&& r == (if peer_done(c) {
                    ReadStep::End
                } else if nonblocking {
                    ReadStep::Failed(EAGAIN)
                } else {
                    ReadStep::Wait
                })
            }
        }),
{
    let ghost s = state@;
    let ghost c = conn(s, real_fd);
    let ghost n = readable_now(c, len);
    proof {
        if is_conn(s, real_fd) {
            assert(socket_ok(s.sockets[real_fd]));
            lemma_with_conn(s, real_fd, ConnView { recv_buf: c.recv_buf.skip(n), ..c });
        }
    }
    let r = match state.sockets.get_mut(real_fd) {
        Some(TcpSocket::Connection(conn)) => {
            let waiting: usize = conn.recv_buf.len();
            let take: usize = if waiting as u64 <= len {
                waiting
            } else {
                len as usize
            };
            if take > 0 {
                ReadStep::Data(drain(&mut conn.recv_buf, take))
            } else if conn.state == ConnState::CloseWait || conn.state == ConnState::FinWait2
                || conn.state == ConnState::Closed {
                ReadStep::End
            } else if nonblocking {
                ReadStep::Failed(EAGAIN)
            } else {
                ReadStep::Wait
            }
        },
        _ => ReadStep::Failed(EBADF),
    };
    proof {
        if is_conn(s, real_fd) && n > 0 {
            assert(state@ == with_conn(s, real_fd, ConnView { recv_buf: c.recv_buf.skip(n), ..c }));
        } else {
            assert(state@.sockets =~= s.sockets);
        }
    }
    r
}

/// Why a connection takes no bytes.
pub open spec fn write_error(s: TcpView, fd: u64) -> Option<u64> {
    if !is_conn(s, fd) {
        Some(EBADF)
    } else if conn(s, fd).state != ConnState::Established && conn(s, fd).state
        != ConnState::CloseWait {
        Some(ENOTCONN)
    } else {
        None
    }
}

/// The connection with more bytes to send.
pub open spec fn with_bytes(c: ConnView, data: Seq<u8>) -> ConnView {
    ConnView { send_buf: c.send_buf + data, ..c }
}

/// Takes all of `data` for sending. Where nothing is in flight, the result carries the next
/// segment, for `try_send_done` to finish.
pub fn tcp_write(state: &mut TcpState, real_fd: u64, data: &[u8]) -> (r: Result<
    Option<Outgoing>,
    u64,
>)
    requires
        old(state).wf(),
    ensures
        final(state).wf(),
        match r {
            Err(e) => write_error(old(state)@, real_fd) == Some(e) && final(state)@ == old(state)@,
            Ok(out) => {
                let s = old(state)@;
                let c = with_bytes(conn(s, real_fd), data@);
                &&& write_error(s, real_fd).is_none()
                &&& match out {
                    Some(o) => {
                        &&& can_send(c)
                        &&& is_next(o, real_fd, c)
                        &&& final(state)@ == with_conn(s, real_fd, without_next(c))
                    },
                    None => !can_send(c) && final(state)@ == with_conn(s, real_fd, c),
                }
            },
        },
{
    let ghost s = state@;
    let ghost c = with_bytes(conn(s, real_fd), data@);
    proof {
        if is_conn(s, real_fd) {
            assert(socket_ok(s.sockets[real_fd]));
            lemma_with_conn(s, real_fd, c);
        }
    }
    let mut error: Option<u64> = None;
    match state.sockets.get_mut(real_fd) {
        Some(TcpSocket::Connection(conn)) => {
            if conn.state == ConnState::Established || conn.state == ConnState::CloseWait {
                append(&mut conn.send_buf, data);
            } else {
                error = Some(ENOTCONN);
            }
        },
        _ => {
            error = Some(EBADF);
        },
    }
    if let Some(e) = error {
        assert(state@.sockets =~= s.sockets);
        return Err(e);
    }
    assert(state@ == with_conn(s, real_fd, c));
    let out = try_send(state, real_fd);
    proof {
        if out.is_some() {
            assert(state@.sockets =~= with_conn(s, real_fd, without_next(c)).sockets);
        }
    }
    Ok(out)
}

/// The listening ports without those of socket `fd`.
pub open spec fn unlistened(m: Map<u64, u64>, fd: u64) -> Map<u64, u64> {
    Map::new(|port: u64| m.contains_key(port) && m[port] != fd, |port: u64| m[port])
}

fn unlisten(m: &OrdMap<u64>, fd: u64) -> (r: OrdMap<u64>)
    requires
        m.wf(),
    ensures
        r.wf(),
        r@ == unlistened(m@, fd),
{
    let mut out: OrdMap<u64> = OrdMap::new();
    let mut i: usize = 0;
    let ghost order = m.order();
    proof {
        m.lemma_order();
    }
    while i < m.len()
        invariant
            m.wf(),
            out.wf(),
            order == m.order(),
            i <= order.len(),
            forall|j: int| 0 <= j < i && m@[order[j]] != fd ==> out@.contains_key(#[trigger] order[j]),
            forall|p: u64| #[trigger]
                out@.contains_key(p) ==> m@.contains_key(p) && m@[p] != fd && out@[p] == m@[p],
        decreases order.len() - i,
    {
        let port: u64 = m.key_at(i);
        let v: u64 = *m.val_at(i);
        if v != fd {
            out.insert(port, v);
        }
        i += 1;
    }
    assert(out@ =~= unlistened(m@, fd)) by {
        assert forall|p: u64| m@.contains_key(p) && m@[p] != fd implies out@.contains_key(p) by {
            assert(order.contains(p));
            let j = order.index_of(p);
            assert(order[j] == p);
        }
    }
    out
}

/// The state that a connection moves to when this side closes it in good order.
pub open spec fn closing_state(c: ConnView) -> Option<ConnState> {
    match c.state {
        ConnState::Established => Some(ConnState::FinWait1),
        ConnState::CloseWait => Some(ConnState::LastAck),
        _ => None,
    }
}

/// The state when a socket was closed.
pub open spec fn closed(s: TcpView, fd: u64) -> TcpView {
    if is_conn(s, fd) {
        match closing_state(conn(s, fd)) {
            Some(next) => with_conn(s, fd, ConnView { state: next, ..conn(s, fd) }),
            None => torn_down(s, fd),
        }
    } else {
        TcpView {
            sockets: s.sockets.remove(fd),
            listeners: unlistened(s.listeners, fd),
            ..s
        }
    }
}

/// Closes a socket. A connection that is up says goodbye first: the result carries the FIN, for
/// `fin_done` to finish.
pub fn tcp_close(state: &mut TcpState, real_fd: u64) -> (r: Option<Outgoing>)
    requires
        old(state).wf(),
    ensures
        final(state).wf(),
        final(state)@ == closed(old(state)@, real_fd),
        match r {
            Some(o) => {
                let c = conn(old(state)@, real_fd);
                &&& is_conn(old(state)@, real_fd)
                &&& closing_state(c).is_some()
                &&& is_fin(o, real_fd, c)
            },
            None => !(is_conn(old(state)@, real_fd) && closing_state(
                conn(old(state)@, real_fd),
            ).is_some()),
        },
{
    let ghost s = state@;
    let conn_state = match state.sockets.get(real_fd) {
        Some(TcpSocket::Connection(conn)) => Some(conn.state),
        _ => None,
    };
    match conn_state {
        Some(ConnState::Established) => send_fin_and_transition(
            state,
            real_fd,
            ConnState::FinWait1,
        ),
        Some(ConnState::CloseWait) => send_fin_and_transition(state, real_fd, ConnState::LastAck),
        Some(_) => {
            teardown(state, real_fd);
            None
        },
        None => {
            state.listeners = unlisten(&state.listeners, real_fd);
            let _ = state.sockets.remove(real_fd);
            proof {
                let t = state@;
                assert(t == closed(s, real_fd));
                assert forall|f: u64| #[trigger] t.sockets.contains_key(f) implies socket_ok(
                    t.sockets[f],
                ) by {
                    assert(s.sockets.contains_key(f));
                }
                assert forall|port: u64| #[trigger] t.listeners.contains_key(port) implies is_listener(
                    t,
                    t.listeners[port],
                ) by {
                    assert(s.listeners.contains_key(port));
                }
                assert forall|key: u64| #[trigger] t.connections.contains_key(key) implies is_conn(
                    t,
                    t.connections[key],
                ) && key_of(conn(t, t.connections[key])) == key by {
                    assert(s.connections.contains_key(key));
                }
            }
            None
        },
    }
}

} // verus!

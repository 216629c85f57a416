//! What each step of TCP does to a connection, field by field and byte by byte.

use vstd::prelude::*;

use crate::bytes::{be16, be32};
use crate::errno::{
    negated, EADDRINUSE, EAGAIN, EBADF, ECONNREFUSED, EINVAL, EISCONN, ENOTCONN, EOPNOTSUPP,
    ETIMEDOUT,
};
use crate::net::ports::{ephemeral, law_port_is_free};
use crate::net::queue::PacketView;
use crate::net::segment::{
    carried, law_segment_reads_back, readable, FLAG_ACK, FLAG_FIN, FLAG_PSH, FLAG_RST, FLAG_SYN,
    Fields,
};
use crate::net::sockaddr::SockAddr;
use crate::net::tcp::{
    accept_error, accept_state, awaiting, bind_answer, bind_state, can_send, closed, closing_state,
    conn, conn_key, connect_answer, connect_error, connect_state, fin_sent, is_conn, is_fin,
    is_next, is_next_due, is_syn, is_unbound, isn_of, listen_answer, listen_state, overdue,
    peer_done, reaction_to, readable_now, ready, received, retried, retry_packet, segment_reaction,
    segment_state, send_done, tcp_ok, window_of, with_bytes, with_conn, without_next, write_error,
    ConnState, ConnView, Outgoing, SocketView, TcpView,
};

verus! {

/// Whether a connection is up, so that its segments are read for bytes and acknowledgements.
pub open spec fn up(c: ConnView) -> bool {
    c.state == ConnState::Established || c.state == ConnState::FinWait1 || c.state
        == ConnState::FinWait2 || c.state == ConnState::CloseWait
}

/// Everything beside socket `fd` is as it was.
pub open spec fn only_changed(s: TcpView, t: TcpView, fd: u64) -> bool {
    &&& t.listeners == s.listeners
    &&& t.connections == s.connections
    &&& t.next_ephemeral == s.next_ephemeral
    &&& t.isn_counter == s.isn_counter
    &&& t.sockets.dom() == s.sockets.dom()
    &&& forall|g: u64| g != fd && s.sockets.contains_key(g) ==> #[trigger] t.sockets[g]
        == s.sockets[g]
}

/// The two ends of a connection stay who they are.
pub open spec fn same_ends(c: ConnView, d: ConnView) -> bool {
    d.local_port == c.local_port && d.remote_ip == c.remote_ip && d.remote_port == c.remote_port
}

/// Bytes of a segment, whatever its flags short of a reset: the next ones in order are appended to
/// what waits for the reader, as far as the buffer of 65536 bytes has room, and others are not.
/// The number that is expected next moves on by the bytes that were appended and, behind all of
/// them, by one for the peer's end; no byte is passed over.
pub proof fn law_bytes_taken(s: TcpView, fd: u64, seq: u32, ack: u32, flags: u8, data: Seq<u8>)
    requires
        is_conn(s, fd),
        up(conn(s, fd)),
        conn(s, fd).recv_buf.len() <= 65536,
        flags & FLAG_RST == 0,
    ensures
        ({
            let c = conn(s, fd);
            let t = segment_state(s, fd, seq, ack, flags, data);
            let d = conn(t, fd);
            let room = 65536 - c.recv_buf.len();
            let fits = if data.len() <= room {
                data.len() as int
            } else {
                room
            };
            let taken = d.recv_buf.len() - c.recv_buf.len();
            let end = flags & FLAG_FIN != 0 && (seq + data.len()) % 0x1_0000_0000 == (c.recv_next
                + taken) % 0x1_0000_0000;
            &&& is_conn(t, fd)
            &&& seq == c.recv_next ==> d.recv_buf == c.recv_buf + data.take(fits)
            &&& seq != c.recv_next ==> d.recv_buf == c.recv_buf
            &&& d.recv_next == (c.recv_next + taken + if end {
                1int
            } else {
                0int
            }) % 0x1_0000_0000
            &&& only_changed(s, t, fd)
            &&& same_ends(c, d)
        }),
{
    let c = conn(s, fd);
    let t = segment_state(s, fd, seq, ack, flags, data);
    let d = conn(t, fd);
    if seq == c.recv_next && data.len() == 0 {
        assert(c.recv_buf + data.take(0) =~= c.recv_buf);
    }
    assert(t.sockets.dom() =~= s.sockets.dom());
    assert(c.recv_next as int % 0x1_0000_0000 == c.recv_next);
}

/// The acknowledgement of a segment, whatever else it carries: of everything that was sent, it ends
/// the flight and the count of tries; any other changes nothing on the sending side.
pub proof fn law_flight_ends(s: TcpView, fd: u64, seq: u32, ack: u32, flags: u8, data: Seq<u8>)
    requires
        is_conn(s, fd),
        up(conn(s, fd)),
        flags & FLAG_RST == 0,
    ensures
        ({
            let c = conn(s, fd);
            let d = conn(segment_state(s, fd, seq, ack, flags, data), fd);
            let news = flags & FLAG_ACK != 0 && ack == c.send_next && c.send_unacked != ack;
            &&& d.send_next == c.send_next
            &&& d.send_buf == c.send_buf
            &&& news ==> d.send_unacked == c.send_next && d.unacked_segment.is_none()
                && d.retransmit_deadline.is_none() && d.retransmit_count == 0
            &&& !news ==> d.send_unacked == c.send_unacked && d.unacked_segment
                == c.unacked_segment && d.retransmit_deadline == c.retransmit_deadline
                && d.retransmit_count == c.retransmit_count
        }),
{
}

/// Where a segment takes a connection that is up: the peer's end, once everything before it is in,
/// leaves an open one half closed and ends one that this side closed; the acknowledgement of this
/// side's own end is the other way on; nothing else moves it.
pub proof fn law_where_it_goes(s: TcpView, fd: u64, seq: u32, ack: u32, flags: u8, data: Seq<u8>)
    requires
        is_conn(s, fd),
        up(conn(s, fd)),
        conn(s, fd).recv_buf.len() + data.len() <= 65536,
        flags & FLAG_RST == 0,
    ensures
        ({
            let c = conn(s, fd);
            let d = conn(segment_state(s, fd, seq, ack, flags, data), fd);
            let news = flags & FLAG_ACK != 0 && ack == c.send_next && c.send_unacked != ack;
            let end = flags & FLAG_FIN != 0 && (seq == c.recv_next || (seq + data.len())
                % 0x1_0000_0000 == c.recv_next);
            &&& c.state == ConnState::Established ==> d.state == (if end {
                ConnState::CloseWait
            } else {
                ConnState::Established
            })
            &&& c.state == ConnState::FinWait1 ==> d.state == (if end {
                ConnState::Closed
            } else if news {
                ConnState::FinWait2
            } else {
                ConnState::FinWait1
            })
            &&& c.state == ConnState::FinWait2 ==> d.state == (if end {
                ConnState::Closed
            } else {
                ConnState::FinWait2
            })
            &&& c.state == ConnState::CloseWait ==> d.state == ConnState::CloseWait
        }),
{
    let c = conn(s, fd);
    assert(c.recv_next as int % 0x1_0000_0000 == c.recv_next);
}

/// What a packet says: between whom it goes, its numbers, its flags and what it carries.
pub open spec fn says(
    p: PacketView,
    c: ConnView,
    seq: u32,
    ack: u32,
    flags: u8,
    data: Seq<u8>,
) -> bool {
    &&& p.dest == c.remote_ip
    &&& p.protocol == 6
    &&& readable(p.payload)
    &&& be16(p.payload, 0) == c.local_port
    &&& be16(p.payload, 2) == c.remote_port
    &&& be32(p.payload, 4) == seq
    &&& be32(p.payload, 8) == ack
    &&& p.payload[13] == flags
    &&& be16(p.payload, 14) == (if c.recv_buf.len() == 0 {
        65535int
    } else if c.recv_buf.len() >= 65536 {
        0int
    } else {
        65536 - c.recv_buf.len()
    })
    &&& carried(p.payload) == data
}

proof fn lemma_says(c: ConnView, seq: u32, ack: u32, flags: u8, data: Seq<u8>)
    ensures
        says(crate::net::tcp::conn_packet(c, seq, ack, flags, data), c, seq, ack, flags, data),
{
    law_segment_reads_back(
        c.remote_ip,
        Fields {
            local_port: c.local_port,
            remote_port: c.remote_port,
            seq,
            ack,
            flags,
            window: crate::net::tcp::window_of(c.recv_buf.len()),
        },
        data,
    );
}

/// What a segment for a connection that is up is answered with: bytes, taken or not, and the
/// peer's end are answered with the number that is now expected; nothing else is answered.
/// Sending goes on afterwards in any case.
pub proof fn law_answered(s: TcpView, fd: u64, seq: u32, ack: u32, flags: u8, data: Seq<u8>)
    requires
        is_conn(s, fd),
        up(conn(s, fd)),
        flags & FLAG_RST == 0,
    ensures
        ({
            let c = conn(s, fd);
            let d = conn(segment_state(s, fd, seq, ack, flags, data), fd);
            let r = segment_reaction(s, fd, seq, ack, flags, data);
            &&& r.resume == Some(fd)
            &&& r.track.is_none()
            &&& data.len() > 0 ==> r.packet.is_some()
            &&& data.len() == 0 && flags & FLAG_FIN != 0 && seq == c.recv_next ==> r.packet.is_some()
            &&& data.len() == 0 && (flags & FLAG_FIN == 0 || seq != c.recv_next)
                ==> r.packet.is_none()
            &&& r.packet matches Some(p) ==> says(
                p,
                d,
                d.send_next,
                d.recv_next,
                FLAG_ACK,
                Seq::empty(),
            )
        }),
{
    let d = conn(segment_state(s, fd, seq, ack, flags, data), fd);
    lemma_says(d, d.send_next, d.recv_next, FLAG_ACK, Seq::empty());
    assert(conn(s, fd).recv_next as int % 0x1_0000_0000 == conn(s, fd).recv_next);
    assert(seq as int % 0x1_0000_0000 == seq);
}

/// A connection that asked comes up exactly on the acknowledgement of its request that itself
/// asks: it then expects the number behind the peer's first, nothing is in flight, and the answer
/// acknowledges that first number. Anything else, short of a reset, is passed over.
pub proof fn law_comes_up(s: TcpView, fd: u64, seq: u32, ack: u32, flags: u8, data: Seq<u8>)
    requires
        is_conn(s, fd),
        conn(s, fd).state == ConnState::SynSent,
        flags & FLAG_RST == 0,
    ensures
        ({
            let c = conn(s, fd);
            let t = segment_state(s, fd, seq, ack, flags, data);
            let r = segment_reaction(s, fd, seq, ack, flags, data);
            let d = conn(t, fd);
            let yes = flags & FLAG_SYN != 0 && flags & FLAG_ACK != 0 && ack == c.send_next;
            &&& r.track.is_none() && r.resume.is_none()
            &&& !yes ==> t == s && r.packet.is_none()
            &&& yes ==> {
                &&& only_changed(s, t, fd)
                &&& same_ends(c, d)
                &&& is_conn(t, fd)
                &&& d.state == ConnState::Established
                &&& d.recv_next == (seq + 1) % 0x1_0000_0000
                &&& d.send_unacked == c.send_next && d.send_next == c.send_next
                &&& d.unacked_segment.is_none() && d.retransmit_deadline.is_none()
                &&& d.send_buf == c.send_buf && d.recv_buf == c.recv_buf
                &&& r.packet matches Some(p) && says(
                    p,
                    d,
                    d.send_next,
                    d.recv_next,
                    FLAG_ACK,
                    Seq::empty(),
                )
            }
        }),
{
    let t = segment_state(s, fd, seq, ack, flags, data);
    let d = conn(t, fd);
    lemma_says(d, d.send_next, d.recv_next, FLAG_ACK, Seq::empty());
    assert(t.sockets.dom() =~= s.sockets.dom());
}

/// A connection that was asked for is up exactly once its answer is acknowledged, and waits then
/// behind the others at whoever listens at its port.
pub proof fn law_asked_comes_up(s: TcpView, fd: u64, seq: u32, ack: u32, flags: u8, data: Seq<u8>)
    requires
        tcp_ok(s),
        is_conn(s, fd),
        conn(s, fd).state == ConnState::SynReceived,
        flags & FLAG_RST == 0,
    ensures
        ({
            let c = conn(s, fd);
            let t = segment_state(s, fd, seq, ack, flags, data);
            let r = segment_reaction(s, fd, seq, ack, flags, data);
            let d = conn(t, fd);
            let yes = flags & FLAG_ACK != 0 && ack == c.send_next;
            let port = c.local_port as u64;
            &&& r.packet.is_none() && r.track.is_none() && r.resume.is_none()
            &&& !yes ==> t == s
            &&& yes ==> {
                &&& is_conn(t, fd) && same_ends(c, d)
                &&& d.state == ConnState::Established
                &&& d.recv_next == c.recv_next && d.send_next == c.send_next && d.send_unacked
                    == c.send_next
                &&& d.unacked_segment.is_none() && d.retransmit_deadline.is_none()
                &&& d.send_buf == c.send_buf && d.recv_buf == c.recv_buf
                &&& s.listeners.contains_key(port) ==> {
                    let l = s.listeners[port];
                    &&& s.sockets[l] is Listener && t.sockets[l] is Listener
                    &&& t.sockets[l]->Listener_pending == s.sockets[l]->Listener_pending.push(fd)
                    &&& t.sockets[l]->Listener_backlog == s.sockets[l]->Listener_backlog
                }
                &&& t.listeners == s.listeners && t.connections == s.connections
            }
        }),
{
    let c = conn(s, fd);
    if s.listeners.contains_key(c.local_port as u64) {
        let l = s.listeners[c.local_port as u64];
        assert(crate::net::tcp::is_listener(s, l));
    }
}

/// A reset forgets a connection in any state, a connection that waits for the last acknowledgement
/// is forgotten on one, and one that has ended takes nothing; none of it is answered.
pub proof fn law_forgotten(s: TcpView, fd: u64, seq: u32, ack: u32, flags: u8, data: Seq<u8>)
    requires
        is_conn(s, fd),
        flags & FLAG_RST != 0 || conn(s, fd).state == ConnState::LastAck || conn(s, fd).state
            == ConnState::Closed,
    ensures
        ({
            let c = conn(s, fd);
            let t = segment_state(s, fd, seq, ack, flags, data);
            let r = segment_reaction(s, fd, seq, ack, flags, data);
            let gone = flags & FLAG_RST != 0 || (c.state == ConnState::LastAck && flags & FLAG_ACK
                != 0);
            &&& r.packet.is_none() && r.track.is_none() && r.resume.is_none()
            &&& !gone ==> t == s
            &&& gone ==> {
                &&& !t.sockets.contains_key(fd)
                &&& !t.connections.contains_key(
                    conn_key(c.local_port, c.remote_ip, c.remote_port),
                )
                &&& t.listeners == s.listeners
                &&& forall|g: u64| g != fd ==> (#[trigger] t.sockets.contains_key(g)
                    == s.sockets.contains_key(g)) && (s.sockets.contains_key(g) ==> t.sockets[g]
                    == s.sockets[g])
            }
        }),
{
}

/// Which connection a segment belongs to: the one between the port and address that it comes from
/// and the port that it goes to. What it says is read from its bytes.
pub proof fn law_routed(s: TcpView, payload: Seq<u8>, src: Seq<u8>, fresh: u64, ticks: u64)
    requires
        payload.len() >= 20,
        20 <= payload[12] / 16 * 4 <= payload.len(),
        s.connections.contains_key(
            conn_key(
                (payload[2] * 256 + payload[3]) as u16,
                src,
                (payload[0] * 256 + payload[1]) as u16,
            ),
        ),
    ensures
        ({
            let fd = s.connections[conn_key(
                (payload[2] * 256 + payload[3]) as u16,
                src,
                (payload[0] * 256 + payload[1]) as u16,
            )];
            let seq = (payload[4] * 16777216 + payload[5] * 65536 + payload[6] * 256 + payload[7])
                as u32;
            let ack = (payload[8] * 16777216 + payload[9] * 65536 + payload[10] * 256
                + payload[11]) as u32;
            let data = payload.skip(payload[12] / 16 * 4);
            &&& received(s, payload, src, fresh, ticks) == segment_state(
                s,
                fd,
                seq,
                ack,
                payload[13],
                data,
            )
            &&& reaction_to(s, payload, src, fresh, ticks) == segment_reaction(
                s,
                fd,
                seq,
                ack,
                payload[13],
                data,
            )
        }),
{
    let off = payload[12] / 16 * 4;
    assert(carried(payload) =~= payload.skip(off as int));
}

/// A segment without a header that fits is passed over, and one that belongs to no connection and
/// asks for none changes nothing; it is refused, unless it is itself a refusal.
pub proof fn law_stray(s: TcpView, payload: Seq<u8>, src: Seq<u8>, fresh: u64, ticks: u64)
    requires
        payload.len() >= 20 && 20 <= payload[12] / 16 * 4 <= payload.len() ==> {
            &&& !s.connections.contains_key(conn_key(be16(payload, 2), src, be16(payload, 0)))
            &&& payload[13] & FLAG_SYN == 0 || payload[13] & FLAG_ACK != 0
        },
    ensures
        received(s, payload, src, fresh, ticks) == s,
        ({
            let r = reaction_to(s, payload, src, fresh, ticks);
            let whole = payload.len() >= 20 && 20 <= payload[12] / 16 * 4 <= payload.len();
            &&& r.track.is_none() && r.resume.is_none()
            &&& !whole || payload[13] & FLAG_RST != 0 ==> r.packet.is_none()
            &&& whole && payload[13] & FLAG_RST == 0 ==> (r.packet matches Some(p)
                && refuses(p, payload, src))
        }),
{
    lemma_refuses(payload, src);
}

/// Whether a packet refuses the segment `payload` from `src`: it goes back where that came from,
/// and acknowledges the number behind the one that it had.
pub open spec fn refuses(p: PacketView, payload: Seq<u8>, src: Seq<u8>) -> bool {
    &&& p.dest == src
    &&& p.protocol == 6
    &&& readable(p.payload)
    &&& be16(p.payload, 0) == be16(payload, 2)
    &&& be16(p.payload, 2) == be16(payload, 0)
    &&& be32(p.payload, 8) == (be32(payload, 4) + 1) % 0x1_0000_0000
    &&& p.payload[13] == FLAG_RST | FLAG_ACK
    &&& carried(p.payload) == Seq::<u8>::empty()
}

proof fn lemma_refuses(payload: Seq<u8>, src: Seq<u8>)
    ensures
        refuses(
            crate::net::tcp::reset_packet(be16(payload, 2), src, be16(payload, 0), be32(payload, 4)),
            payload,
            src,
        ),
{
    law_segment_reads_back(
        src,
        Fields {
            local_port: be16(payload, 2),
            remote_port: be16(payload, 0),
            seq: 0,
            ack: crate::net::tcp::seq_after(be32(payload, 4), 1),
            flags: FLAG_RST | FLAG_ACK,
            window: 0,
        },
        Seq::empty(),
    );
}

/// A request for a connection: it is refused where nobody listens at the port and passed over
/// where as many wait there as may. Otherwise there is a new connection, found by its two ends,
/// that expects the number behind the request's; the answer asks in turn and acknowledges it.
pub proof fn law_asked(s: TcpView, payload: Seq<u8>, src: Seq<u8>, fresh: u64, ticks: u64)
    requires
        tcp_ok(s),
        !s.sockets.contains_key(fresh),
        readable(payload),
        payload[13] & FLAG_SYN != 0,
        payload[13] & FLAG_ACK == 0,
        !s.connections.contains_key(conn_key(be16(payload, 2), src, be16(payload, 0))),
    ensures
        ({
            let port = be16(payload, 2);
            let t = received(s, payload, src, fresh, ticks);
            let r = reaction_to(s, payload, src, fresh, ticks);
            let l = s.listeners[port as u64];
            let full = s.sockets[l]->Listener_pending.len() >= s.sockets[l]->Listener_backlog;
            &&& r.resume.is_none()
            &&& !s.listeners.contains_key(port as u64) ==> t == s && r.track.is_none() && (
            r.packet matches Some(p) && refuses(p, payload, src))
            &&& s.listeners.contains_key(port as u64) && full ==> t == s && r.track.is_none()
                && r.packet.is_none()
            &&& s.listeners.contains_key(port as u64) && !full ==> {
                let c = conn(t, fresh);
                &&& is_conn(t, fresh)
                &&& c.state == ConnState::SynReceived
                &&& c.local_port == port && c.remote_ip == src && c.remote_port == be16(payload, 0)
                &&& t.connections == s.connections.insert(
                    conn_key(port, src, be16(payload, 0)),
                    fresh,
                )
                &&& t.listeners == s.listeners
                &&& c.recv_next == (be32(payload, 4) + 1) % 0x1_0000_0000
                &&& c.send_next == (c.send_unacked + 1) % 0x1_0000_0000
                &&& c.send_buf.len() == 0 && c.recv_buf.len() == 0
                &&& c.unacked_segment.is_none() && c.retransmit_count == 0
                &&& t.isn_counter == (s.isn_counter + 1) % 0x1_0000_0000
                &&& c.send_unacked == isn_of(ticks, s.isn_counter)
                &&& forall|g: u64| g != fresh ==> (#[trigger] t.sockets.contains_key(g)
                    == s.sockets.contains_key(g)) && (s.sockets.contains_key(g) ==> t.sockets[g]
                    == s.sockets[g])
                &&& r.track == Some(fresh)
                &&& r.packet matches Some(p) && says(
                    p,
                    c,
                    c.send_unacked,
                    c.recv_next,
                    FLAG_SYN | FLAG_ACK,
                    Seq::empty(),
                )
            }
        }),
{
    lemma_refuses(payload, src);
    let port = be16(payload, 2);
    if s.listeners.contains_key(port as u64) {
        assert(crate::net::tcp::is_listener(s, s.listeners[port as u64]));
    }
    let t = received(s, payload, src, fresh, ticks);
    let c = conn(t, fresh);
    lemma_says(c, c.send_unacked, c.recv_next, FLAG_SYN | FLAG_ACK, Seq::empty());
}

// ---------------------------------------------------------------------------------------------
// Sending
// ---------------------------------------------------------------------------------------------
/// Bytes are taken for sending exactly by a connection that can still send, whether or not its
/// peer can; they go behind those that wait. A segment is cut off exactly where none is in flight.
pub proof fn law_write(s: TcpView, fd: u64, data: Seq<u8>)
    ensures
        write_error(s, fd) == (if !is_conn(s, fd) {
            Some(EBADF)
        } else if conn(s, fd).state == ConnState::Established || conn(s, fd).state
            == ConnState::CloseWait {
            None
        } else {
            Some(ENOTCONN)
        }),
        is_conn(s, fd) ==> {
            let c = conn(s, fd);
            let d = with_bytes(c, data);
            &&& d.send_buf == c.send_buf + data
            &&& d == (ConnView { send_buf: d.send_buf, ..c })
            &&& write_error(s, fd).is_none() ==> (can_send(d) <==> d.unacked_segment.is_none()
                && d.send_buf.len() > 0)
        },
{
}

/// A connection sends only while it may and nothing is in flight. What it sends next is the oldest
/// 536 bytes that wait, or all where there are fewer, under the number that is up; they leave the
/// buffer, the others stay.
pub proof fn law_next_segment(o: Outgoing, fd: u64, c: ConnView)
    requires
        is_next(o, fd, c),
    ensures
        ({
            let n = if c.send_buf.len() <= 536 {
                c.send_buf.len() as int
            } else {
                536int
            };
            &&& o.fd == fd
            &&& o.seq == c.send_next
            &&& o.data@ == c.send_buf.take(n)
            &&& says(
                o.packet@,
                c,
                c.send_next,
                c.recv_next,
                FLAG_ACK | FLAG_PSH,
                c.send_buf.take(n),
            )
            &&& without_next(c) == (ConnView { send_buf: c.send_buf.skip(n), ..c })
        }),
        can_send(c) <==> c.unacked_segment.is_none() && c.send_buf.len() > 0 && (c.state
            == ConnState::Established || c.state == ConnState::CloseWait),
{
    lemma_says(
        c,
        c.send_next,
        c.recv_next,
        FLAG_ACK | FLAG_PSH,
        c.send_buf.take(crate::net::tcp::next_size(c)),
    );
}

/// A segment that went out is in flight for 100 ticks at least, and the next one has the number
/// behind its last byte.
pub proof fn law_sent(s: TcpView, fd: u64, seq: u32, data: Seq<u8>, segment: Seq<u8>, now: u64)
    requires
        is_conn(s, fd),
        now <= u64::MAX - 100,
    ensures
        ({
            let c = conn(s, fd);
            let t = send_done(s, fd, seq, data, segment, true, now);
            let d = conn(t, fd);
            &&& only_changed(s, t, fd) && is_conn(t, fd)
            &&& d.send_next == (seq + data.len()) % 0x1_0000_0000
            &&& d.unacked_segment == Some(segment)
            &&& d.retransmit_deadline == Some((now + 100) as u64)
            &&& d == (ConnView {
                send_next: d.send_next,
                unacked_segment: d.unacked_segment,
                retransmit_deadline: d.retransmit_deadline,
                ..c
            })
        }),
        ({
            let c = conn(s, fd);
            let t = awaiting(s, fd, segment, now);
            let d = conn(t, fd);
            &&& only_changed(s, t, fd) && is_conn(t, fd)
            &&& d == (ConnView {
                unacked_segment: Some(segment),
                retransmit_deadline: Some((now + 100) as u64),
                ..c
            })
        }),
{
    assert(send_done(s, fd, seq, data, segment, true, now).sockets.dom() =~= s.sockets.dom());
    assert(awaiting(s, fd, segment, now).sockets.dom() =~= s.sockets.dom());
}

/// The end of this side's sending uses up a number of its own; it is sent again like a segment
/// where it went out.
pub proof fn law_end_sent(
    s: TcpView,
    fd: u64,
    o: Outgoing,
    c: ConnView,
    segment: Seq<u8>,
    went_out: bool,
    now: u64,
)
    requires
        is_conn(s, fd),
        is_fin(o, fd, c),
        now <= u64::MAX - 100,
    ensures
        o.fd == fd && o.seq == c.send_next && o.data@.len() == 0,
        says(o.packet@, c, c.send_next, c.recv_next, FLAG_FIN | FLAG_ACK, Seq::empty()),
        ({
            let b = conn(s, fd);
            let t = fin_sent(s, fd, o.seq, segment, went_out, now);
            let d = conn(t, fd);
            &&& only_changed(s, t, fd) && is_conn(t, fd)
            &&& d.send_next == (c.send_next + 1) % 0x1_0000_0000
            &&& went_out ==> d.unacked_segment == Some(segment) && d.retransmit_deadline == Some(
                (now + 100) as u64,
            )
            &&& !went_out ==> d.unacked_segment == b.unacked_segment && d.retransmit_deadline
                == b.retransmit_deadline
            &&& d == (ConnView {
                send_next: d.send_next,
                unacked_segment: d.unacked_segment,
                retransmit_deadline: d.retransmit_deadline,
                ..b
            })
        }),
{
    lemma_says(c, c.send_next, c.recv_next, FLAG_FIN | FLAG_ACK, Seq::empty());
    assert(fin_sent(s, fd, o.seq, segment, went_out, now).sockets.dom() =~= s.sockets.dom());
}

/// An acknowledgement is overdue from the tick of its deadline on. The segment then goes out
/// again, byte for byte and to the same peer, up to five times; the sixth time the connection is
/// forgotten instead.
pub proof fn law_tried_again(s: TcpView, fd: u64, now: u64, then: u64)
    requires
        is_conn(s, fd),
        now <= u64::MAX - 100,
    ensures
        overdue(s, fd, then) <==> conn(s, fd).retransmit_deadline.is_some() && conn(
            s,
            fd,
        ).retransmit_deadline->Some_0 <= then,
        ({
            let c = conn(s, fd);
            let t = retried(s, fd, now);
            let d = conn(t, fd);
            &&& c.retransmit_count < 5 ==> {
                &&& only_changed(s, t, fd) && is_conn(t, fd)
                &&& d == (ConnView {
                    retransmit_count: (c.retransmit_count + 1) as u32,
                    retransmit_deadline: Some((now + 100) as u64),
                    ..c
                })
                &&& c.unacked_segment.is_none() ==> retry_packet(s, fd).is_none()
                &&& c.unacked_segment matches Some(b) ==> (retry_packet(s, fd) matches Some(p)
                    && p.payload == b && p.dest == c.remote_ip && p.protocol == 6)
            }
            &&& c.retransmit_count >= 5 ==> {
                &&& retry_packet(s, fd).is_none()
                &&& !t.sockets.contains_key(fd)
                &&& !t.connections.contains_key(
                    conn_key(c.local_port, c.remote_ip, c.remote_port),
                )
            }
        }),
{
    if conn(s, fd).retransmit_count < 5 {
        assert(retried(s, fd, now).sockets.dom() =~= s.sockets.dom());
    }
}

/// A round sees to the overdue connections from the lowest descriptor up, each beyond the last, and
/// goes on as long as there is one.
pub proof fn law_round(s: TcpView, after: u64, began: u64, fd: u64)
    requires
        is_conn(s, fd),
        fd > after,
        conn(s, fd).retransmit_deadline matches Some(d) && d <= began,
    ensures
        exists|g: u64|
            after < g <= fd && #[trigger] is_next_due(s, Some(after), began, g) && is_conn(s, g) && (
            conn(s, g).retransmit_deadline matches Some(d) && d <= began),
        forall|g: u64, h: u64|
            #![trigger is_next_due(s, Some(after), began, g), is_next_due(s, Some(after), began, h)]
            is_next_due(s, Some(after), began, g) && is_next_due(s, Some(after), began, h) ==> g
                == h,
    decreases fd - after,
{
    assert(overdue(s, fd, began));
    if !is_next_due(s, Some(after), began, fd) {
        let g = choose|g: u64| after < g && #[trigger] overdue(s, g, began) && g < fd;
        law_round(s, after, began, g);
    }
}

/// Connections that are begun at the same time never start from the same number.
pub proof fn law_first_numbers(ticks: u64, a: u32, b: u32)
    requires
        a != b,
    ensures
        isn_of(ticks, a) != isn_of(ticks, b),
{
    let m: int = 0x1_0000_0000;
    let k: int = 0x9E37_79B1;
    let t = (ticks % 0x1_0000_0000) as u32;
    let x = ((a * k) % m) as u32;
    let y = ((b * k) % m) as u32;
    lemma_spread(a);
    lemma_spread(b);
    assert(x != y);
    assert(t ^ x != t ^ y) by (bit_vector)
        requires
            x != y,
    ;
}

/// What a number is multiplied with can be undone.
proof fn lemma_spread(a: u32)
    ensures
        (((a * 0x9E37_79B1) % 0x1_0000_0000) * 244002641) % 0x1_0000_0000 == a,
{
    let m: int = 0x1_0000_0000;
    let k: int = 0x9E37_79B1;
    let i: int = 244002641;
    vstd::arithmetic::div_mod::lemma_mul_mod_noop_left(a * k, i, m);
    assert((a * k) * i == a + (a * 150801925) * m) by (nonlinear_arith)
        requires
            m == 0x1_0000_0000,
            k == 0x9E37_79B1,
            i == 244002641,
    ;
    vstd::arithmetic::div_mod::lemma_mod_multiples_vanish(a * 150801925, a as int, m);
    assert((a as int) % m == a);
    assert(m * (a * 150801925) == (a * 150801925) * m) by (nonlinear_arith);
}

/// The window says how much more fits, as far as sixteen bits go.
pub proof fn law_window(waiting: nat)
    ensures
        waiting == 0 ==> window_of(waiting) == 65535,
        0 < waiting < 65536 ==> window_of(waiting) + waiting == 65536,
        waiting >= 65536 ==> window_of(waiting) == 0,
{
}

// ---------------------------------------------------------------------------------------------
// Calls
// ---------------------------------------------------------------------------------------------
/// Binding: only a socket that neither listens nor is connected takes a port. It gets the one that
/// was asked for, and for zero one of those from 49152 on where nobody listens.
pub proof fn law_bind(s: TcpView, fd: u64, addr: Option<SockAddr>)
    requires
        tcp_ok(s),
    ensures
        ({
            let t = bind_state(s, fd, addr);
            let r = bind_answer(s, fd, addr);
            &&& !s.sockets.contains_key(fd) ==> r.is_none() && t == s
            &&& s.sockets.contains_key(fd) && !(s.sockets[fd] is Unbound) ==> r == Some(
                negated(EISCONN),
            ) && t == s
            &&& is_unbound(s, fd) && addr.is_none() ==> r == Some(negated(EINVAL)) && t == s
            &&& is_unbound(s, fd) && (addr matches Some(a) && a.port != 0) ==> r == Some(0i64)
                && t.sockets[fd] == (SocketView::Unbound { local_port: Some(addr->Some_0.port) })
                && only_changed(s, t, fd)
            &&& is_unbound(s, fd) && (addr matches Some(a) && a.port == 0) ==> {
                if forall|p: u16| p >= 49152 ==> #[trigger] s.listeners.contains_key(p as u64) {
                    r == Some(negated(EADDRINUSE)) && t == s
                } else {
                    &&& r == Some(0i64)
                    &&& t.sockets[fd] is Unbound
                    &&& t.sockets[fd]->Unbound_local_port matches Some(p) && p >= 49152
                        && !s.listeners.contains_key(p as u64)
                    &&& t.listeners == s.listeners && t.connections == s.connections
                    &&& forall|g: u64| g != fd && s.sockets.contains_key(g)
                        ==> #[trigger] t.sockets[g] == s.sockets[g]
                }
            }
        }),
{
    law_port_is_free(s.listeners, s.next_ephemeral);
    if is_unbound(s, fd) {
        assert(bind_state(s, fd, addr).sockets.dom() =~= s.sockets.dom());
        if bind_answer(s, fd, addr) == Some(negated(EADDRINUSE)) {
            assert forall|p: u16| p >= 49152 implies #[trigger] s.listeners.contains_key(
                p as u64,
            ) by {
                assert(ephemeral(p));
            }
        }
    }
}

/// Asking for a connection: only a socket that neither listens nor is connected asks. Its
/// connection goes from its own port, or one where nobody listens, to the given address, is found
/// by these, and its request carries its first number and no other.
pub proof fn law_connect(s: TcpView, fd: u64, addr: SockAddr, ticks: u64, o: Outgoing)
    requires
        tcp_ok(s),
        connect_error(s, Some(fd), Some(addr)).is_none(),
        is_syn(o, fd, conn(connect_state(s, fd, addr, ticks), fd)),
    ensures
        is_unbound(s, fd),
        ({
            let t = connect_state(s, fd, addr, ticks);
            let c = conn(t, fd);
            &&& is_conn(t, fd)
            &&& c.state == ConnState::SynSent
            &&& c.remote_ip == addr.ip@ && c.remote_port == addr.port
            &&& match s.sockets[fd]->Unbound_local_port {
                Some(p) => c.local_port == p && t.next_ephemeral == s.next_ephemeral,
                None => c.local_port >= 49152 && !s.listeners.contains_key(c.local_port as u64)
                    && t.next_ephemeral == (if c.local_port == 65535 {
                    49152
                } else {
                    c.local_port + 1
                }),
            }
            &&& t.isn_counter == (s.isn_counter + 1) % 0x1_0000_0000
            &&& c.send_unacked == isn_of(ticks, s.isn_counter) && c.recv_next == 0
            &&& t.connections == s.connections.insert(
                conn_key(c.local_port, addr.ip@, addr.port),
                fd,
            )
            &&& t.listeners == s.listeners
            &&& c.send_next == (c.send_unacked + 1) % 0x1_0000_0000
            &&& c.send_buf.len() == 0 && c.recv_buf.len() == 0 && c.retransmit_count == 0
            &&& c.unacked_segment.is_none()
            &&& forall|g: u64| g != fd && s.sockets.contains_key(g) ==> #[trigger] t.sockets[g]
                == s.sockets[g]
            &&& o.fd == fd && o.seq == c.send_unacked && o.data@.len() == 0
            &&& says(o.packet@, c, c.send_unacked, 0, FLAG_SYN, Seq::empty())
        }),
{
    law_port_is_free(s.listeners, s.next_ephemeral);
    let c = conn(connect_state(s, fd, addr, ticks), fd);
    lemma_says(c, c.send_unacked, 0, FLAG_SYN, Seq::empty());
}

/// Why a socket cannot connect, in the order in which it is looked at.
pub proof fn law_connect_refused(s: TcpView, fd: Option<u64>, addr: Option<SockAddr>)
    requires
        tcp_ok(s),
    ensures
        ({
            let e = connect_error(s, fd, addr);
            &&& fd.is_none() ==> e == Some(EBADF)
            &&& fd.is_some() && addr.is_none() ==> e == Some(EINVAL)
            &&& fd matches Some(f) ==> addr.is_some() ==> {
                &&& !s.sockets.contains_key(f) ==> e == Some(EBADF)
                &&& s.sockets.contains_key(f) && !(s.sockets[f] is Unbound) ==> e == Some(EISCONN)
                &&& is_unbound(s, f) && s.sockets[f]->Unbound_local_port.is_some() ==> e.is_none()
                &&& is_unbound(s, f) && s.sockets[f]->Unbound_local_port.is_none() ==> {
                    if forall|p: u16| p >= 49152 ==> #[trigger] s.listeners.contains_key(p as u64) {
                        e == Some(EADDRINUSE)
                    } else {
                        e.is_none()
                    }
                }
            }
        }),
{
    law_port_is_free(s.listeners, s.next_ephemeral);
    if connect_error(s, fd, addr) == Some(EADDRINUSE) {
        assert forall|p: u16| p >= 49152 implies #[trigger] s.listeners.contains_key(p as u64) by {
            assert(ephemeral(p));
        }
    }
}

/// Waiting for a connection ends when it is up, when it is gone, and at the deadline; not before.
pub proof fn law_connect_ends(s: TcpView, fd: u64, now: u64, deadline: u64)
    ensures
        ({
            let r = connect_answer(s, fd, now, deadline);
            let gone = !is_conn(s, fd) || conn(s, fd).state == ConnState::Closed;
            let done = is_conn(s, fd) && conn(s, fd).state == ConnState::Established;
            &&& r == Some(0i64) <==> done
            &&& gone ==> r == Some(negated(ECONNREFUSED))
            &&& !gone && !done && now >= deadline ==> r == Some(negated(ETIMEDOUT))
            &&& !gone && !done && now < deadline ==> r.is_none()
        }),
{
}

/// Listening: a socket that neither listens nor is connected then takes connections at its own
/// port, or one where nobody listens, with a backlog from 1 to 128 and nobody waiting. Two sockets
/// never listen at one port.
pub proof fn law_listen(s: TcpView, fd: Option<u64>, backlog: u64)
    requires
        tcp_ok(s),
    ensures
        ({
            let r = listen_answer(s, fd);
            let t = listen_state(s, fd, backlog);
            &&& r != 0 ==> t == s
            &&& fd.is_none() ==> r == negated(EBADF)
            &&& fd matches Some(f) ==> {
                &&& !s.sockets.contains_key(f) ==> r == negated(EBADF)
                &&& is_conn(s, f) ==> r == negated(EISCONN)
                &&& s.sockets.contains_key(f) && s.sockets[f] is Listener ==> r == 0 && t == s
                &&& is_unbound(s, f) ==> match s.sockets[f]->Unbound_local_port {
                    Some(p) => if s.listeners.contains_key(p as u64) {
                        r == negated(EADDRINUSE)
                    } else {
                        r == 0 && t.listeners == s.listeners.insert(p as u64, f)
                    },
                    None => r == negated(EADDRINUSE) || (r == 0 && exists|p: u16|
                        p >= 49152 && !s.listeners.contains_key(p as u64)
                            && #[trigger] s.listeners.insert(p as u64, f) == t.listeners),
                }
                &&& is_unbound(s, f) && r == 0 ==> {
                    &&& t.sockets[f] is Listener
                    &&& t.sockets[f]->Listener_pending.len() == 0
                    &&& t.sockets[f]->Listener_backlog == (if backlog < 1 {
                        1int
                    } else if backlog > 128 {
                        128int
                    } else {
                        backlog as int
                    })
                    &&& t.connections == s.connections
                    &&& forall|g: u64| g != f && s.sockets.contains_key(g)
                        ==> #[trigger] t.sockets[g] == s.sockets[g]
                }
            }
        }),
{
    law_port_is_free(s.listeners, s.next_ephemeral);
    if let Some(f) = fd {
        if is_unbound(s, f) && listen_answer(s, fd) == 0 && s.sockets[f]->Unbound_local_port.is_none() {
            let p = crate::net::ports::port_for(s.listeners, s.next_ephemeral)->Some_0;
            assert(s.listeners.insert(p as u64, f) == listen_state(s, fd, backlog).listeners);
        }
    }
}

/// Accepting: whoever has waited longest leaves the queue, the others stay in order; a listener
/// with nobody waiting says to try again.
pub proof fn law_accept(s: TcpView, fd: Option<u64>)
    ensures
        ({
            let e = accept_error(s, fd);
            let t = accept_state(s, fd);
            &&& fd.is_none() ==> e == Some(EBADF) && t == s
            &&& fd matches Some(f) ==> {
                &&& !s.sockets.contains_key(f) ==> e == Some(EBADF) && t == s
                &&& s.sockets.contains_key(f) && !(s.sockets[f] is Listener) ==> e == Some(
                    EOPNOTSUPP,
                ) && t == s
                &&& s.sockets.contains_key(f) && s.sockets[f] is Listener ==> {
                    let waiting = s.sockets[f]->Listener_pending;
                    &&& waiting.len() == 0 ==> e == Some(EAGAIN) && t == s
                    &&& waiting.len() > 0 ==> {
                        &&& e == (if is_conn(s, waiting[0]) {
                            None
                        } else {
                            Some(ECONNREFUSED)
                        })
                        &&& only_changed(s, t, f)
                        &&& t.sockets[f] == (SocketView::Listener {
                            backlog: s.sockets[f]->Listener_backlog,
                            pending: waiting.skip(1),
                        })
                    }
                }
            }
        }),
{
    if let Some(f) = fd {
        if s.sockets.contains_key(f) && s.sockets[f] is Listener {
            let waiting = s.sockets[f]->Listener_pending;
            if waiting.len() > 0 {
                assert(waiting.drop_first() =~= waiting.skip(1));
                assert(accept_state(s, fd).sockets.dom() =~= s.sockets.dom());
            }
        }
    }
}

/// Reading: a reader gets the oldest bytes that wait, as many as it has room for; bytes that came
/// before the peer's end are read before the end is.
pub proof fn law_read(c: ConnView, len: u64)
    ensures
        readable_now(c, len) == (if c.recv_buf.len() <= len {
            c.recv_buf.len() as int
        } else {
            len as int
        }),
        c.recv_buf.len() > 0 && len > 0 ==> readable_now(c, len) > 0,
        c.recv_buf.len() == 0 ==> readable_now(c, len) == 0,
        c.state == ConnState::CloseWait || c.state == ConnState::FinWait2 || c.state
            == ConnState::Closed ==> peer_done(c),
        c.state == ConnState::Established || c.state == ConnState::FinWait1 || c.state
            == ConnState::SynSent || c.state == ConnState::SynReceived ==> !peer_done(c),
        ready(SocketView::Connection(c)) <==> c.recv_buf.len() > 0,
{
}

/// Closing: an open connection ends its sending and waits for the acknowledgement, whoever closes
/// first; any other socket is gone at once, and a listener's port is free again.
pub proof fn law_close(s: TcpView, fd: u64)
    requires
        tcp_ok(s),
    ensures
        ({
            let t = closed(s, fd);
            let c = conn(s, fd);
            &&& is_conn(s, fd) && c.state == ConnState::Established ==> t == with_conn(
                s,
                fd,
                ConnView { state: ConnState::FinWait1, ..c },
            ) && closing_state(c).is_some()
            &&& is_conn(s, fd) && c.state == ConnState::CloseWait ==> t == with_conn(
                s,
                fd,
                ConnView { state: ConnState::LastAck, ..c },
            ) && closing_state(c).is_some()
            &&& is_conn(s, fd) && c.state != ConnState::Established && c.state
                != ConnState::CloseWait ==> !t.sockets.contains_key(fd)
                && !t.connections.contains_key(
                conn_key(c.local_port, c.remote_ip, c.remote_port),
            ) && t.listeners == s.listeners && closing_state(c).is_none()
            &&& !is_conn(s, fd) ==> {
                &&& !t.sockets.contains_key(fd)
                &&& t.connections == s.connections
                &&& forall|p: u64| #[trigger] t.listeners.contains_key(p) <==> s.listeners.contains_key(p)
                    && s.listeners[p] != fd
                &&& forall|p: u64| #[trigger] t.listeners.contains_key(p) ==> t.listeners[p]
                    == s.listeners[p]
            }
            &&& forall|g: u64| g != fd ==> (#[trigger] t.sockets.contains_key(g)
                == s.sockets.contains_key(g)) && (s.sockets.contains_key(g) ==> t.sockets[g]
                == s.sockets[g])
        }),
{
}

} // verus!

//! What TCP keeps to across its steps and between two ends of a connection.

use vstd::prelude::*;

use crate::bytes::{be16, be32};

use crate::net::segment::{
    carried, law_segment_reads_back, readable, Fields, FLAG_ACK, FLAG_FIN, FLAG_PSH, FLAG_RST,
    FLAG_SYN, MSS,
};
use crate::net::sockaddr::SockAddr;
use crate::net::tcp::{
    ack_packet, after_segment, arrived_key, awaiting, beyond, can_send, closed, conn, conn_key,
    conn_ok, conn_packet, connect_error, connect_state, has_room, in_flight, is_conn, is_next_due,
    key_of, next_size, overdue, own_port, reaction_to, received, reset_packet, retried,
    retry_packet, segment_state, send_done, seq_after, tcp_ok, torn_down, wants_ack, window_of,
    with_conn, without_next, ConnState, ConnView, SocketView, TcpView, MAX_RECV_BUF,
    MAX_RETRANSMITS,
};

verus! {

/// Which bits the combinations of flags have.
proof fn lemma_flags()
    ensures
        FLAG_SYN & FLAG_SYN != 0,
        FLAG_SYN & FLAG_ACK == 0,
        FLAG_SYN & FLAG_RST == 0,
        (FLAG_SYN | FLAG_ACK) & FLAG_SYN != 0,
        (FLAG_SYN | FLAG_ACK) & FLAG_ACK != 0,
        (FLAG_SYN | FLAG_ACK) & FLAG_RST == 0,
        FLAG_ACK & FLAG_ACK != 0,
        FLAG_ACK & FLAG_RST == 0,
        FLAG_ACK & FLAG_FIN == 0,
        (FLAG_ACK | FLAG_PSH) & FLAG_ACK != 0,
        (FLAG_ACK | FLAG_PSH) & FLAG_RST == 0,
        (FLAG_ACK | FLAG_PSH) & FLAG_FIN == 0,
        (FLAG_FIN | FLAG_ACK) & FLAG_FIN != 0,
        (FLAG_FIN | FLAG_ACK) & FLAG_ACK != 0,
        (FLAG_FIN | FLAG_ACK) & FLAG_RST == 0,
        FLAG_RST & FLAG_RST != 0,
{
    assert(2u8 & 2u8 == 2u8 && 2u8 & 0x10u8 == 0 && 2u8 & 4u8 == 0 && (2u8 | 0x10u8) & 2u8 == 2u8
        && (2u8 | 0x10u8) & 0x10u8 == 0x10u8 && (2u8 | 0x10u8) & 4u8 == 0 && 0x10u8 & 0x10u8
        == 0x10u8 && 0x10u8 & 4u8 == 0 && 0x10u8 & 1u8 == 0 && (0x10u8 | 8u8) & 0x10u8 == 0x10u8
        && (0x10u8 | 8u8) & 4u8 == 0 && (0x10u8 | 8u8) & 1u8 == 0 && (1u8 | 0x10u8) & 1u8 == 1u8
        && (1u8 | 0x10u8) & 0x10u8 == 0x10u8 && (1u8 | 0x10u8) & 4u8 == 0 && 4u8 & 4u8 == 4u8)
        by (bit_vector);
}

/// A segment of connection `c` is read back as it was built.
proof fn lemma_conn_packet(c: ConnView, seq: u32, ack: u32, flags: u8, data: Seq<u8>)
    ensures
        ({
            let p = conn_packet(c, seq, ack, flags, data).payload;
            &&& readable(p)
            &&& be16(p, 0) == c.local_port
            &&& be16(p, 2) == c.remote_port
            &&& be32(p, 4) == seq
            &&& be32(p, 8) == ack
            &&& p[13] == flags
            &&& carried(p) == data
        }),
{
    law_segment_reads_back(
        c.remote_ip,
        Fields {
            local_port: c.local_port,
            remote_port: c.remote_port,
            seq,
            ack,
            flags,
            window: window_of(c.recv_buf.len()),
        },
        data,
    );
}

/// The request of a client's socket `cfd` for a connection to `addr`.
pub open spec fn request(c: TcpView, cfd: u64, addr: SockAddr, ticks: u64) -> Seq<u8> {
    let cc = conn(connect_state(c, cfd, addr, ticks), cfd);
    conn_packet(cc, cc.send_unacked, 0, FLAG_SYN, Seq::empty()).payload
}

/// The handshake: a client asks a listener with room, the listener's machine answers, the client
/// acknowledges. Both ends are up then, each expects the number that the other sends next, nothing
/// is in flight, and the connection waits at the listener to be accepted.
pub proof fn law_handshake(
    c: TcpView,
    cfd: u64,
    addr: SockAddr,
    s: TcpView,
    fresh: u64,
    client_ip: Seq<u8>,
    ticks: u64,
    now: u64,
)
    requires
        tcp_ok(c),
        tcp_ok(s),
        connect_error(c, Some(cfd), Some(addr)).is_none(),
        client_ip.len() == 4,
        s.listeners.contains_key(addr.port as u64),
        has_room(s, addr.port),
        !s.sockets.contains_key(fresh),
        !s.connections.contains_key(
            conn_key(addr.port, client_ip, own_port(c, cfd)->Some_0),
        ),
    ensures
        ({
            let syn = request(c, cfd, addr, ticks);
            let c1 = awaiting(connect_state(c, cfd, addr, ticks), cfd, syn, now);
            let answer = reaction_to(s, syn, client_ip, fresh, ticks).packet->Some_0.payload;
            let s1 = awaiting(received(s, syn, client_ip, fresh, ticks), fresh, answer, now);
            let ack = reaction_to(c1, answer, addr.ip@, cfd, ticks).packet->Some_0.payload;
            let c2 = received(c1, answer, addr.ip@, cfd, ticks);
            let s2 = received(s1, ack, client_ip, fresh, ticks);
            let l = s.listeners[addr.port as u64];
            &&& reaction_to(s, syn, client_ip, fresh, ticks).packet.is_some()
            &&& reaction_to(c1, answer, addr.ip@, cfd, ticks).packet.is_some()
            &&& is_conn(c2, cfd) && is_conn(s2, fresh)
            &&& conn(c2, cfd).state == ConnState::Established
            &&& conn(s2, fresh).state == ConnState::Established
            &&& conn(c2, cfd).recv_next == conn(s2, fresh).send_next
            &&& conn(s2, fresh).recv_next == conn(c2, cfd).send_next
            &&& conn(c2, cfd).unacked_segment.is_none()
            &&& conn(s2, fresh).unacked_segment.is_none()
            &&& s2.sockets[l] == (SocketView::Listener {
                backlog: s.sockets[l]->Listener_backlog,
                pending: s.sockets[l]->Listener_pending.push(fresh),
            })
        }),
{
    lemma_flags();
    let c0 = connect_state(c, cfd, addr, ticks);
    let cc = conn(c0, cfd);
    let syn = request(c, cfd, addr, ticks);
    lemma_conn_packet(cc, cc.send_unacked, 0, FLAG_SYN, Seq::empty());
    let c1 = awaiting(c0, cfd, syn, now);
    let s0 = received(s, syn, client_ip, fresh, ticks);
    let sc = conn(s0, fresh);
    let l = s.listeners[addr.port as u64];
    assert(arrived_key(syn, client_ip) == conn_key(addr.port, client_ip, cc.local_port));
    assert(is_conn(s0, fresh));
    assert(sc.recv_next == cc.send_next);
    let answer = reaction_to(s, syn, client_ip, fresh, ticks).packet->Some_0.payload;
    lemma_conn_packet(sc, sc.send_unacked, sc.recv_next, FLAG_SYN | FLAG_ACK, Seq::empty());
    assert(answer == conn_packet(
        sc,
        sc.send_unacked,
        sc.recv_next,
        FLAG_SYN | FLAG_ACK,
        Seq::empty(),
    ).payload);
    let s1 = awaiting(s0, fresh, answer, now);
    assert(arrived_key(answer, addr.ip@) == key_of(cc));
    assert(c1.connections.contains_key(key_of(cc)) && c1.connections[key_of(cc)] == cfd);
    let c2 = received(c1, answer, addr.ip@, cfd, ticks);
    let up = conn(c2, cfd);
    assert(up.state == ConnState::Established);
    let ack = reaction_to(c1, answer, addr.ip@, cfd, ticks).packet->Some_0.payload;
    lemma_conn_packet(up, up.send_next, up.recv_next, FLAG_ACK, Seq::empty());
    assert(arrived_key(ack, client_ip) == key_of(sc));
    assert(s1.connections.contains_key(key_of(sc)) && s1.connections[key_of(sc)] == fresh);
    assert(l != fresh);
    assert(s1.sockets[l] == s.sockets[l]);
    assert(s1.listeners == s.listeners);
}

/// Whether an end still sends: it has not closed. Its peer may have.
pub open spec fn sends(a: ConnView) -> bool {
    a.state == ConnState::Established || a.state == ConnState::CloseWait
}

/// Whether an end still receives: its peer has not closed. It may have closed itself.
pub open spec fn receives(b: ConnView) -> bool {
    b.state == ConnState::Established || b.state == ConnState::FinWait1 || b.state
        == ConnState::FinWait2
}

/// Whether `a` sends to `b` and the two are in step: nothing is in flight from `a` to `b`, which
/// expects what `a` sends next. What `b` sends to `a` may stand anywhere.
pub open spec fn in_step(a: ConnView, b: ConnView) -> bool {
    &&& conn_ok(a) && conn_ok(b)
    &&& sends(a) && receives(b)
    &&& a.unacked_segment.is_none()
    &&& a.send_unacked == a.send_next
    &&& b.recv_next == a.send_next
}

/// The sending end after one chunk, if there is one to send, went out and was acknowledged.
#[verifier::opaque]
pub open spec fn chunk_sent(a: ConnView, b: ConnView, now: u64) -> ConnView {
    if can_send(a) {
        let chunk = a.send_buf.take(next_size(a));
        let segment = conn_packet(a, a.send_next, a.recv_next, FLAG_ACK | FLAG_PSH, chunk).payload;
        let sent = ConnView {
            send_next: seq_after(a.send_next, chunk.len() as int),
            ..in_flight(without_next(a), segment, now)
        };
        let ack = ack_packet(chunk_taken(a, b)).payload;
        after_segment(sent, be32(ack, 4), be32(ack, 8), ack[13], carried(ack))
    } else {
        a
    }
}

/// The receiving end after one chunk came in.
#[verifier::opaque]
pub open spec fn chunk_taken(a: ConnView, b: ConnView) -> ConnView {
    if can_send(a) {
        let chunk = a.send_buf.take(next_size(a));
        let segment = conn_packet(a, a.send_next, a.recv_next, FLAG_ACK | FLAG_PSH, chunk).payload;
        after_segment(b, be32(segment, 4), be32(segment, 8), segment[13], carried(segment))
    } else {
        b
    }
}

/// The segment that carries the next chunk is read back as it was built.
proof fn lemma_chunk_segment(a: ConnView)
    ensures
        ({
            let chunk = a.send_buf.take(next_size(a));
            let p = conn_packet(a, a.send_next, a.recv_next, FLAG_ACK | FLAG_PSH, chunk).payload;
            &&& be32(p, 4) == a.send_next
            &&& be32(p, 8) == a.recv_next
            &&& p[13] == FLAG_ACK | FLAG_PSH
            &&& carried(p) == chunk
        }),
{
    let chunk = a.send_buf.take(next_size(a));
    lemma_conn_packet(a, a.send_next, a.recv_next, FLAG_ACK | FLAG_PSH, chunk);
}

/// The next bytes in order, for which there is room, are appended.
proof fn lemma_next_taken(b: ConnView, ack: u32, chunk: Seq<u8>)
    requires
        conn_ok(b),
        receives(b),
        chunk.len() > 0,
        b.recv_buf.len() + chunk.len() <= MAX_RECV_BUF,
    ensures
        ({
            let got = after_segment(b, b.recv_next, ack, FLAG_ACK | FLAG_PSH, chunk);
            &&& conn_ok(got)
            &&& receives(got)
            &&& got.recv_buf == b.recv_buf + chunk
            &&& got.recv_next == seq_after(b.recv_next, chunk.len() as int)
            &&& got.send_next == b.send_next
        }),
        wants_ack(b, b.recv_next, ack, FLAG_ACK | FLAG_PSH, chunk),
{
    lemma_flags();
    assert(chunk.take(chunk.len() as int) =~= chunk);
}

/// The acknowledgement of everything ends the flight.
proof fn lemma_acknowledged(sent: ConnView, seq: u32)
    requires
        conn_ok(sent),
        sends(sent),
        sent.send_unacked != sent.send_next,
    ensures
        ({
            let t = after_segment(sent, seq, sent.send_next, FLAG_ACK, Seq::empty());
            &&& conn_ok(t)
            &&& t.state == sent.state
            &&& t.unacked_segment.is_none()
            &&& t.send_unacked == sent.send_next
            &&& t.send_next == sent.send_next
            &&& t.recv_next == sent.recv_next
            &&& t.send_buf == sent.send_buf
        }),
{
    lemma_flags();
}

/// A chunk of the stream: what one end sends next, the other end appends to what waits for its
/// reader and acknowledges. The ends stay in step.
pub proof fn law_chunk_delivered(a: ConnView, b: ConnView, now: u64)
    requires
        in_step(a, b),
        can_send(a),
        b.recv_buf.len() + next_size(a) <= MAX_RECV_BUF,
    ensures
        in_step(chunk_sent(a, b, now), chunk_taken(a, b)),
        chunk_taken(a, b).recv_buf == b.recv_buf + a.send_buf.take(next_size(a)),
        chunk_sent(a, b, now).send_buf == a.send_buf.skip(next_size(a)),
        chunk_sent(a, b, now).state == a.state,
        ({
            let chunk = a.send_buf.take(next_size(a));
            let p = conn_packet(a, a.send_next, a.recv_next, FLAG_ACK | FLAG_PSH, chunk).payload;
            wants_ack(b, be32(p, 4), be32(p, 8), p[13], carried(p))
        }),
{
    let chunk = a.send_buf.take(next_size(a));
    let segment = conn_packet(a, a.send_next, a.recv_next, FLAG_ACK | FLAG_PSH, chunk).payload;
    let sent = ConnView {
        send_next: seq_after(a.send_next, chunk.len() as int),
        ..in_flight(without_next(a), segment, now)
    };
    lemma_chunk_segment(a);
    lemma_next_taken(b, a.recv_next, chunk);
    let got = chunk_taken(a, b);
    assert(got == after_segment(b, b.recv_next, a.recv_next, FLAG_ACK | FLAG_PSH, chunk)) by {
        reveal(chunk_taken);
    }
    let ack = ack_packet(got).payload;
    assert(be32(ack, 4) == got.send_next && be32(ack, 8) == got.recv_next && ack[13] == FLAG_ACK
        && carried(ack) == Seq::<u8>::empty()) by {
        lemma_conn_packet(got, got.send_next, got.recv_next, FLAG_ACK, Seq::empty());
    }
    assert(seq_after(a.send_next, chunk.len() as int) != a.send_next);
    lemma_acknowledged(sent, got.send_next);
    assert(chunk_sent(a, b, now) == after_segment(
        sent,
        got.send_next,
        got.recv_next,
        FLAG_ACK,
        Seq::empty(),
    )) by {
        reveal(chunk_sent);
    }
}

/// An end with nothing to send leaves both as they are.
proof fn lemma_nothing_to_send(a: ConnView, b: ConnView, now: u64)
    requires
        !can_send(a),
    ensures
        chunk_sent(a, b, now) == a,
        chunk_taken(a, b) == b,
{
    reveal(chunk_sent);
    reveal(chunk_taken);
}

/// Both ends after `n` chunks.
pub open spec fn after_chunks(a: ConnView, b: ConnView, now: u64, n: nat) -> (ConnView, ConnView)
    decreases n,
{
    if n == 0 {
        (a, b)
    } else {
        let before = after_chunks(a, b, now, (n - 1) as nat);
        (chunk_sent(before.0, before.1, now), chunk_taken(before.0, before.1))
    }
}

/// How many of `len` bytes are through after `n` chunks.
pub open spec fn through(len: nat, n: nat) -> int {
    if n * MSS <= len {
        (n * MSS) as int
    } else {
        len as int
    }
}

proof fn lemma_through(len: nat, n: nat)
    requires
        n > 0,
    ensures
        0 <= through(len, (n - 1) as nat) <= through(len, n) <= len,
        ({
            let left = len - through(len, (n - 1) as nat);
            through(len, n) == through(len, (n - 1) as nat) + if left <= MSS {
                left
            } else {
                MSS as int
            }
        }),
{
    assert(n * MSS == (n - 1) * MSS + MSS) by (nonlinear_arith);
    assert((n - 1) * MSS >= 0) by (nonlinear_arith)
        requires
            n > 0,
    ;
}

proof fn lemma_pieces(s: Seq<u8>, j: int, size: int)
    requires
        0 <= j,
        0 <= size,
        j + size <= s.len(),
    ensures
        s.take(j) + s.skip(j).take(size) == s.take(j + size),
        s.skip(j).skip(size) == s.skip(j + size),
{
    assert(s.take(j) + s.skip(j).take(size) =~= s.take(j + size));
    assert(s.skip(j).skip(size) =~= s.skip(j + size));
}

/// The stream: after enough chunks everything that was written at one end waits at the other, in
/// order and each byte once; on the way there, what has not arrived is still to be sent. It holds
/// also of an end that has closed and of the peer that sends to it still.
pub proof fn law_stream_delivered(a: ConnView, b: ConnView, now: u64, n: nat)
    requires
        in_step(a, b),
        b.recv_buf.len() + a.send_buf.len() <= MAX_RECV_BUF,
    ensures
        ({
            let t = after_chunks(a, b, now, n);
            let k = through(a.send_buf.len(), n);
            &&& in_step(t.0, t.1)
            &&& t.0.state == a.state
            &&& t.1.recv_buf == b.recv_buf + a.send_buf.take(k)
            &&& t.0.send_buf == a.send_buf.skip(k)
            &&& n * MSS >= a.send_buf.len() ==> t.1.recv_buf == b.recv_buf + a.send_buf
        }),
    decreases n,
{
    let len = a.send_buf.len();
    let k = through(len, n);
    if n == 0 {
        assert(k == 0);
        assert(b.recv_buf + a.send_buf.take(0) =~= b.recv_buf);
        assert(a.send_buf.skip(0) =~= a.send_buf);
    } else {
        law_stream_delivered(a, b, now, (n - 1) as nat);
        let p = after_chunks(a, b, now, (n - 1) as nat);
        let j = through(len, (n - 1) as nat);
        lemma_through(len, n);
        assert(p.0.send_buf.len() == len - j);
        if j < len {
            assert(can_send(p.0));
            let size = next_size(p.0);
            assert(k == j + size);
            law_chunk_delivered(p.0, p.1, now);
            lemma_pieces(a.send_buf, j, size);
            assert((b.recv_buf + a.send_buf.take(j)) + a.send_buf.skip(j).take(size) =~= b.recv_buf
                + a.send_buf.take(k));
        } else {
            lemma_nothing_to_send(p.0, p.1, now);
        }
    }
    if n * MSS >= len {
        assert(a.send_buf.take(k) =~= a.send_buf);
    }
}

/// Bytes that are not the next in order change neither what waits for the reader nor what is
/// expected next, and are answered with what is expected: a repeated segment is not read twice.
pub proof fn law_out_of_order_ignored(c: ConnView, seq: u32, ack: u32, flags: u8, data: Seq<u8>)
    requires
        conn_ok(c),
        data.len() > 0,
        seq != c.recv_next,
        flags & FLAG_FIN == 0,
    ensures
        after_segment(c, seq, ack, flags, data).recv_buf == c.recv_buf,
        after_segment(c, seq, ack, flags, data).recv_next == c.recv_next,
        wants_ack(c, seq, ack, flags, data),
{
}

/// A segment that could not be sent leaves the stream as it was.
pub proof fn law_failed_send_keeps_bytes(s: TcpView, fd: u64, segment: Seq<u8>, now: u64)
    requires
        is_conn(s, fd),
        can_send(conn(s, fd)),
    ensures
        ({
            let c = conn(s, fd);
            send_done(
                with_conn(s, fd, without_next(c)),
                fd,
                c.send_next,
                c.send_buf.take(next_size(c)),
                segment,
                false,
                now,
            ) == s
        }),
{
    let c = conn(s, fd);
    let t = with_conn(s, fd, without_next(c));
    let chunk = c.send_buf.take(next_size(c));
    assert(chunk + c.send_buf.skip(next_size(c)) =~= c.send_buf);
    let u = send_done(t, fd, c.send_next, chunk, segment, false, now);
    assert(u.sockets =~= s.sockets);
}

/// Seeing to one connection leaves every other one overdue or not as it was, so that a round comes
/// to each overdue connection once: the next one has a higher number.
pub proof fn law_round_moves_on(s: TcpView, after: Option<u64>, began: u64, now: u64, fd: u64, g: u64)
    requires
        is_next_due(s, after, began, fd),
        g != fd,
    ensures
        overdue(retried(s, fd, now), g, began) == overdue(s, g, began),
        is_next_due(retried(s, fd, now), Some(fd), began, g) ==> g > fd,
        beyond(after, g) && overdue(s, g, began) ==> beyond(Some(fd), g),
{
}

/// The state after tries at these times.
pub open spec fn retried_at(s: TcpView, fd: u64, times: Seq<u64>) -> TcpView
    decreases times.len(),
{
    if times.len() == 0 {
        s
    } else {
        retried(retried_at(s, fd, times.drop_last()), fd, times.last())
    }
}

/// A segment that is never acknowledged is sent again, unchanged, up to the limit; the try after
/// that forgets the connection.
pub proof fn law_retries_end(s: TcpView, fd: u64, times: Seq<u64>)
    requires
        is_conn(s, fd),
        conn(s, fd).retransmit_count == 0,
        times.len() <= MAX_RETRANSMITS + 1,
    ensures
        times.len() <= MAX_RETRANSMITS ==> {
            let t = retried_at(s, fd, times);
            &&& is_conn(t, fd)
            &&& conn(t, fd).unacked_segment == conn(s, fd).unacked_segment
            &&& conn(t, fd).remote_ip == conn(s, fd).remote_ip
            &&& conn(t, fd).retransmit_count == times.len()
            &&& times.len() < MAX_RETRANSMITS ==> retry_packet(t, fd) == retry_packet(s, fd)
            &&& key_of(conn(t, fd)) == key_of(conn(s, fd))
        },
        times.len() == MAX_RETRANSMITS + 1 ==> {
            let t = retried_at(s, fd, times);
            &&& !t.sockets.contains_key(fd)
            &&& !t.connections.contains_key(key_of(conn(s, fd)))
        },
    decreases times.len(),
{
    if times.len() > 0 {
        law_retries_end(s, fd, times.drop_last());
    }
}

/// A reset forgets the connection, and whatever the peer sends on it afterwards, short of asking
/// anew or a reset, is refused.
pub proof fn law_reset_forgets(
    s: TcpView,
    fd: u64,
    seq: u32,
    ack: u32,
    flags: u8,
    data: Seq<u8>,
    later: Seq<u8>,
    fresh: u64,
    ticks: u64,
)
    requires
        tcp_ok(s),
        is_conn(s, fd),
        flags & FLAG_RST != 0,
        readable(later),
        be16(later, 2) == conn(s, fd).local_port,
        be16(later, 0) == conn(s, fd).remote_port,
        later[13] & FLAG_ACK != 0,
        later[13] & FLAG_RST == 0,
    ensures
        ({
            let t = segment_state(s, fd, seq, ack, flags, data);
            let c = conn(s, fd);
            &&& !t.sockets.contains_key(fd)
            &&& reaction_to(t, later, c.remote_ip, fresh, ticks).packet == Some(
                reset_packet(c.local_port, c.remote_ip, c.remote_port, be32(later, 4)),
            )
        }),
{
}

/// The orderly end, seen from the side that closes first: closing waits for the acknowledgement
/// of the FIN, then for the peer's own FIN, which is acknowledged.
pub proof fn law_active_close(s: TcpView, fd: u64, ack_seq: u32, fin_seq: u32)
    requires
        is_conn(s, fd),
        conn_ok(conn(s, fd)),
        conn(s, fd).state == ConnState::Established,
        fin_seq == conn(s, fd).recv_next,
        conn(s, fd).send_unacked != seq_after(conn(s, fd).send_next, 1),
    ensures
        ({
            let c = conn(closed(s, fd), fd);
            let waiting = ConnView { send_next: seq_after(c.send_next, 1), ..c };
            let acked = after_segment(waiting, ack_seq, waiting.send_next, FLAG_ACK, Seq::empty());
            let ended = after_segment(
                acked,
                fin_seq,
                waiting.send_next,
                FLAG_FIN | FLAG_ACK,
                Seq::empty(),
            );
            &&& c.state == ConnState::FinWait1
            &&& acked.state == ConnState::FinWait2
            &&& ended.state == ConnState::Closed
            &&& ended.recv_next == seq_after(fin_seq, 1)
            &&& wants_ack(
                acked,
                fin_seq,
                waiting.send_next,
                FLAG_FIN | FLAG_ACK,
                Seq::empty(),
            )
        }),
{
    lemma_flags();
    assert(seq_after(fin_seq, 0) == fin_seq);
}

/// The orderly end, seen from the side that closes second: the peer's FIN leaves this side free
/// to send, its own close waits for one acknowledgement, and that forgets the connection.
pub proof fn law_passive_close(s: TcpView, fd: u64, seq: u32, ack: u32)
    requires
        is_conn(s, fd),
        conn_ok(conn(s, fd)),
        conn(s, fd).state == ConnState::Established,
        seq == conn(s, fd).recv_next,
    ensures
        ({
            let t = segment_state(s, fd, seq, ack, FLAG_FIN | FLAG_ACK, Seq::empty());
            let u = closed(t, fd);
            let v = segment_state(u, fd, seq, ack, FLAG_ACK, Seq::empty());
            &&& conn(t, fd).state == ConnState::CloseWait
            &&& conn(u, fd).state == ConnState::LastAck
            &&& v == torn_down(u, fd)
            &&& !v.sockets.contains_key(fd)
        }),
{
    lemma_flags();
    assert(seq_after(seq, 0) == seq);
}

/// The window that is offered is what the buffer can still take, as far as sixteen bits say it.
pub proof fn law_window_keeps_bound(waiting: nat)
    requires
        waiting <= MAX_RECV_BUF,
    ensures
        waiting + window_of(waiting) <= MAX_RECV_BUF,
        waiting > 0 ==> waiting + window_of(waiting) == MAX_RECV_BUF,
{
}

} // verus!

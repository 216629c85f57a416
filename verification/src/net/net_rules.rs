//! What the layers do with what comes in and what goes out, byte by byte.

use vstd::prelude::*;

use crate::bytes::{be16, lemma_be16};
use crate::errno::{negated, EADDRINUSE, EBADF, EDESTADDRREQ, EINVAL, ENOTSOCK};
use crate::net::arp::{
    answer_of, first_free, first_holding, heard, holds, learned, request_of, NeighbourView,
};
use crate::net::ethernet::{answer_to, carried, frame_of, Ethertype};
use crate::net::icmp::EchoView;
use crate::net::ipv4::{acceptable, hop_of};
use crate::net::nic::MacAddr;
use crate::net::poll::{count_of, counts, expired, is_ready, reported, timeout_of, PollFd};
use crate::net::ports::{
    ephemeral, first_unused, law_port_is_free, next_after, port_after, port_for,
};
use crate::net::queue::{cut, queued, DatagramView};
use crate::net::select::{
    except_ready, in_set, read_ready, reports, select_timeout_of, sets_right, signal_pending,
    wanted, write_ready, FdSet, SelectRequest,
};
use crate::net::sockaddr::SockAddr;
use crate::net::socket::{
    bind_answer, bind_state, kind_of, opened, recvfrom_error, recvfrom_outcome, sendto_error,
    sendto_packet, Received, SocketKind,
};
use crate::net::stack::NetView;
use crate::net::tcp::{ReactionView, SocketView};
use crate::net::udp::{closed, datagram_of, send_bound, send_port, udp_ok, UdpSocketView, UdpView};
use crate::process::{has_sig, KernelView};

verus! {

// ---------------------------------------------------------------------------------------------
// Frames and packets
// ---------------------------------------------------------------------------------------------
/// Which packets are for this machine: version 4 without options, sent to 10.0.2.15, with a length
/// that covers the header and is there.
pub proof fn law_for_us(p: Seq<u8>)
    ensures
        acceptable(p) <==> {
            &&& p.len() >= 20
            &&& p[0] == 0x45
            &&& p[16] == 10 && p[17] == 0 && p[18] == 2 && p[19] == 15
            &&& 20 <= p[2] * 256 + p[3] <= p.len()
        },
{
    if p.len() >= 20 {
        let d = p.subrange(16, 20);
        assert(d[0] == p[16] && d[1] == p[17] && d[2] == p[18] && d[3] == p[19]);
        let g = crate::net::ipv4::GUEST_IP@;
        assert(g[0] == 10 && g[1] == 0 && g[2] == 2 && g[3] == 15);
        if p[16] == 10 && p[17] == 0 && p[18] == 2 && p[19] == 15 {
            assert(d =~= g);
        }
    }
}

/// Where a packet goes first: to its destination where that is of 10.0.2, to 10.0.2.2 otherwise.
pub proof fn law_first_hop(dest: Seq<u8>)
    requires
        dest.len() == 4,
    ensures
        dest[0] == 10 && dest[1] == 0 && dest[2] == 2 ==> hop_of(dest) == dest,
        !(dest[0] == 10 && dest[1] == 0 && dest[2] == 2) ==> hop_of(dest) == seq![10u8, 0, 2, 2],
{
    let a = dest.take(3);
    let g = crate::net::ipv4::GUEST_IP@;
    let b = g.take(3);
    assert(g[0] == 10 && g[1] == 0 && g[2] == 2);
    assert(b[0] == 10 && b[1] == 0 && b[2] == 2);
    assert(a[0] == dest[0] && a[1] == dest[1] && a[2] == dest[2]);
    if dest[0] == 10 && dest[1] == 0 && dest[2] == 2 {
        assert(a =~= b);
    }
    assert(crate::net::ipv4::GATEWAY_IP@ =~= seq![10u8, 0, 2, 2]);
}

/// What a packet leads to: nothing where it is not for this machine; otherwise what it carries, as
/// far as its length goes, reaches the protocol that it names, and no other.
pub proof fn law_dispatched(n: NetView, p: Seq<u8>, fresh: u64, ticks: u64)
    ensures
        ({
            let t = crate::net::ipv4::delivered(n, p, fresh, ticks);
            let r = crate::net::ipv4::reaction_to(n, p, fresh, ticks);
            let len = p[2] * 256 + p[3];
            let src = p.subrange(12, 16);
            let none = ReactionView { packet: None, track: None, resume: None };
            &&& !acceptable(p) ==> t == n && r == none
            &&& acceptable(p) && p[9] == 17 ==> t == (NetView {
                udp: crate::net::udp::received(n.udp, p.subrange(20, len), src),
                ..n
            }) && r == none
            &&& acceptable(p) && p[9] == 6 ==> t == (NetView {
                tcp: crate::net::tcp::received(n.tcp, p.subrange(20, len), src, fresh, ticks),
                ..n
            }) && r == crate::net::tcp::reaction_to(n.tcp, p.subrange(20, len), src, fresh, ticks)
            &&& acceptable(p) && p[9] == 1 ==> t == (NetView {
                echo: crate::net::icmp::received(n.echo, p.subrange(0, len), src),
                ..n
            }) && r == crate::net::icmp::reaction_to(p.subrange(0, len), src)
            &&& p[9] != 1 && p[9] != 6 && p[9] != 17 ==> t == n && r == none
        }),
{
    if acceptable(p) {
        let len = p[2] * 256 + p[3];
        assert(be16(p, 2) == len);
        assert(p.take(len) =~= p.subrange(0, len));
    }
}

/// What a frame leads to: what it carries behind its fourteen bytes reaches ARP or IPv4, by its
/// type; any other frame is passed over.
pub proof fn law_frame_dispatched(n: NetView, our: Option<MacAddr>, f: Seq<u8>, fresh: u64, ticks: u64)
    ensures
        ({
            let t = crate::net::ethernet::delivered(n, f, fresh, ticks);
            let r = crate::net::ethernet::reaction_to(n, f, fresh, ticks);
            let a = answer_to(our, f);
            let body = f.subrange(14, f.len() as int);
            let kind = f[12] * 256 + f[13];
            let none = ReactionView { packet: None, track: None, resume: None };
            &&& f.len() >= 14 && kind == 0x0806 ==> t == (NetView {
                arp: heard(n.arp, body),
                ..n
            }) && r == none && a == answer_of(our, body)
            &&& f.len() >= 14 && kind == 0x0800 ==> t == crate::net::ipv4::delivered(
                n,
                body,
                fresh,
                ticks,
            ) && r == crate::net::ipv4::reaction_to(n, body, fresh, ticks) && a.is_none()
            &&& f.len() < 14 || (kind != 0x0806 && kind != 0x0800) ==> t == n && r == none
                && a.is_none()
        }),
{
}

/// Which protocol a frame carries, by the number at its end of fourteen bytes.
pub proof fn law_frame_kind(f: Seq<u8>)
    ensures
        carried(f) == Some(Ethertype::Arp) <==> f.len() >= 14 && f[12] == 8 && f[13] == 6,
        carried(f) == Some(Ethertype::Ipv4) <==> f.len() >= 14 && f[12] == 8 && f[13] == 0,
{
}

/// How a frame is laid out.
pub proof fn law_frame_layout(dest: Seq<u8>, src: Seq<u8>, kind: u16, body: Seq<u8>)
    requires
        dest.len() == 6,
        src.len() == 6,
    ensures
        ({
            let f = frame_of(dest, src, kind, body);
            &&& f.len() == 14 + body.len()
            &&& f.subrange(0, 6) == dest
            &&& f.subrange(6, 12) == src
            &&& f[12] * 256 + f[13] == kind
            &&& f.subrange(14, f.len() as int) == body
        }),
{
    let f = frame_of(dest, src, kind, body);
    assert(f.subrange(0, 6) =~= dest);
    assert(f.subrange(6, 12) =~= src);
    assert(f.subrange(14, f.len() as int) =~= body);
}

// ---------------------------------------------------------------------------------------------
// ARP
// ---------------------------------------------------------------------------------------------
/// What is learned of a packet that came in: its sender, from every one for Ethernet and IPv4,
/// request or reply, asked for or not; nothing from any other.
pub proof fn law_heard(t: Seq<Option<NeighbourView>>, p: Seq<u8>)
    ensures
        ({
            let fits = p.len() >= 28 && p[0] * 256 + p[1] == 1 && p[2] * 256 + p[3] == 0x0800;
            &&& fits ==> heard(t, p) == learned(t, p.subrange(14, 18), p.subrange(8, 14))
            &&& !fits ==> heard(t, p) == t
        }),
{
}

/// Which packets are answered, and how: a request for 10.0.2.15, to its sender alone, with this
/// machine's hardware address.
pub proof fn law_arp_answered(mac: MacAddr, p: Seq<u8>)
    ensures
        ({
            let a = answer_of(Some(mac), p);
            let asks = p.len() >= 28 && p[0] * 256 + p[1] == 1 && p[2] * 256 + p[3] == 0x0800 && p[6]
                * 256 + p[7] == 1 && p.subrange(24, 28) == seq![10u8, 0, 2, 15];
            &&& a.is_some() <==> asks
            &&& a matches Some(f) ==> {
                &&& f.len() == 42
                &&& f.subrange(0, 6) == p.subrange(8, 14)
                &&& f.subrange(6, 12) == mac@
                &&& f[12] * 256 + f[13] == 0x0806
                &&& f[20] * 256 + f[21] == 2
                &&& f.subrange(22, 28) == mac@
                &&& f.subrange(28, 32) == seq![10u8, 0, 2, 15]
                &&& f.subrange(32, 38) == p.subrange(8, 14)
                &&& f.subrange(38, 42) == p.subrange(14, 18)
            }
        }),
        answer_of(None, p).is_none(),
{
    let g = crate::net::ipv4::GUEST_IP@;
    assert(g =~= seq![10u8, 0, 2, 15]);
    if let Some(f) = answer_of(Some(mac), p) {
        assert(f.subrange(0, 6) =~= p.subrange(8, 14));
        assert(f.subrange(6, 12) =~= mac@);
        assert(f.subrange(22, 28) =~= mac@);
        assert(f.subrange(28, 32) =~= seq![10u8, 0, 2, 15]);
        assert(f.subrange(32, 38) =~= p.subrange(8, 14));
        assert(f.subrange(38, 42) =~= p.subrange(14, 18));
    }
}

/// What a request looks like: it goes to everybody, gives this machine's addresses and asks for
/// the one wanted.
pub proof fn law_arp_request(mac: MacAddr, ip: Seq<u8>)
    requires
        ip.len() == 4,
    ensures
        request_of(None, ip).is_none(),
        request_of(Some(mac), ip) matches Some(f) && {
            &&& f.len() == 42
            &&& f.subrange(0, 6) == seq![255u8, 255, 255, 255, 255, 255]
            &&& f.subrange(6, 12) == mac@
            &&& f[12] * 256 + f[13] == 0x0806
            &&& f[14] * 256 + f[15] == 1 && f[16] * 256 + f[17] == 0x0800 && f[18] == 6 && f[19]
                == 4
            &&& f[20] * 256 + f[21] == 1
            &&& f.subrange(22, 28) == mac@
            &&& f.subrange(28, 32) == seq![10u8, 0, 2, 15]
            &&& f.subrange(32, 38) == seq![0u8, 0, 0, 0, 0, 0]
            &&& f.subrange(38, 42) == ip
        },
{
    let f = request_of(Some(mac), ip)->Some_0;
    assert(f.subrange(0, 6) =~= seq![255u8, 255, 255, 255, 255, 255]);
    assert(f.subrange(6, 12) =~= mac@);
    assert(f.subrange(22, 28) =~= mac@);
    assert(f.subrange(28, 32) =~= seq![10u8, 0, 2, 15]);
    assert(f.subrange(32, 38) =~= seq![0u8, 0, 0, 0, 0, 0]);
    assert(f.subrange(38, 42) =~= ip);
}

// ---------------------------------------------------------------------------------------------
// Echo
// ---------------------------------------------------------------------------------------------
/// What an echo packet leads to: a request of at least eight bytes behind the header is answered,
/// nothing else is; the answer carries back all that the request carried.
pub proof fn law_echoed(p: Seq<u8>, src: Seq<u8>)
    ensures
        ({
            let r = crate::net::icmp::reaction_to(p, src);
            let asks = p.len() >= 28 && p[20] == 8;
            &&& r.track.is_none() && r.resume.is_none()
            &&& r.packet.is_some() <==> asks
            &&& r.packet matches Some(a) ==> {
                &&& a.dest == src
                &&& a.protocol == 1
                &&& a.payload.len() == p.len() - 20
                &&& a.payload[0] == 0 && a.payload[1] == 0
                &&& forall|i: int| 4 <= i < a.payload.len() ==> #[trigger] a.payload[i] == p[20 + i]
            }
        }),
{
    if p.len() >= 28 && p[20] == 8 {
        let m = crate::net::icmp::message(p);
        lemma_be16(be16(m, 4));
        lemma_be16(be16(m, 6));
        assert(m[4] == p[24] && m[5] == p[25] && m[6] == p[26] && m[7] == p[27]);
        let a = crate::net::icmp::reaction_to(p, src).packet->Some_0;
        assert forall|i: int| 4 <= i < a.payload.len() implies #[trigger] a.payload[i] == p[20
            + i] by {
            if i >= 8 {
                assert(m[i] == p[20 + i]);
            }
        }
    }
}

/// What a packet leaves behind: every raw socket gets it whole, header and all, and an echo reply
/// is noted.
pub proof fn law_echo_kept(s: EchoView, p: Seq<u8>, src: Seq<u8>, fd: u64)
    ensures
        ({
            let t = crate::net::icmp::received(s, p, src);
            &&& p.len() < 20 ==> t == s
            &&& p.len() >= 20 ==> {
                &&& t.sockets.dom() == s.sockets.dom()
                &&& s.sockets.contains_key(fd) ==> t.sockets[fd] == queued(
                    s.sockets[fd],
                    DatagramView { ip: src, port: 0, data: p },
                )
                &&& p.len() >= 28 && p[20] == 0 ==> (t.last_echo_reply matches Some(r) && r.from
                    == src && r.identifier == p[24] * 256 + p[25] && r.sequence == p[26] * 256
                    + p[27])
                &&& !(p.len() >= 28 && p[20] == 0) ==> t.last_echo_reply == s.last_echo_reply
            }
        }),
{
    let t = crate::net::icmp::received(s, p, src);
    if p.len() >= 20 {
        assert(t.sockets.dom() =~= s.sockets.dom());
        if p.len() >= 28 {
            let m = crate::net::icmp::message(p);
            assert(m[4] == p[24] && m[5] == p[25] && m[6] == p[26] && m[7] == p[27]);
        }
    }
}

// ---------------------------------------------------------------------------------------------
// Datagrams
// ---------------------------------------------------------------------------------------------
/// What waits at a socket after one more arrival: the newest 32 in order.
pub proof fn law_queued(q: Seq<DatagramView>, d: DatagramView)
    ensures
        q.len() < 32 ==> queued(q, d) == q.push(d),
        q.len() >= 32 ==> queued(q, d) == q.skip(1).push(d),
{
    if q.len() >= 32 {
        assert(q.drop_first() =~= q.skip(1));
    }
}

/// Which socket a datagram reaches, and as what: the one that has its destination port, with its
/// sender and the bytes behind its header, as far as its own length goes. A datagram with a length
/// that does not fit, or for a port that nobody has, is lost.
pub proof fn law_datagram(s: UdpView, p: Seq<u8>, src: Seq<u8>)
    ensures
        ({
            let t = crate::net::udp::received(s, p, src);
            let len = p[4] * 256 + p[5];
            let port = (p[2] * 256 + p[3]) as u64;
            let fits = p.len() >= 8 && 8 <= len <= p.len();
            let fd = s.ports[port];
            let there = s.ports.contains_key(port) && s.sockets.contains_key(fd);
            &&& !(fits && there) ==> t == s
            &&& fits && there ==> {
                let d = DatagramView {
                    ip: src,
                    port: (p[0] * 256 + p[1]) as u16,
                    data: p.subrange(8, len),
                };
                &&& t.sockets[fd].queue == queued(s.sockets[fd].queue, d)
                &&& t.sockets[fd].local_port == s.sockets[fd].local_port
                &&& t.ports == s.ports && t.next_ephemeral == s.next_ephemeral
                &&& t.sockets.dom() == s.sockets.dom()
                &&& forall|g: u64| g != fd && s.sockets.contains_key(g) ==> #[trigger] t.sockets[g]
                    == s.sockets[g]
            }
        }),
{
    let t = crate::net::udp::received(s, p, src);
    if t != s {
        assert(t.sockets.dom() =~= s.sockets.dom());
    }
}

/// How a datagram is laid out.
pub proof fn law_datagram_layout(from: u16, to: u16, data: Seq<u8>)
    ensures
        ({
            let d = datagram_of(from, to, data);
            &&& d.len() == 8 + data.len()
            &&& d[0] * 256 + d[1] == from
            &&& d[2] * 256 + d[3] == to
            &&& d[4] * 256 + d[5] == (8 + data.len()) % 65536
            &&& d[6] == 0 && d[7] == 0
            &&& d.subrange(8, d.len() as int) == data
        }),
{
    let d = datagram_of(from, to, data);
    assert(d.subrange(8, d.len() as int) =~= data);
}

/// Binding: a port that somebody has is refused; any other is the socket's from then on; for zero
/// it is one of those from 49152 on that nobody has, and none where all are taken.
pub proof fn law_datagram_bind(s: UdpView, fd: u64, port: u16)
    requires
        udp_ok(s),
        s.sockets.contains_key(fd),
    ensures
        ({
            let r = crate::net::udp::bind_answer(s, fd, port);
            let t = crate::net::udp::bind_state(s, fd, port);
            &&& r == 0 || r == negated(EADDRINUSE)
            &&& r != 0 ==> t == s
            &&& port != 0 ==> (r == 0 <==> !s.ports.contains_key(port as u64))
            &&& port == 0 ==> (r != 0 <==> forall|p: u16|
                p >= 49152 ==> #[trigger] s.ports.contains_key(p as u64))
            &&& r == 0 ==> {
                &&& t.sockets[fd].local_port matches Some(p) && !s.ports.contains_key(p as u64)
                    && t.ports == s.ports.insert(p as u64, fd) && (port != 0 ==> p == port) && (port
                    == 0 ==> p >= 49152)
                &&& t.sockets[fd].queue == s.sockets[fd].queue
                &&& forall|g: u64| g != fd && s.sockets.contains_key(g) ==> #[trigger] t.sockets[g]
                    == s.sockets[g]
            }
        }),
{
    law_port_is_free(s.ports, s.next_ephemeral);
    if port == 0 && crate::net::udp::bind_answer(s, fd, port) != 0 {
        assert forall|p: u16| p >= 49152 implies #[trigger] s.ports.contains_key(p as u64) by {
            assert(ephemeral(p));
        }
    }
}

/// Sending: a socket sends from its own port; one that has none gets one that nobody has, and
/// keeps it.
pub proof fn law_sends_from(s: UdpView, fd: u64)
    requires
        udp_ok(s),
        s.sockets.contains_key(fd),
    ensures
        s.sockets[fd].local_port.is_some() ==> send_port(s, fd) == s.sockets[fd].local_port
            && send_bound(s, fd) == s,
        s.sockets[fd].local_port.is_none() ==> match send_port(s, fd) {
            Some(p) => {
                let t = send_bound(s, fd);
                &&& p >= 49152 && !s.ports.contains_key(p as u64)
                &&& t.sockets[fd].local_port == Some(p)
                &&& t.ports == s.ports.insert(p as u64, fd)
                &&& t.sockets[fd].queue == s.sockets[fd].queue
                &&& forall|g: u64| g != fd && s.sockets.contains_key(g) ==> #[trigger] t.sockets[g]
                    == s.sockets[g]
            },
            None => send_bound(s, fd) == s && forall|p: u16|
                p >= 49152 ==> #[trigger] s.ports.contains_key(p as u64),
        },
{
    law_port_is_free(s.ports, s.next_ephemeral);
    if send_port(s, fd).is_none() {
        assert forall|p: u16| p >= 49152 implies #[trigger] s.ports.contains_key(p as u64) by {
            assert(ephemeral(p));
        }
    }
}

/// Closing a socket frees its port and leaves the others.
pub proof fn law_datagram_close(s: UdpView, fd: u64)
    requires
        s.sockets.contains_key(fd),
    ensures
        ({
            let t = closed(s, fd);
            &&& !t.sockets.contains_key(fd)
            &&& s.sockets[fd].local_port matches Some(p) ==> !t.ports.contains_key(p as u64)
            &&& forall|g: u64| g != fd ==> (#[trigger] t.sockets.contains_key(g)
                == s.sockets.contains_key(g)) && (s.sockets.contains_key(g) ==> t.sockets[g]
                == s.sockets[g])
            &&& forall|p: u64|
                s.sockets[fd].local_port.is_none() || p != s.sockets[fd].local_port->Some_0 ==> (
                #[trigger] t.ports.contains_key(p) == s.ports.contains_key(p)) && (
                s.ports.contains_key(p) ==> t.ports[p] == s.ports[p])
        }),
{
}

// ---------------------------------------------------------------------------------------------
// Socket calls
// ---------------------------------------------------------------------------------------------
/// Which sockets there are: of family 2, streams are of type 1, datagrams of type 2, and raw ones
/// of type 3 for protocol 1 alone.
pub proof fn law_kinds(domain: u64, ty: u64, protocol: u64)
    ensures
        kind_of(domain, ty, protocol) == Some(SocketKind::Stream) <==> domain == 2 && ty == 1,
        kind_of(domain, ty, protocol) == Some(SocketKind::Datagram) <==> domain == 2 && ty == 2,
        kind_of(domain, ty, protocol) == Some(SocketKind::Raw) <==> domain == 2 && ty == 3
            && protocol == 1,
{
}

/// A new socket is of its kind alone, with nothing waiting and no port.
pub proof fn law_opened(n: NetView, fd: u64)
    ensures
        ({
            let a = opened(n, SocketKind::Datagram, fd);
            &&& a.udp.sockets == n.udp.sockets.insert(
                fd,
                UdpSocketView { local_port: None, queue: Seq::empty() },
            )
            &&& a.udp.ports == n.udp.ports && a.tcp == n.tcp && a.echo == n.echo && a.arp == n.arp
        }),
        ({
            let b = opened(n, SocketKind::Stream, fd);
            &&& b.tcp.sockets == n.tcp.sockets.insert(fd, SocketView::Unbound { local_port: None })
            &&& b.tcp.listeners == n.tcp.listeners && b.tcp.connections == n.tcp.connections
            &&& b.udp == n.udp && b.echo == n.echo && b.arp == n.arp
        }),
        ({
            let c = opened(n, SocketKind::Raw, fd);
            &&& c.echo.sockets == n.echo.sockets.insert(fd, Seq::empty())
            &&& c.echo.last_echo_reply == n.echo.last_echo_reply
            &&& c.udp == n.udp && c.tcp == n.tcp && c.arp == n.arp
        }),
{
}

/// Which socket a binding is about, and what is refused.
pub proof fn law_bind_call(n: NetView, fd: Option<u64>, addr: Option<SockAddr>)
    ensures
        ({
            let r = bind_answer(n, fd, addr);
            let t = bind_state(n, fd, addr);
            &&& fd.is_none() ==> r == negated(EBADF) && t == n
            &&& fd matches Some(f) ==> {
                &&& n.udp.sockets.contains_key(f) && addr.is_none() ==> r == negated(EINVAL) && t
                    == n
                &&& n.udp.sockets.contains_key(f) && addr.is_some() ==> r
                    == crate::net::udp::bind_answer(n.udp, f, addr->Some_0.port) && t == (NetView {
                    udp: crate::net::udp::bind_state(n.udp, f, addr->Some_0.port),
                    ..n
                })
                &&& !n.udp.sockets.contains_key(f) && n.tcp.sockets.contains_key(f) ==> Some(r)
                    == crate::net::tcp::bind_answer(n.tcp, f, addr) && t.tcp
                    == crate::net::tcp::bind_state(n.tcp, f, addr) && t.udp == n.udp && t.echo
                    == n.echo
                &&& !n.udp.sockets.contains_key(f) && !n.tcp.sockets.contains_key(f)
                    && !n.echo.sockets.contains_key(f) ==> r == negated(ENOTSOCK)
                &&& !n.udp.sockets.contains_key(f) && !n.tcp.sockets.contains_key(f)
                    && n.echo.sockets.contains_key(f) ==> r == (if addr.is_some() {
                    0
                } else {
                    negated(EINVAL)
                })
            }
        }),
{
}

/// What a datagram that is sent becomes, and what is refused.
pub proof fn law_sendto(n: NetView, fd: Option<u64>, given: bool, addr: Option<SockAddr>, data: Seq<u8>)
    ensures
        ({
            let e = sendto_error(n, fd, given, addr);
            &&& fd.is_none() ==> e == Some(EBADF)
            &&& fd.is_some() && addr.is_none() ==> e == Some(EDESTADDRREQ)
            &&& fd.is_some() && addr.is_some() && !given ==> e == Some(EINVAL)
            &&& fd matches Some(f) ==> (addr matches Some(a) ==> (given ==> {
                let p = sendto_packet(n, f, data, a);
                &&& p.dest == a.ip@
                &&& n.udp.sockets.contains_key(f) ==> e == (match send_port(n.udp, f) {
                    Some(_) => None,
                    None => Some(EADDRINUSE),
                })
                &&& n.udp.sockets.contains_key(f) && e.is_none() ==> p.protocol == 17 && p.payload
                    == datagram_of(send_port(n.udp, f)->Some_0, a.port, data)
                &&& !n.udp.sockets.contains_key(f) && n.echo.sockets.contains_key(f) ==> e.is_none()
                    && p.protocol == 1 && p.payload == data
                &&& !n.udp.sockets.contains_key(f) && !n.echo.sockets.contains_key(f) ==> e == Some(
                    ENOTSOCK,
                )
            }))
        }),
{
}

/// What a reader gets: the oldest datagram that waits, cut to the room there is, with its sender's
/// address; it is gone then, whatever did not fit of it too. Nothing where nothing waits.
pub proof fn law_recvfrom(n: NetView, after: NetView, fd: u64, room: u64, r: Option<Received>)
    requires
        n.udp.sockets.contains_key(fd),
        recvfrom_outcome(n, after, fd, room, r),
    ensures
        ({
            let q = n.udp.sockets[fd].queue;
            &&& r.is_some() <==> q.len() > 0
            &&& r.is_none() ==> after == n
            &&& r matches Some(d) ==> {
                &&& d.data@ == q[0].data.take(
                    if q[0].data.len() <= room {
                        q[0].data.len() as int
                    } else {
                        room as int
                    },
                )
                &&& d.addr@.subrange(4, 8) == q[0].ip || q[0].ip.len() != 4
                &&& be16(d.addr@, 2) == q[0].port
                &&& after.udp.sockets[fd].queue == q.skip(1)
                &&& after.udp.sockets[fd].local_port == n.udp.sockets[fd].local_port
                &&& after.udp.ports == n.udp.ports && after.tcp == n.tcp && after.echo == n.echo
            }
        }),
        recvfrom_error(n, Some(fd)).is_none(),
        recvfrom_error(n, None) == Some(EBADF),
{
    let q = n.udp.sockets[fd].queue;
    if let Some(d) = r {
        assert(q.drop_first() =~= q.skip(1));
        assert(cut(q[0].data, room) =~= q[0].data.take(
            if q[0].data.len() <= room {
                q[0].data.len() as int
            } else {
                room as int
            },
        ));
        lemma_be16(q[0].port);
        if q[0].ip.len() == 4 {
            assert(d.addr@.subrange(4, 8) =~= q[0].ip);
        }
    }
}

/// Only datagram and raw sockets can be read from like this.
pub proof fn law_recvfrom_refused(n: NetView, fd: u64)
    requires
        !n.udp.sockets.contains_key(fd),
        !n.echo.sockets.contains_key(fd),
    ensures
        recvfrom_error(n, Some(fd)) == Some(ENOTSOCK),
{
}

/// What a reader of a raw socket gets: the oldest packet that waits, cut to the room there is.
pub proof fn law_recvfrom_raw(n: NetView, after: NetView, fd: u64, room: u64, r: Option<Received>)
    requires
        !n.udp.sockets.contains_key(fd),
        n.echo.sockets.contains_key(fd),
        recvfrom_outcome(n, after, fd, room, r),
    ensures
        ({
            let q = n.echo.sockets[fd];
            &&& r.is_some() <==> q.len() > 0
            &&& r.is_none() ==> after == n
            &&& r matches Some(d) ==> {
                &&& d.data@ == q[0].data.take(
                    if q[0].data.len() <= room {
                        q[0].data.len() as int
                    } else {
                        room as int
                    },
                )
                &&& be16(d.addr@, 2) == 0
                &&& after.echo.sockets == n.echo.sockets.insert(fd, q.skip(1))
                &&& after.udp == n.udp && after.tcp == n.tcp
            }
        }),
        recvfrom_error(n, Some(fd)).is_none(),
{
    let q = n.echo.sockets[fd];
    if let Some(d) = r {
        assert(q.drop_first() =~= q.skip(1));
        assert(cut(q[0].data, room) =~= q[0].data.take(
            if q[0].data.len() <= room {
                q[0].data.len() as int
            } else {
                room as int
            },
        ));
        lemma_be16(0);
    }
}

// ---------------------------------------------------------------------------------------------
// Waiting for descriptors
// ---------------------------------------------------------------------------------------------
/// What is ready: a datagram or raw socket with something waiting, a connection with bytes, a
/// listener with somebody to accept; what is no socket always, a socket with neither never.
pub proof fn law_ready(n: NetView, fd: u64)
    ensures
        ({
            let d = n.udp.sockets.contains_key(fd);
            let t = n.tcp.sockets.contains_key(fd);
            let r = n.echo.sockets.contains_key(fd);
            &&& d ==> (is_ready(n, fd) <==> n.udp.sockets[fd].queue.len() > 0)
            &&& !d && t ==> match n.tcp.sockets[fd] {
                SocketView::Connection(c) => is_ready(n, fd) <==> c.recv_buf.len() > 0,
                SocketView::Listener { backlog, pending } => is_ready(n, fd) <==> pending.len() > 0,
                SocketView::Unbound { .. } => !is_ready(n, fd),
            }
            &&& !d && !t && r ==> (is_ready(n, fd) <==> n.echo.sockets[fd].len() > 0)
            &&& !d && !t && !r ==> is_ready(n, fd)
        }),
{
}

/// What `poll` says of a descriptor: nothing of a negative one; that it is invalid, of one that is
/// not open; of one that is ready, that it can be read, if that was asked for.
pub proof fn law_polled(n: NetView, fds: Map<u64, u64>, e: PollFd)
    ensures
        ({
            let r = reported(n, fds, e);
            let open = fds.contains_key(e.fd as u64);
            &&& r.fd == e.fd && r.events == e.events
            &&& e.fd < 0 ==> r.revents == 0 && !counts(n, fds, e)
            &&& e.fd >= 0 && !open ==> r.revents == 0x20 && counts(n, fds, e)
            &&& e.fd >= 0 && open && is_ready(n, fds[e.fd as u64]) ==> r.revents == e.events & 1
                && counts(n, fds, e)
            &&& e.fd >= 0 && open && !is_ready(n, fds[e.fd as u64]) ==> r.revents == 0 && !counts(
                n,
                fds,
                e,
            )
        }),
{
}

/// How long a wait lasts: as many milliseconds as the low 32 bits say, for ever where they stand
/// for a negative number; it is over at its deadline.
pub proof fn law_timeouts(ms: u64, now: u64, deadline: u64)
    ensures
        ms <= 0x7fff_ffff ==> timeout_of(ms) == Some(ms),
        0x8000_0000 <= ms <= 0xffff_ffff ==> timeout_of(ms).is_none(),
        0xffff_ffff_8000_0000 <= ms ==> timeout_of(ms).is_none(),
        expired(now, Some(deadline)) <==> now >= deadline,
        !expired(now, None),
{
}

/// How long `select` waits: seconds and microseconds in milliseconds; for ever where the seconds
/// are negative.
pub proof fn law_select_timeout(sec: i64, usec: i64)
    requires
        0 <= usec < 1_000_000,
        sec <= 1_000_000_000_000,
    ensures
        sec < 0 ==> select_timeout_of(sec, usec).is_none(),
        sec >= 0 ==> select_timeout_of(sec, usec) == Some((sec * 1000 + usec / 1000) as u64),
{
}

/// Microseconds below zero count as the large number that they are without a sign.
pub proof fn law_select_timeout_unsigned(sec: i64, usec: i64)
    requires
        usec < 0,
        0 <= sec,
    ensures
        select_timeout_of(sec, usec) == Some(
            (sec * 1000 + (usec + 0x1_0000_0000_0000_0000) / 1000) as u64,
        ),
{
}

/// What `select` says of a descriptor: that it can be read, where that was asked for and reading
/// gives something at once; that it can be written or is exceptional, where that was asked for. One
/// to read from that is not open is passed over altogether.
pub proof fn law_selected(n: NetView, fds: Map<u64, u64>, req: SelectRequest, fd: int)
    requires
        0 <= fd < 1024,
    ensures
        ({
            let open = fds.contains_key(fd as u64);
            &&& read_ready(n, fds, req, fd) <==> wanted(req.rfds, fd) && open && is_ready(
                n,
                fds[fd as u64],
            )
            &&& open || !wanted(req.rfds, fd) ==> (write_ready(fds, req, fd) <==> wanted(
                req.wfds,
                fd,
            )) && (except_ready(fds, req, fd) <==> wanted(req.efds, fd))
            &&& !open && wanted(req.rfds, fd) ==> !write_ready(fds, req, fd) && !except_ready(
                fds,
                req,
                fd,
            )
            &&& req.rfds.is_none() ==> !wanted(req.rfds, fd)
            &&& req.rfds matches Some(s) ==> (wanted(req.rfds, fd) <==> s@[fd / 64] & (1u64 << ((fd
                % 64) as u64)) != 0)
        }),
{
}

/// The answer of `select` counts every report once.
pub proof fn law_select_counts(n: NetView, fds: Map<u64, u64>, req: SelectRequest, k: int)
    requires
        k >= 0,
    ensures
        reports(n, fds, req, 0) == 0,
        ({
            let r = if read_ready(n, fds, req, k) {
                1int
            } else {
                0int
            };
            let w = if write_ready(fds, req, k) {
                1int
            } else {
                0int
            };
            let e = if except_ready(fds, req, k) {
                1int
            } else {
                0int
            };
            reports(n, fds, req, k + 1) == reports(n, fds, req, k) + r + w + e
        }),
{
}

/// The sets of an answer hold exactly what is to be said of each descriptor below the bound given.
pub proof fn law_select_sets(
    n: NetView,
    fds: Map<u64, u64>,
    req: SelectRequest,
    rout: FdSet,
    wout: FdSet,
    eout: FdSet,
    fd: int,
)
    requires
        sets_right(n, fds, req, rout, wout, eout),
        0 <= fd < 1024,
    ensures
        ({
            let mask = 1u64 << ((fd % 64) as u64);
            let open = fds.contains_key(fd as u64);
            let r = wanted(req.rfds, fd);
            &&& (rout@[fd / 64] & mask != 0) <==> fd < req.n && r && open && is_ready(
                n,
                fds[fd as u64],
            )
            &&& (wout@[fd / 64] & mask != 0) <==> fd < req.n && wanted(req.wfds, fd) && (!r || open)
            &&& (eout@[fd / 64] & mask != 0) <==> fd < req.n && wanted(req.efds, fd) && (!r || open)
        }),
{
    assert(in_set(rout@, fd) <==> fd < req.n && read_ready(n, fds, req, fd));
}

/// The answer of `poll` counts every descriptor of which something is said.
pub proof fn law_poll_counts(n: NetView, fds: Map<u64, u64>, es: Seq<PollFd>, e: PollFd)
    ensures
        count_of(n, fds, Seq::empty()) == 0,
        count_of(n, fds, es.push(e)) == count_of(n, fds, es) + (if e.fd >= 0 && (!fds.contains_key(
            e.fd as u64,
        ) || is_ready(n, fds[e.fd as u64])) {
            1int
        } else {
            0int
        }),
{
    assert(es.push(e).drop_last() =~= es);
}

/// Ports are given out in turn: the first from the one that is up next on that nobody has, round
/// the range from 49152 to 65535; then the one behind it is up next.
pub proof fn law_ports_in_turn(used: Map<u64, u64>, next: u16, q: u16)
    requires
        next >= 49152,
        q >= 49152,
    ensures
        !used.contains_key(next as u64) ==> port_for(used, next) == Some(next),
        port_for(used, next) matches Some(p) ==> {
            let between = if next <= p {
                next <= q < p
            } else {
                next <= q || q < p
            };
            &&& between ==> used.contains_key(q as u64)
            &&& next_after(used, next) == (if p == 65535 {
                49152
            } else {
                p + 1
            })
        },
        port_for(used, next).is_none() ==> next_after(used, next) == next,
{
    lemma_in_turn(used, next, 16384, q);
}

/// Every port before the one that is found is in use.
proof fn lemma_in_turn(used: Map<u64, u64>, port: u16, left: nat, q: u16)
    requires
        port >= 49152,
        q >= 49152,
        left <= 16384,
    ensures
        first_unused(used, port, left) matches Some(p) ==> {
            let far = if port <= p {
                p - port
            } else {
                p - port + 16384
            };
            let between = if port <= p {
                port <= q < p
            } else {
                port <= q || q < p
            };
            &&& p >= 49152
            &&& far < left
            &&& between ==> used.contains_key(q as u64)
        },
    decreases left,
{
    if left > 0 && used.contains_key(port as u64) {
        lemma_in_turn(used, port_after(port), (left - 1) as nat, q);
    }
}

/// A table that has room for one more, or has the address already, loses nobody; a full one loses
/// its first entry alone.
pub proof fn law_neighbour_kept(t: Seq<Option<NeighbourView>>, ip: Seq<u8>, mac: Seq<u8>, i: int, j: int)
    requires
        0 <= i < t.len(),
        0 <= j < t.len(),
        t[i] matches Some(n) && n.ip != ip,
    ensures
        ({
            let u = learned(t, ip, mac);
            &&& u.len() == t.len()
            &&& t[j].is_none() || (t[j] matches Some(m) && m.ip == ip) ==> u[i] == t[i]
            &&& i > 0 ==> u[i] == t[i]
        }),
{
    lemma_some_place(t, ip, 0, j);
}

/// A search finds a slot that is there.
proof fn lemma_some_place(t: Seq<Option<NeighbourView>>, ip: Seq<u8>, from: int, j: int)
    requires
        0 <= from <= j < t.len(),
    ensures
        first_holding(t, ip, from) >= from,
        first_holding(t, ip, from) < t.len() ==> holds(t[first_holding(t, ip, from)], ip),
        first_free(t, from) >= from,
        first_free(t, from) < t.len() ==> t[first_free(t, from)].is_none(),
        holds(t[j], ip) ==> first_holding(t, ip, from) <= j,
        t[j].is_none() ==> first_free(t, from) <= j,
    decreases t.len() - from,
{
    if from < j {
        lemma_some_place(t, ip, from + 1, j);
    } else {
        lemma_search(t, ip, from);
    }
}

/// What a search comes to.
proof fn lemma_search(t: Seq<Option<NeighbourView>>, ip: Seq<u8>, from: int)
    requires
        0 <= from <= t.len(),
    ensures
        from <= first_holding(t, ip, from) <= t.len(),
        first_holding(t, ip, from) < t.len() ==> holds(t[first_holding(t, ip, from)], ip),
        from <= first_free(t, from) <= t.len(),
        first_free(t, from) < t.len() ==> t[first_free(t, from)].is_none(),
    decreases t.len() - from,
{
    if from < t.len() {
        lemma_search(t, ip, from + 1);
    }
}

/// How an echo message is laid out, and that the newest reply is told once.
pub proof fn law_echo_layout(kind: u8, id: u16, seq: u16, data: Seq<u8>, s: EchoView)
    ensures
        ({
            let m = crate::net::icmp::echo_of(kind, id, seq, data);
            &&& m.len() == 8 + data.len()
            &&& m[0] == kind && m[1] == 0
            &&& m[4] * 256 + m[5] == id
            &&& m[6] * 256 + m[7] == seq
            &&& forall|i: int| 0 <= i < data.len() ==> #[trigger] m[8 + i] == data[i]
        }),
        crate::net::icmp::reply_taken(s).last_echo_reply.is_none(),
        crate::net::icmp::reply_taken(s).sockets == s.sockets,
{
}

/// A call is interrupted exactly where some signal waits that is not held back.
pub proof fn law_interrupted(k: KernelView, pid: u64)
    requires
        k.procs.contains_key(pid),
    ensures
        signal_pending(k, pid) <==> exists|n: u64|
            1 <= n <= 64 && #[trigger] has_sig(k.procs[pid].pending_signals, n) && !has_sig(
                k.procs[pid].blocked_signals,
                n,
            ),
{
    crate::process::signals::lemma_masks();
    let p = k.procs[pid].pending_signals;
    let b = k.procs[pid].blocked_signals;
    let m = p & !b;
    if m != 0 {
        lemma_some_bit(m);
        let n = choose|n: u64| 1 <= n <= 64 && #[trigger] has_sig(m, n);
        assert(has_sig(p & !b, n));
        assert(has_sig(p, n));
    }
    if exists|n: u64| 1 <= n <= 64 && #[trigger] has_sig(p, n) && !has_sig(b, n) {
        let n = choose|n: u64| 1 <= n <= 64 && #[trigger] has_sig(p, n) && !has_sig(b, n);
        assert(has_sig(p & !b, n));
        assert(m != 0) by {
            assert(!has_sig(0, n));
        }
    }
}

/// A number that is not zero has a bit.
pub proof fn lemma_some_bit(m: u64)
    requires
        m != 0,
    ensures
        exists|n: u64| 1 <= n <= 64 && #[trigger] has_sig(m, n),
{
    if forall|n: u64| 1 <= n <= 64 ==> !#[trigger] has_sig(m, n) {
        lemma_no_bits(m, 64);
    }
}

proof fn lemma_no_bits(m: u64, k: u64)
    requires
        1 <= k <= 64,
        forall|n: u64| 1 <= n <= 64 ==> !#[trigger] has_sig(m, n),
    ensures
        k < 64 ==> m & (((1u64 << k) - 1) as u64) == 0,
        k == 64 ==> m == 0,
    decreases k,
{
    assert(!has_sig(m, k));
    let j = (k - 1) as u64;
    assert(m & (1u64 << j) == 0);
    if k == 1 {
        assert(m & (((1u64 << 1u64) - 1) as u64) == 0) by (bit_vector)
            requires
                m & (1u64 << 0u64) == 0,
        ;
    } else {
        lemma_no_bits(m, j);
        if k < 64 {
            assert(m & (((1u64 << k) - 1) as u64) == 0) by (bit_vector)
                requires
                    j < 63,
                    k == j + 1,
                    m & (1u64 << j) == 0,
                    m & (((1u64 << j) - 1) as u64) == 0,
            ;
        } else {
            assert(m == 0) by (bit_vector)
                requires
                    j == 63,
                    m & (1u64 << j) == 0,
                    m & (((1u64 << j) - 1) as u64) == 0,
            ;
        }
    }
}

} // verus!

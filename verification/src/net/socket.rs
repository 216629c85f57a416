//! The socket calls, which find the protocol that a socket belongs to.

use vstd::prelude::*;

use crate::errno::{
    failed, negated, EADDRINUSE, EBADF, EDESTADDRREQ, EHOSTUNREACH, EINVAL, ENOTSOCK,
    EPROTONOSUPPORT,
};
use crate::net::ipv4::PROTO_ICMP;
use crate::net::queue::{cut, Datagram, DatagramView, Packet, PacketView};
use crate::net::sockaddr::{sockaddr_of, write_sockaddr, SockAddr, AF_INET};
use crate::net::stack::{Net, NetView};
use crate::net::tcp::{SocketView, TcpView};
use crate::net::udp::{datagram_of, fresh_socket, send_bound, send_port, taken, UdpView, PROTO_UDP};

verus! {

pub const SOCK_STREAM: u64 = 1;

pub const SOCK_DGRAM: u64 = 2;

pub const SOCK_RAW: u64 = 3;

/// The protocol that a raw socket is opened for.
pub const IPPROTO_ICMP: u64 = 1;

/// What kind of socket a call asks for.
#[derive(Debug, Clone, Copy, PartialEq, Eq, Structural)]
pub enum SocketKind {
    Datagram,
    Stream,
    Raw,
}

/// The kind of socket that the three numbers of a call stand for.
pub open spec fn kind_of(domain: u64, ty: u64, protocol: u64) -> Option<SocketKind> {
    if domain != AF_INET {
        None
    } else if ty == SOCK_DGRAM {
        Some(SocketKind::Datagram)
    } else if ty == SOCK_STREAM {
        Some(SocketKind::Stream)
    } else if ty == SOCK_RAW && protocol == IPPROTO_ICMP {
        Some(SocketKind::Raw)
    } else {
        None
    }
}

/// The stack with a socket of this kind under the number `fd`.
pub open spec fn opened(n: NetView, kind: SocketKind, fd: u64) -> NetView {
    match kind {
        SocketKind::Datagram => NetView {
            udp: UdpView { sockets: n.udp.sockets.insert(fd, fresh_socket()), ..n.udp },
            ..n
        },
        SocketKind::Stream => NetView {
            tcp: TcpView {
                sockets: n.tcp.sockets.insert(fd, SocketView::Unbound { local_port: None }),
                ..n.tcp
            },
            ..n
        },
        SocketKind::Raw => NetView {
            echo: crate::net::icmp::EchoView {
                sockets: n.echo.sockets.insert(fd, Seq::empty()),
                ..n.echo
            },
            ..n
        },
    }
}

fn socket_kind(domain: u64, ty: u64, protocol: u64) -> (r: Option<SocketKind>)
    ensures
        r == kind_of(domain, ty, protocol),
{
    if domain != AF_INET {
        None
    } else if ty == SOCK_DGRAM {
        Some(SocketKind::Datagram)
    } else if ty == SOCK_STREAM {
        Some(SocketKind::Stream)
    } else if ty == SOCK_RAW && protocol == IPPROTO_ICMP {
        Some(SocketKind::Raw)
    } else {
        None
    }
}

/// Opens a socket under the number `fd`. The protocol matters for a raw socket only.
pub fn oxidebsd_sys_socket(net: &mut Net, domain: u64, ty: u64, protocol: u64, fd: u64) -> (r: Result<
    u64,
    u64,
>)
    requires
        old(net).wf(),
        !old(net)@.tcp.sockets.contains_key(fd),
    ensures
        final(net).wf(),
        match kind_of(domain, ty, protocol) {
            Some(kind) => r == Ok::<u64, u64>(fd) && final(net)@ == opened(old(net)@, kind, fd),
            None => r == Err::<u64, u64>(EPROTONOSUPPORT) && final(net)@ == old(net)@,
        },
{
    match socket_kind(domain, ty, protocol) {
        Some(SocketKind::Datagram) => Ok(crate::net::udp::create_socket(&mut net.udp, fd)),
        Some(SocketKind::Stream) => Ok(crate::net::tcp::create_socket(&mut net.tcp, fd)),
        Some(SocketKind::Raw) => Ok(crate::net::icmp::create_socket(&mut net.echo, fd)),
        None => Err(EPROTONOSUPPORT),
    }
}

/// What binding a socket answers.
pub open spec fn bind_answer(n: NetView, fd: Option<u64>, addr: Option<SockAddr>) -> i64 {
    match fd {
        None => negated(EBADF),
        Some(fd) => if n.udp.sockets.contains_key(fd) {
            match addr {
                None => negated(EINVAL),
                Some(a) => crate::net::udp::bind_answer(n.udp, fd, a.port),
            }
        } else {
            match crate::net::tcp::bind_answer(n.tcp, fd, addr) {
                Some(r) => r,
                None => if !n.echo.sockets.contains_key(fd) {
                    negated(ENOTSOCK)
                } else if addr.is_none() {
                    negated(EINVAL)
                } else {
                    0
                },
            }
        },
    }
}

/// The stack after binding a socket.
pub open spec fn bind_state(n: NetView, fd: Option<u64>, addr: Option<SockAddr>) -> NetView {
    match fd {
        None => n,
        Some(fd) => if n.udp.sockets.contains_key(fd) {
            match addr {
                None => n,
                Some(a) => NetView {
                    udp: crate::net::udp::bind_state(n.udp, fd, a.port),
                    ..n
                },
            }
        } else {
            NetView { tcp: crate::net::tcp::bind_state(n.tcp, fd, addr), ..n }
        },
    }
}

/// Binds a socket to an address.
pub fn oxidebsd_sys_bind(net: &mut Net, real_fd: Option<u64>, addr: Option<SockAddr>) -> (r: i64)
    requires
        old(net).wf(),
    ensures
        final(net).wf(),
        r == bind_answer(old(net)@, real_fd, addr),
        final(net)@ == bind_state(old(net)@, real_fd, addr),
{
    let fd: u64 = match real_fd {
        Some(fd) => fd,
        None => {
            return failed(EBADF);
        },
    };
    if net.udp.sockets.contains_key(fd) {
        return match addr {
            None => failed(EINVAL),
            Some(a) => crate::net::udp::bind(&mut net.udp, fd, a.port),
        };
    }
    match crate::net::tcp::bind(&mut net.tcp, fd, addr) {
        Some(r) => r,
        None => match crate::net::icmp::bind(&net.echo, fd, addr.is_some()) {
            Some(r) => r,
            None => failed(ENOTSOCK),
        },
    }
}

/// Why a datagram cannot be sent.
pub open spec fn sendto_error(
    n: NetView,
    fd: Option<u64>,
    data_given: bool,
    addr: Option<SockAddr>,
) -> Option<u64> {
    match (fd, addr) {
        (None, _) => Some(EBADF),
        (_, None) => Some(EDESTADDRREQ),
        (Some(fd), _) => if !data_given {
            Some(EINVAL)
        } else if n.udp.sockets.contains_key(fd) {
            if send_port(n.udp, fd).is_none() {
                Some(EADDRINUSE)
            } else {
                None
            }
        } else if n.echo.sockets.contains_key(fd) {
            None
        } else {
            Some(ENOTSOCK)
        },
    }
}

/// The packet that carries a datagram.
pub open spec fn sendto_packet(n: NetView, fd: u64, data: Seq<u8>, addr: SockAddr) -> PacketView {
    if n.udp.sockets.contains_key(fd) {
        PacketView {
            dest: addr.ip@,
            protocol: PROTO_UDP,
            payload: datagram_of(send_port(n.udp, fd)->Some_0, addr.port, data),
        }
    } else {
        PacketView { dest: addr.ip@, protocol: PROTO_ICMP, payload: data }
    }
}

/// Sends a datagram: the result carries it, and `sendto_answer` is what the call answers once it is
/// known whether it went out. `data` is missing where the caller gave no buffer for a length above
/// zero.
pub fn oxidebsd_sys_sendto(
    net: &mut Net,
    real_fd: Option<u64>,
    data: Option<&[u8]>,
    addr: Option<SockAddr>,
) -> (r: Result<Packet, u64>)
    requires
        old(net).wf(),
        data matches Some(d) ==> d@.len() + crate::net::udp::HEADER_LEN <= usize::MAX,
    ensures
        final(net).wf(),
        match r {
            Err(e) => {
                &&& sendto_error(old(net)@, real_fd, data.is_some(), addr) == Some(e)
                &&& final(net)@ == old(net)@
            },
            Ok(p) => {
                let n = old(net)@;
                let fd = real_fd->Some_0;
                &&& sendto_error(n, real_fd, data.is_some(), addr).is_none()
                &&& data matches Some(d) && p@ == sendto_packet(n, fd, d@, addr->Some_0)
                &&& final(net)@ == (if n.udp.sockets.contains_key(fd) {
                    NetView { udp: send_bound(n.udp, fd), ..n }
                } else {
                    n
                })
            },
        },
{
    let fd: u64 = match real_fd {
        Some(fd) => fd,
        None => {
            return Err(EBADF);
        },
    };
    let to: SockAddr = match addr {
        Some(a) => a,
        None => {
            return Err(EDESTADDRREQ);
        },
    };
    let bytes: &[u8] = match data {
        Some(d) => d,
        None => {
            return Err(EINVAL);
        },
    };
    if net.udp.sockets.contains_key(fd) {
        return crate::net::udp::send(&mut net.udp, fd, to.ip, to.port, bytes);
    }
    match crate::net::icmp::sendto(&net.echo, fd, Some(bytes), to.ip) {
        Some(r) => r,
        None => Err(ENOTSOCK),
    }
}

/// What sending `len` bytes answers once it is known whether they went out.
pub fn sendto_answer(len: u64, went_out: bool) -> (r: i64)
    requires
        len <= i64::MAX,
    ensures
        r == (if went_out {
            len as i64
        } else {
            negated(EHOSTUNREACH)
        }),
{
    if went_out {
        len as i64
    } else {
        failed(EHOSTUNREACH)
    }
}

/// A datagram for its reader: as many bytes as fit, and the sender's address.
pub struct Received {
    pub data: Vec<u8>,
    pub addr: Vec<u8>,
}

/// What the oldest datagram of a queue comes to for a reader with room for `room` bytes.
pub open spec fn is_received(r: Received, d: DatagramView, port: u16, room: u64) -> bool {
    r.data@ == cut(d.data, room) && r.addr@ == sockaddr_of(d.ip, port)
}

/// Why nothing can be read from a socket.
pub open spec fn recvfrom_error(n: NetView, fd: Option<u64>) -> Option<u64> {
    match fd {
        None => Some(EBADF),
        Some(fd) => if n.udp.sockets.contains_key(fd) || n.echo.sockets.contains_key(fd) {
            None
        } else {
            Some(ENOTSOCK)
        },
    }
}

/// Whether the datagram that is taken, and the stack after that, are what they should be.
pub open spec fn recvfrom_outcome(
    n: NetView,
    after: NetView,
    fd: u64,
    room: u64,
    r: Option<Received>,
) -> bool {
    if n.udp.sockets.contains_key(fd) {
        let q = n.udp.sockets[fd].queue;
        match r {
            None => q.len() == 0 && after == n,
            Some(d) => {
                &&& q.len() > 0
                &&& is_received(d, q[0], q[0].port, room)
                &&& after == (NetView { udp: taken(n.udp, fd), ..n })
            },
        }
    } else {
        let q = n.echo.sockets[fd];
        match r {
            None => q.len() == 0 && after == n,
            Some(d) => {
                &&& q.len() > 0
                &&& is_received(d, q[0], 0, room)
                &&& after == (NetView {
                    echo: crate::net::icmp::EchoView {
                        sockets: n.echo.sockets.insert(fd, q.drop_first()),
                        ..n.echo
                    },
                    ..n
                })
            },
        }
    }
}

/// Takes the oldest datagram that waits for a socket; `Ok(None)` where nothing waits. Does not
/// wait.
pub fn oxidebsd_sys_recvfrom(net: &mut Net, real_fd: Option<u64>, buf_len: u64) -> (r: Result<
    Option<Received>,
    u64,
>)
    requires
        old(net).wf(),
    ensures
        final(net).wf(),
        match r {
            Err(e) => recvfrom_error(old(net)@, real_fd) == Some(e) && final(net)@ == old(net)@,
            Ok(got) => {
                &&& recvfrom_error(old(net)@, real_fd).is_none()
                &&& recvfrom_outcome(old(net)@, final(net)@, real_fd->Some_0, buf_len, got)
            },
        },
{
    let fd: u64 = match real_fd {
        Some(fd) => fd,
        None => {
            return Err(EBADF);
        },
    };
    let got: Option<Datagram> = match crate::net::udp::recvfrom(&mut net.udp, fd, buf_len) {
        Some(got) => got,
        None => match crate::net::icmp::recvfrom(&mut net.echo, fd, buf_len) {
            Some(got) => got,
            None => {
                return Err(ENOTSOCK);
            },
        },
    };
    match got {
        None => Ok(None),
        Some(d) => {
            let addr = write_sockaddr(d.ip, d.port);
            Ok(Some(Received { data: d.data, addr }))
        },
    }
}

/// Accepts any option of any socket.
pub fn oxidebsd_sys_setsockopt(net: &Net, real_fd: Option<u64>) -> (r: i64)
    requires
        net.wf(),
    ensures
        r == (match real_fd {
            None => negated(EBADF),
            Some(fd) => if net@.udp.sockets.contains_key(fd) || net@.tcp.sockets.contains_key(fd)
                || net@.echo.sockets.contains_key(fd) {
                0
            } else {
                negated(ENOTSOCK)
            },
        }),
{
    let fd: u64 = match real_fd {
        Some(fd) => fd,
        None => {
            return failed(EBADF);
        },
    };
    if net.udp.sockets.contains_key(fd) {
        return 0;
    }
    match crate::net::tcp::setsockopt(&net.tcp, fd) {
        Some(r) => r,
        None => match crate::net::icmp::setsockopt(&net.echo, fd) {
            Some(r) => r,
            None => failed(ENOTSOCK),
        },
    }
}

} // verus!

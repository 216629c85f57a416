//! ICMP and UDP sockets, and the calls that all protocols share.

use oxidebsd::errno::{
    EADDRINUSE, EBADF, EDESTADDRREQ, EINVAL, EISCONN, ENOTSOCK, EPROTONOSUPPORT,
};
use oxidebsd::net::arp::{learn, ArpTable};
use oxidebsd::net::icmp::{self, EchoState};
use oxidebsd::net::ipv4::{self, GUEST_IP};
use oxidebsd::net::poll::{oxidebsd_sys_poll, poll_begin, PollFd, WaitStep};
use oxidebsd::net::ports::alloc_ephemeral_port;
use oxidebsd::net::select::{oxidebsd_sys_select, select_timeout, SelectRequest, SelectStep};
use oxidebsd::net::sockaddr::SockAddr;
use oxidebsd::net::socket::{
    oxidebsd_sys_bind, oxidebsd_sys_recvfrom, oxidebsd_sys_sendto, oxidebsd_sys_setsockopt,
    oxidebsd_sys_socket, sendto_answer,
};
use oxidebsd::net::stack::Net;
use oxidebsd::net::udp::{self, UdpState};
use oxidebsd::ordmap::OrdMap;
use oxidebsd::process::Kernel;

fn echo_packet(kind: u8, id: u16, seq: u16, data: &[u8]) -> Vec<u8> {
    let m = icmp::build_packet(kind, id, seq, data);
    ipv4::build_packet(GUEST_IP, 1, &m)
}

#[test]
fn echo_request_is_answered() {
    let mut s = EchoState::new();
    let p = echo_packet(8, 7, 9, b"hello");
    let r = icmp::handle_packet(&mut s, &p, [10, 0, 2, 2]).unwrap();
    assert_eq!(r.dest, [10, 0, 2, 2]);
    assert_eq!(r.protocol, 1);
    assert_eq!(r.payload[0], 0);
    assert_eq!(r.payload[4..8], [0, 7, 0, 9]);
    assert_eq!(r.payload[8..], b"hello"[..]);
    assert_eq!(ipv4::checksum(&r.payload), 0);
    assert!(icmp::take_echo_reply(&mut s).is_none());
}

#[test]
fn echo_reply_is_noted_once() {
    let mut s = EchoState::new();
    assert!(icmp::handle_packet(&mut s, &echo_packet(0, 3, 4, &[]), [1, 2, 3, 4]).is_none());
    let r = icmp::take_echo_reply(&mut s).unwrap();
    assert_eq!((r.from, r.identifier, r.sequence), ([1, 2, 3, 4], 3, 4));
    assert!(icmp::take_echo_reply(&mut s).is_none());
}

#[test]
fn newest_echo_reply_is_taken() {
    let mut s = EchoState::new();
    icmp::handle_packet(&mut s, &echo_packet(0, 3, 4, &[]), [1, 2, 3, 4]);
    let mut long = echo_packet(0, 0x0506, 0x0708, &[]);
    long.resize(200_000, 0);
    assert!(icmp::handle_packet(&mut s, &long, [5, 6, 7, 8]).is_none());
    let r = icmp::take_echo_reply(&mut s).unwrap();
    assert_eq!((r.from, r.identifier, r.sequence), ([5, 6, 7, 8], 0x0506, 0x0708));
    assert!(icmp::take_echo_reply(&mut s).is_none());
}

#[test]
fn echo_request_is_built() {
    let p = icmp::send_echo_request([10, 0, 2, 2], 1, 2, &[0xaa]);
    assert_eq!(p.payload[0], 8);
    assert_eq!(ipv4::checksum(&p.payload), 0);
    assert_eq!(p.payload[8..], [0xaa]);
}

#[test]
fn raw_sockets_get_every_packet_whole() {
    let mut s = EchoState::new();
    icmp::create_socket(&mut s, 5);
    icmp::create_socket(&mut s, 6);
    assert_eq!(icmp::has_data_ready(&s, 5), Some(false));
    assert_eq!(icmp::has_data_ready(&s, 7), None);
    let p = echo_packet(8, 1, 1, &[]);
    icmp::handle_packet(&mut s, &p, [10, 0, 2, 2]);
    assert_eq!(icmp::has_data_ready(&s, 6), Some(true));
    let d = icmp::recvfrom(&mut s, 5, 1000).unwrap().unwrap();
    assert_eq!(d.data, p);
    assert_eq!(d.ip, [10, 0, 2, 2]);
    assert!(icmp::recvfrom(&mut s, 5, 1000).unwrap().is_none());
    let d = icmp::recvfrom(&mut s, 6, 4).unwrap().unwrap();
    assert_eq!(d.data, p[..4]);
    assert!(icmp::recvfrom(&mut s, 9, 4).is_none());
}

#[test]
fn raw_socket_keeps_the_newest() {
    let mut s = EchoState::new();
    icmp::create_socket(&mut s, 5);
    for i in 0..40u16 {
        icmp::handle_packet(&mut s, &echo_packet(0, i, 0, &[]), [10, 0, 2, 2]);
    }
    let d = icmp::recvfrom(&mut s, 5, 1000).unwrap().unwrap();
    assert_eq!(d.data[24..26], [0, 8]);
    let mut n = 1;
    while icmp::recvfrom(&mut s, 5, 1000).unwrap().is_some() {
        n += 1;
    }
    assert_eq!(n, 32);
}

#[test]
fn raw_socket_calls() {
    let mut s = EchoState::new();
    icmp::create_socket(&mut s, 5);
    assert_eq!(icmp::bind(&s, 5, true), Some(0));
    assert_eq!(icmp::bind(&s, 5, false), Some(-22));
    assert_eq!(icmp::bind(&s, 6, true), None);
    assert_eq!(icmp::setsockopt(&s, 5), Some(0));
    assert_eq!(icmp::setsockopt(&s, 6), None);
    assert_eq!(icmp::raw_read(), -38);
    assert_eq!(icmp::raw_write(), -39);
    assert!(icmp::sendto(&s, 6, Some(&[1]), [1; 4]).is_none());
    assert!(matches!(icmp::sendto(&s, 5, None, [1; 4]), Some(Err(EINVAL))));
    let p = icmp::sendto(&s, 5, Some(&[1, 2]), [1; 4]).unwrap().ok().unwrap();
    assert_eq!(p.payload, vec![1, 2]);
    assert_eq!(icmp::raw_close(&mut s, 5), 0);
    assert_eq!(icmp::has_data_ready(&s, 5), None);
}

#[test]
fn short_packets_reach_nobody() {
    let mut s = EchoState::new();
    icmp::create_socket(&mut s, 5);
    assert!(icmp::handle_packet(&mut s, &[0u8; 19], [1; 4]).is_none());
    assert_eq!(icmp::has_data_ready(&s, 5), Some(false));
    assert!(icmp::handle_packet(&mut s, &[8u8; 27], [1; 4]).is_none());
    assert_eq!(icmp::has_data_ready(&s, 5), Some(true));
}

#[test]
fn datagram_reaches_the_socket_with_its_port() {
    let mut s = UdpState::new();
    udp::create_socket(&mut s, 4);
    udp::create_socket(&mut s, 5);
    assert_eq!(udp::bind(&mut s, 4, 1000), 0);
    assert_eq!(udp::bind(&mut s, 5, 1000), -48);
    let p = udp::send(&mut s, 5, GUEST_IP, 1000, b"ping").ok().unwrap();
    assert_eq!(p.protocol, 17);
    assert_eq!(p.payload[..8], [0xc0, 0, 3, 232, 0, 12, 0, 0]);
    udp::handle_packet(&mut s, &p.payload, [9, 9, 9, 9]);
    assert_eq!(udp::has_data_ready(&s, 4), Some(true));
    assert_eq!(udp::has_data_ready(&s, 5), Some(false));
    let d = udp::recvfrom(&mut s, 4, 100).unwrap().unwrap();
    assert_eq!((d.ip, d.port, d.data), ([9, 9, 9, 9], 49152, b"ping".to_vec()));
    assert!(udp::recvfrom(&mut s, 4, 100).unwrap().is_none());
    assert!(udp::recvfrom(&mut s, 99, 100).is_none());
}

#[test]
fn datagrams_nobody_gets() {
    let mut s = UdpState::new();
    udp::create_socket(&mut s, 4);
    assert_eq!(udp::bind(&mut s, 4, 1000), 0);
    udp::handle_packet(&mut s, &[0, 1, 3, 232, 0, 8, 0], [1; 4]);
    udp::handle_packet(&mut s, &[0, 1, 3, 232, 0, 7, 0, 0], [1; 4]);
    udp::handle_packet(&mut s, &[0, 1, 3, 232, 0, 9, 0, 0], [1; 4]);
    udp::handle_packet(&mut s, &[0, 1, 3, 233, 0, 8, 0, 0], [1; 4]);
    assert_eq!(udp::has_data_ready(&s, 4), Some(false));
    udp::handle_packet(&mut s, &[0, 1, 3, 232, 0, 8, 0, 0], [1; 4]);
    assert_eq!(udp::has_data_ready(&s, 4), Some(true));
}

#[test]
fn datagram_queue_keeps_the_newest() {
    let mut s = UdpState::new();
    udp::create_socket(&mut s, 4);
    assert_eq!(udp::bind(&mut s, 4, 1000), 0);
    for i in 0..33u8 {
        udp::handle_packet(&mut s, &[0, 1, 3, 232, 0, 9, 0, 0, i], [1; 4]);
    }
    let first = udp::recvfrom(&mut s, 4, 100).unwrap().unwrap();
    assert_eq!(first.data, vec![1]);
}

#[test]
fn closed_port_can_be_bound_again() {
    let mut s = UdpState::new();
    udp::create_socket(&mut s, 4);
    assert_eq!(udp::bind(&mut s, 4, 1000), 0);
    assert_eq!(udp::udp_close(&mut s, 4), 0);
    assert_eq!(udp::has_data_ready(&s, 4), None);
    udp::create_socket(&mut s, 5);
    assert_eq!(udp::bind(&mut s, 5, 1000), 0);
    assert_eq!(udp::udp_read(), -38);
    assert_eq!(udp::udp_write(), -39);
}

#[test]
fn ports_go_round() {
    let mut used: OrdMap<u64> = OrdMap::new();
    let mut next: u16 = 65535;
    assert_eq!(alloc_ephemeral_port(&used, &mut next), Some(65535));
    assert_eq!(next, 49152);
    used.insert(49152, 1);
    assert_eq!(alloc_ephemeral_port(&used, &mut next), Some(49153));
    assert_eq!(next, 49154);
    for p in 49152..=65535u64 {
        used.insert(p, 1);
    }
    assert_eq!(alloc_ephemeral_port(&used, &mut next), None);
    assert_eq!(next, 49154);
}

#[test]
fn socket_kinds() {
    let mut n = Net::new();
    assert_eq!(oxidebsd_sys_socket(&mut n, 2, 2, 0, 10), Ok(10));
    assert_eq!(oxidebsd_sys_socket(&mut n, 2, 1, 0, 11), Ok(11));
    assert_eq!(oxidebsd_sys_socket(&mut n, 2, 3, 1, 12), Ok(12));
    assert_eq!(oxidebsd_sys_socket(&mut n, 2, 3, 17, 13), Err(EPROTONOSUPPORT));
    assert_eq!(oxidebsd_sys_socket(&mut n, 2, 5, 0, 13), Err(EPROTONOSUPPORT));
    assert_eq!(oxidebsd_sys_socket(&mut n, 10, 2, 0, 13), Err(EPROTONOSUPPORT));
    for fd in [10, 11, 12] {
        assert_eq!(oxidebsd_sys_setsockopt(&n, Some(fd)), 0);
    }
    assert_eq!(oxidebsd_sys_setsockopt(&n, Some(13)), -38);
    assert_eq!(oxidebsd_sys_setsockopt(&n, None), -9);
}

fn three_sockets() -> Net {
    let mut n = Net::new();
    oxidebsd_sys_socket(&mut n, 2, 2, 0, 10).unwrap();
    oxidebsd_sys_socket(&mut n, 2, 1, 0, 11).unwrap();
    oxidebsd_sys_socket(&mut n, 2, 3, 1, 12).unwrap();
    n
}

fn addr(port: u16) -> Option<SockAddr> {
    Some(SockAddr { ip: [10, 0, 2, 2], port })
}

#[test]
fn bind_finds_the_protocol() {
    let mut n = three_sockets();
    assert_eq!(oxidebsd_sys_bind(&mut n, None, addr(1)), -(EBADF as i64));
    assert_eq!(oxidebsd_sys_bind(&mut n, Some(10), None), -(EINVAL as i64));
    assert_eq!(oxidebsd_sys_bind(&mut n, Some(11), None), -(EINVAL as i64));
    assert_eq!(oxidebsd_sys_bind(&mut n, Some(12), None), -(EINVAL as i64));
    assert_eq!(oxidebsd_sys_bind(&mut n, Some(13), addr(1)), -(ENOTSOCK as i64));
    assert_eq!(oxidebsd_sys_bind(&mut n, Some(10), addr(0)), 0);
    assert_eq!(oxidebsd_sys_bind(&mut n, Some(11), addr(80)), 0);
    assert_eq!(oxidebsd_sys_bind(&mut n, Some(12), addr(1)), 0);
    assert_eq!(oxidebsd::net::tcp::oxidebsd_sys_listen(&mut n.tcp, Some(11), 5), 0);
    assert_eq!(oxidebsd_sys_bind(&mut n, Some(11), addr(80)), -(EISCONN as i64));
}

#[test]
fn sendto_and_its_errors() {
    let mut n = three_sockets();
    let data: &[u8] = &[1, 2, 3];
    assert!(matches!(oxidebsd_sys_sendto(&mut n, None, Some(data), addr(1)), Err(EBADF)));
    assert!(matches!(oxidebsd_sys_sendto(&mut n, Some(10), Some(data), None), Err(EDESTADDRREQ)));
    assert!(matches!(oxidebsd_sys_sendto(&mut n, Some(10), None, addr(1)), Err(EINVAL)));
    assert!(matches!(oxidebsd_sys_sendto(&mut n, Some(11), Some(data), addr(1)), Err(ENOTSOCK)));
    let p = oxidebsd_sys_sendto(&mut n, Some(10), Some(data), addr(53)).ok().unwrap();
    assert_eq!((p.protocol, p.payload.len()), (17, 11));
    let p = oxidebsd_sys_sendto(&mut n, Some(12), Some(data), addr(0)).ok().unwrap();
    assert_eq!((p.protocol, p.payload), (1, vec![1, 2, 3]));
    assert_eq!(sendto_answer(3, true), 3);
    assert_eq!(sendto_answer(3, false), -65);
}

#[test]
fn no_port_left() {
    let mut n = three_sockets();
    for p in 49152..=65535u64 {
        n.udp.ports.insert(p, 99);
    }
    assert!(matches!(oxidebsd_sys_sendto(&mut n, Some(10), Some(&[]), addr(1)), Err(EADDRINUSE)));
    assert_eq!(oxidebsd_sys_bind(&mut n, Some(10), addr(0)), -48);
}

#[test]
fn recvfrom_and_its_errors() {
    let mut n = three_sockets();
    assert!(matches!(oxidebsd_sys_recvfrom(&mut n, None, 10), Err(EBADF)));
    assert!(matches!(oxidebsd_sys_recvfrom(&mut n, Some(11), 10), Err(ENOTSOCK)));
    assert!(matches!(oxidebsd_sys_recvfrom(&mut n, Some(10), 10), Ok(None)));
    assert_eq!(oxidebsd_sys_bind(&mut n, Some(10), addr(1000)), 0);
    let udp_packet = ipv4::build_packet(GUEST_IP, 17, &[0, 7, 3, 232, 0, 10, 0, 0, 5, 6]);
    let r = ipv4::handle_packet(&mut n, &udp_packet, 50, 0);
    assert!(r.packet.is_none());
    let got = oxidebsd_sys_recvfrom(&mut n, Some(10), 1).ok().unwrap().unwrap();
    assert_eq!(got.data, vec![5]);
    assert_eq!(got.addr[..8], [2, 0, 0, 7, 10, 0, 2, 15]);
    let ping = echo_packet(8, 1, 1, &[]);
    assert!(ipv4::handle_packet(&mut n, &ping, 50, 0).packet.is_some());
    let got = oxidebsd_sys_recvfrom(&mut n, Some(12), 100).ok().unwrap().unwrap();
    assert_eq!(got.data, ping);
    assert_eq!(got.addr[2..4], [0, 0]);
}

fn table(pairs: &[(u64, u64)]) -> OrdMap<u64> {
    let mut t = OrdMap::new();
    for (fd, real) in pairs {
        t.insert(*fd, *real);
    }
    t
}

#[test]
fn poll_reports() {
    let mut n = three_sockets();
    assert_eq!(oxidebsd_sys_bind(&mut n, Some(10), addr(1000)), 0);
    let fds = table(&[(3, 10), (4, 11), (5, 77)]);
    let want = |fd| PollFd { fd, events: 1, revents: 9 };
    let mut es = vec![want(3), want(4), want(-1)];
    assert_eq!(oxidebsd_sys_poll(&n, &fds, &mut es, 0, None), WaitStep::Spin);
    assert_eq!(oxidebsd_sys_poll(&n, &fds, &mut es, 5, Some(5)), WaitStep::Return(0));
    assert_eq!(es[0].revents, 0);
    udp::handle_packet(&mut n.udp, &[0, 1, 3, 232, 0, 8, 0, 0], [1; 4]);
    let mut es = vec![want(3), want(4), want(5), want(9), want(-1)];
    assert_eq!(oxidebsd_sys_poll(&n, &fds, &mut es, 0, None), WaitStep::Return(3));
    let seen: Vec<u16> = es.iter().map(|e| e.revents).collect();
    assert_eq!(seen, vec![1, 0, 1, 0x20, 0]);
    let mut none = Vec::new();
    assert_eq!(oxidebsd_sys_poll(&n, &fds, &mut none, 0, Some(1)), WaitStep::Yield);
}

#[test]
fn poll_arguments() {
    assert_eq!(poll_begin(false, 1, 0), Err(EINVAL));
    assert_eq!(poll_begin(false, 0, 7), Ok(Some(7)));
    assert_eq!(poll_begin(true, 1, 0xffff_ffff), Ok(None));
    assert_eq!(poll_begin(true, 1, 0x1_0000_0005), Ok(Some(5)));
}

fn set(fds: &[usize]) -> Option<[u64; 16]> {
    let mut s = [0u64; 16];
    for fd in fds {
        s[fd / 64] |= 1 << (fd % 64);
    }
    Some(s)
}

#[test]
fn select_reports() {
    let mut n = three_sockets();
    assert_eq!(oxidebsd_sys_bind(&mut n, Some(10), addr(1000)), 0);
    let fds = table(&[(3, 10), (70, 77)]);
    let k = Kernel::new();
    let mut q = SelectRequest {
        n: 100,
        rfds: set(&[3, 5]),
        wfds: None,
        efds: None,
        tv_sec: -1,
        tv_usec: 0,
    };
    assert!(matches!(oxidebsd_sys_select(&n, &fds, Some(&q), &k, 1, 0, None), SelectStep::Spin));
    udp::handle_packet(&mut n.udp, &[0, 1, 3, 232, 0, 8, 0, 0], [1; 4]);
    q.rfds = set(&[3, 5, 70]);
    q.wfds = set(&[5, 6, 70]);
    q.efds = set(&[6]);
    match oxidebsd_sys_select(&n, &fds, Some(&q), &k, 1, 0, None) {
        SelectStep::Return { count, rout, wout, eout } => {
            assert_eq!(count, 5);
            assert_eq!(Some(rout), set(&[3, 70]));
            assert_eq!(Some(wout), set(&[6, 70]));
            assert_eq!(Some(eout), set(&[6]));
        }
        _ => panic!("nothing reported"),
    }
}

#[test]
fn select_ends_without_a_report() {
    let n = Net::new();
    let fds = table(&[]);
    let k = Kernel::new();
    let q = SelectRequest { n: 0, rfds: None, wfds: None, efds: None, tv_sec: 0, tv_usec: 0 };
    assert!(matches!(oxidebsd_sys_select(&n, &fds, Some(&q), &k, 1, 0, None), SelectStep::Yield));
    match oxidebsd_sys_select(&n, &fds, Some(&q), &k, 1, 3, Some(3)) {
        SelectStep::Return { count, rout, .. } => {
            assert_eq!(count, 0);
            assert_eq!(rout, [0u64; 16]);
        }
        _ => panic!("not over"),
    }
    assert!(matches!(oxidebsd_sys_select(&n, &fds, None, &k, 1, 0, None), SelectStep::Failed(EINVAL)));
    for bad in [-1, 1025] {
        let q = SelectRequest { n: bad, ..q };
        assert!(matches!(
            oxidebsd_sys_select(&n, &fds, Some(&q), &k, 1, 0, None),
            SelectStep::Failed(EINVAL)
        ));
    }
    assert_eq!(select_timeout(2, 500_000), Some(2500));
    assert_eq!(select_timeout(-1, 0), None);
    assert_eq!(select_timeout(-1, -1), None);
    assert_eq!(select_timeout(i64::MIN, i64::MAX), None);
    assert_eq!(select_timeout(0, -1), Some(u64::MAX / 1000));
}

#[test]
fn datagram_comes_up_the_layers() {
    let mut n = three_sockets();
    assert_eq!(oxidebsd_sys_bind(&mut n, Some(10), addr(1000)), 0);
    oxidebsd_sys_socket(&mut n, 2, 2, 0, 20).unwrap();
    let to = Some(SockAddr { ip: GUEST_IP, port: 1000 });
    let p = oxidebsd_sys_sendto(&mut n, Some(20), Some(b"around"), to).ok().unwrap();
    let mut t = ArpTable::new();
    learn(&mut t, GUEST_IP, [2; 6]);
    let step =
        ipv4::send_packet(&t, Some([2; 6]), p.dest, p.protocol, &p.payload, ipv4::Search::Begin);
    let ipv4::SendStep::Send(Some(f)) = step else {
        panic!("the address is known");
    };
    let h = oxidebsd::net::ethernet::handle_frame(&mut n, Some([2; 6]), &f, 50, 0);
    assert!(h.frame.is_none() && h.reaction.packet.is_none());
    let got = oxidebsd_sys_recvfrom(&mut n, Some(10), 100).ok().unwrap().unwrap();
    assert_eq!(got.data, b"around".to_vec());
    assert_eq!(got.addr[4..8], GUEST_IP);
}

#[test]
fn ready_means_there_is_something() {
    let mut n = three_sockets();
    assert_eq!(oxidebsd_sys_bind(&mut n, Some(10), addr(1000)), 0);
    let fds = table(&[(3, 10)]);
    let want = PollFd { fd: 3, events: 1, revents: 0 };
    udp::handle_packet(&mut n.udp, &[0, 1, 3, 232, 0, 8, 0, 0], [1; 4]);
    let mut es = vec![want];
    assert_eq!(oxidebsd_sys_poll(&n, &fds, &mut es, 0, None), WaitStep::Return(1));
    assert!(oxidebsd_sys_recvfrom(&mut n, Some(10), 10).ok().unwrap().is_some());
    let mut es = vec![want];
    assert_eq!(oxidebsd_sys_poll(&n, &fds, &mut es, 0, None), WaitStep::Spin);
    assert!(oxidebsd_sys_recvfrom(&mut n, Some(10), 10).ok().unwrap().is_none());
}

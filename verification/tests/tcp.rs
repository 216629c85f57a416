//! TCP connections from both ends.

use oxidebsd::errno::{
    EADDRINUSE, EAGAIN, EBADF, ECONNREFUSED, EHOSTUNREACH, EINVAL, EISCONN, ENOTCONN, EOPNOTSUPP,
};
use oxidebsd::net::queue::Packet;
use oxidebsd::net::segment;
use oxidebsd::net::sockaddr::SockAddr;
use oxidebsd::net::tcp::{self, Outgoing, ReadStep, TcpState};

const CLIENT: [u8; 4] = [10, 0, 2, 15];
const SERVER: [u8; 4] = [10, 0, 2, 15];

fn server(port: u16) -> TcpState {
    let mut s = TcpState::new();
    tcp::create_socket(&mut s, 1);
    let addr = Some(SockAddr { ip: [0; 4], port });
    assert_eq!(tcp::bind(&mut s, 1, addr), Some(0));
    assert_eq!(tcp::oxidebsd_sys_listen(&mut s, Some(1), 2), 0);
    s
}

fn connecting() -> (TcpState, Outgoing) {
    let mut c = TcpState::new();
    tcp::create_socket(&mut c, 7);
    let to = Some(SockAddr { ip: SERVER, port: 80 });
    let o = tcp::oxidebsd_sys_connect(&mut c, Some(7), to, 1234).ok().unwrap();
    (c, o)
}

/// Client socket 7 and the server's connection 100, both up.
fn pair() -> (TcpState, TcpState) {
    let mut s = server(80);
    let (mut c, o) = connecting();
    let syn = o.packet.payload.clone();
    assert!(tcp::connect_sent(&mut c, o, true, 0).is_ok());
    assert_eq!(tcp::connect_wait(&mut c, 7, 0, 10), None);
    let r = tcp::handle_packet(&mut s, &syn, CLIENT, 100, 5);
    assert_eq!(r.track, Some(100));
    let syn_ack = r.packet.unwrap().payload;
    tcp::segment_sent(&mut s, 100, syn_ack.clone(), 0);
    let r = tcp::handle_packet(&mut c, &syn_ack, SERVER, 101, 0);
    let ack = r.packet.unwrap().payload;
    assert_eq!(tcp::connect_wait(&mut c, 7, 0, 10), Some(0));
    let r = tcp::handle_packet(&mut s, &ack, CLIENT, 101, 0);
    assert!(r.packet.is_none());
    (c, s)
}

/// Carries what one end sends next to the other, and the acknowledgement back.
fn carry(from: &mut TcpState, from_fd: u64, to: &mut TcpState, out: Option<Outgoing>) {
    let mut out = out;
    while let Some(o) = out {
        let bytes = o.packet.payload.clone();
        tcp::try_send_done(from, o, true, 0);
        let r = tcp::handle_packet(to, &bytes, CLIENT, 999, 0);
        let ack = r.packet.unwrap().payload;
        let back = tcp::handle_packet(from, &ack, CLIENT, 999, 0);
        assert!(back.packet.is_none());
        assert_eq!(back.resume, Some(from_fd));
        out = tcp::try_send(from, from_fd);
    }
}

#[test]
fn handshake_brings_both_ends_up() {
    let (c, mut s) = pair();
    assert_eq!(tcp::debug_connection_for(&s, 80, CLIENT, 49152), Some(100));
    assert_eq!(tcp::debug_connection_for(&c, 49152, SERVER, 80), Some(7));
    assert_eq!(tcp::debug_connection_for(&c, 49153, SERVER, 80), None);
    assert_eq!(tcp::has_data_ready(&s, 1), Some(true));
    let a = tcp::oxidebsd_sys_accept(&mut s, Some(1)).ok().unwrap();
    assert_eq!(a.fd, 100);
    assert_eq!(a.addr[..8], [2, 0, 0xc0, 0, 10, 0, 2, 15]);
    assert!(matches!(tcp::oxidebsd_sys_accept(&mut s, Some(1)), Err(EAGAIN)));
}

#[test]
fn first_sequence_number_mixes_clock_and_counter() {
    let mut s = TcpState::new();
    assert_eq!(tcp::isn(&mut s, 1234), 1234);
    assert_eq!(tcp::isn(&mut s, 1234), 1234 ^ 0x9E37_79B1);
    assert_eq!(tcp::isn(&mut s, 0x1_0000_0000), 0x9E37_79B1u32.wrapping_mul(2));
}

#[test]
fn bytes_arrive_in_order() {
    let (mut c, mut s) = pair();
    let data: Vec<u8> = (0..1500u32).map(|i| (i % 251) as u8).collect();
    let out = tcp::tcp_write(&mut c, 7, &data).ok().unwrap();
    assert_eq!(out.as_ref().unwrap().data.len(), 536);
    carry(&mut c, 7, &mut s, out);
    let mut got = Vec::new();
    while let ReadStep::Data(b) = tcp::tcp_read(&mut s, 100, 700, true) {
        got.extend(b);
    }
    assert_eq!(got, data);
    assert!(matches!(tcp::tcp_read(&mut s, 100, 700, true), ReadStep::Failed(EAGAIN)));
    assert!(matches!(tcp::tcp_read(&mut s, 100, 700, false), ReadStep::Wait));
}

#[test]
fn repeated_segment_is_read_once() {
    let (mut c, mut s) = pair();
    let o = tcp::tcp_write(&mut c, 7, b"once").ok().unwrap().unwrap();
    let bytes = o.packet.payload;
    let first = tcp::handle_packet(&mut s, &bytes, CLIENT, 999, 0).packet.unwrap();
    let again = tcp::handle_packet(&mut s, &bytes, CLIENT, 999, 0).packet.unwrap();
    assert_eq!(first.payload, again.payload);
    match tcp::tcp_read(&mut s, 100, 100, true) {
        ReadStep::Data(b) => assert_eq!(b, b"once"),
        _ => panic!("no data"),
    }
    assert!(matches!(tcp::tcp_read(&mut s, 100, 100, true), ReadStep::Failed(EAGAIN)));
}

#[test]
fn bytes_that_did_not_go_out_stay() {
    let (mut c, mut s) = pair();
    let o = tcp::tcp_write(&mut c, 7, b"stay").ok().unwrap().unwrap();
    tcp::try_send_done(&mut c, o, false, 0);
    let out = tcp::try_send(&mut c, 7);
    assert_eq!(out.as_ref().unwrap().data, b"stay".to_vec());
    carry(&mut c, 7, &mut s, out);
    assert!(matches!(tcp::tcp_read(&mut s, 100, 100, true), ReadStep::Data(_)));
}

#[test]
fn one_segment_in_flight() {
    let (mut c, _s) = pair();
    let o = tcp::tcp_write(&mut c, 7, b"a").ok().unwrap().unwrap();
    tcp::try_send_done(&mut c, o, true, 0);
    assert!(tcp::tcp_write(&mut c, 7, b"b").ok().unwrap().is_none());
    assert!(tcp::try_send(&mut c, 7).is_none());
}

/// A whole round at tick `now`, with nothing arriving in between.
fn round(s: &mut TcpState, now: u64) -> Vec<Packet> {
    let mut out = Vec::new();
    let mut after = None;
    while let Some(again) = tcp::check_retransmits(s, after, now, now) {
        assert!(after.is_none_or(|a| a < again.fd));
        after = Some(again.fd);
        out.extend(again.packet);
    }
    out
}

#[test]
fn acknowledgement_during_a_round_counts() {
    let (mut c, mut s) = pair();
    let o = tcp::tcp_write(&mut c, 7, b"late").ok().unwrap().unwrap();
    let bytes = o.packet.payload.clone();
    tcp::try_send_done(&mut c, o, true, 0);
    tcp::create_socket(&mut c, 3);
    let to = Some(SockAddr { ip: SERVER, port: 81 });
    let syn = tcp::oxidebsd_sys_connect(&mut c, Some(3), to, 0).ok().unwrap();
    assert!(tcp::connect_sent(&mut c, syn, true, 0).is_ok());
    let first = tcp::check_retransmits(&mut c, None, 100, 100).unwrap();
    assert_eq!(first.fd, 3);
    assert!(first.packet.is_some());
    let ack = tcp::handle_packet(&mut s, &bytes, CLIENT, 999, 0).packet.unwrap();
    tcp::handle_packet(&mut c, &ack.payload, SERVER, 999, 0);
    assert!(tcp::check_retransmits(&mut c, Some(3), 100, 101).is_none());
    assert!(tcp::check_retransmits(&mut c, None, 100, 101).is_none());
    assert_eq!(tcp::check_retransmits(&mut c, None, 200, 200).unwrap().fd, 3);
}

#[test]
fn unanswered_segment_is_sent_again_and_given_up() {
    let (mut c, _s) = pair();
    let o = tcp::tcp_write(&mut c, 7, b"again").ok().unwrap().unwrap();
    let bytes = o.packet.payload.clone();
    tcp::try_send_done(&mut c, o, true, 0);
    assert!(round(&mut c, 99).is_empty());
    for i in 1..=5u64 {
        let sent = round(&mut c, i * 100);
        assert_eq!(sent.len(), 1);
        assert_eq!(sent[0].payload, bytes);
        assert_eq!(sent[0].dest, SERVER);
    }
    assert!(round(&mut c, 599).is_empty());
    assert_eq!(tcp::has_data_ready(&c, 7), Some(false));
    assert!(round(&mut c, 600).is_empty());
    assert_eq!(tcp::has_data_ready(&c, 7), None);
    assert_eq!(tcp::debug_connection_for(&c, 49152, SERVER, 80), None);
}

#[test]
fn orderly_close() {
    let (mut c, mut s) = pair();
    let fin = tcp::tcp_close(&mut c, 7).unwrap();
    let bytes = fin.packet.payload.clone();
    tcp::fin_done(&mut c, fin, true, 0);
    let r = tcp::handle_packet(&mut s, &bytes, CLIENT, 999, 0);
    let ack = r.packet.unwrap().payload;
    assert!(matches!(tcp::tcp_read(&mut s, 100, 10, false), ReadStep::End));
    assert!(tcp::tcp_write(&mut s, 100, b"").is_ok());
    tcp::handle_packet(&mut c, &ack, SERVER, 999, 0);
    assert!(matches!(tcp::tcp_read(&mut c, 7, 10, false), ReadStep::End));
    assert!(matches!(tcp::tcp_write(&mut c, 7, b"x"), Err(ENOTCONN)));
    let fin = tcp::tcp_close(&mut s, 100).unwrap();
    let bytes = fin.packet.payload.clone();
    tcp::fin_done(&mut s, fin, true, 0);
    let r = tcp::handle_packet(&mut c, &bytes, SERVER, 999, 0);
    let last = r.packet.unwrap().payload;
    tcp::handle_packet(&mut s, &last, CLIENT, 999, 0);
    assert_eq!(tcp::has_data_ready(&s, 100), None);
    assert!(tcp::tcp_close(&mut c, 7).is_none());
    assert_eq!(tcp::has_data_ready(&c, 7), None);
}

#[test]
fn stream_goes_on_after_the_receiver_closed() {
    let (mut c, mut s) = pair();
    let fin = tcp::tcp_close(&mut c, 7).unwrap();
    let bytes = fin.packet.payload.clone();
    tcp::fin_done(&mut c, fin, true, 0);
    assert!(tcp::handle_packet(&mut s, &bytes, CLIENT, 999, 0).packet.is_some());
    let data: Vec<u8> = (0..1200u32).map(|i| (i % 241) as u8).collect();
    let out = tcp::tcp_write(&mut s, 100, &data).ok().unwrap();
    carry(&mut s, 100, &mut c, out);
    match tcp::tcp_read(&mut c, 7, 5000, true) {
        ReadStep::Data(b) => assert_eq!(b, data),
        _ => panic!("nothing arrived"),
    }
}

#[test]
fn reset_forgets_the_connection() {
    let (mut c, mut s) = pair();
    let o = tcp::tcp_write(&mut c, 7, b"x").ok().unwrap().unwrap();
    let mut rst = o.packet.payload.clone();
    rst[13] = 0x04;
    assert!(tcp::handle_packet(&mut s, &rst, CLIENT, 999, 0).packet.is_none());
    assert_eq!(tcp::debug_connection_for(&s, 80, CLIENT, 49152), None);
    let r = tcp::handle_packet(&mut s, &o.packet.payload, CLIENT, 999, 0);
    let answer = segment::parse(&r.packet.unwrap().payload).unwrap();
    assert_eq!(answer.flags, 0x14);
    assert!(matches!(tcp::oxidebsd_sys_accept(&mut s, Some(1)), Err(ECONNREFUSED)));
}

#[test]
fn nobody_listens() {
    let mut s = TcpState::new();
    let (mut c, o) = connecting();
    let syn = o.packet.payload.clone();
    let n = segment::parse(&syn).unwrap().seq;
    assert!(tcp::connect_sent(&mut c, o, true, 0).is_ok());
    let r = tcp::handle_packet(&mut s, &syn, CLIENT, 100, 5);
    let rst = r.packet.unwrap().payload;
    let a = segment::parse(&rst).unwrap();
    assert_eq!((a.flags, a.seq, a.ack), (0x14, 0, n.wrapping_add(1)));
    tcp::handle_packet(&mut c, &rst, SERVER, 999, 0);
    assert_eq!(tcp::connect_wait(&mut c, 7, 0, 10), Some(-61));
}

#[test]
fn connect_times_out_or_finds_no_way() {
    let (mut c, o) = connecting();
    assert!(tcp::connect_sent(&mut c, o, true, 0).is_ok());
    assert_eq!(tcp::connect_wait(&mut c, 7, 10, 10), Some(-60));
    assert_eq!(tcp::has_data_ready(&c, 7), None);
    let (mut c, o) = connecting();
    assert_eq!(tcp::connect_sent(&mut c, o, false, 0), Err(EHOSTUNREACH));
    assert_eq!(tcp::has_data_ready(&c, 7), None);
}

#[test]
fn backlog_is_kept() {
    let mut s = server(80);
    for i in 0..3u64 {
        let mut c = TcpState::new();
        c.next_ephemeral = 50000 + i as u16;
        tcp::create_socket(&mut c, 7);
        let to = Some(SockAddr { ip: SERVER, port: 80 });
        let o = tcp::oxidebsd_sys_connect(&mut c, Some(7), to, 0).ok().unwrap();
        let r = tcp::handle_packet(&mut s, &o.packet.payload, CLIENT, 100 + i, 0);
        if i < 2 {
            let syn_ack = r.packet.unwrap().payload;
            let ack = tcp::handle_packet(&mut c, &syn_ack, SERVER, 999, 0).packet.unwrap();
            tcp::handle_packet(&mut s, &ack.payload, CLIENT, 999, 0);
        } else {
            assert!(r.packet.is_none());
            assert!(r.track.is_none());
        }
    }
    assert_eq!(tcp::oxidebsd_sys_accept(&mut s, Some(1)).ok().unwrap().fd, 100);
    assert_eq!(tcp::oxidebsd_sys_accept(&mut s, Some(1)).ok().unwrap().fd, 101);
}

#[test]
fn call_errors() {
    let mut s = server(80);
    let addr = Some(SockAddr { ip: SERVER, port: 80 });
    assert!(matches!(tcp::oxidebsd_sys_connect(&mut s, None, addr, 0), Err(EBADF)));
    assert!(matches!(tcp::oxidebsd_sys_connect(&mut s, Some(1), None, 0), Err(EINVAL)));
    assert!(matches!(tcp::oxidebsd_sys_connect(&mut s, Some(1), addr, 0), Err(EISCONN)));
    assert!(matches!(tcp::oxidebsd_sys_connect(&mut s, Some(2), addr, 0), Err(EBADF)));
    assert_eq!(tcp::bind(&mut s, 1, addr), Some(-56));
    assert_eq!(tcp::bind(&mut s, 2, addr), None);
    assert_eq!(tcp::setsockopt(&s, 1), Some(0));
    assert_eq!(tcp::setsockopt(&s, 2), None);
    assert_eq!(tcp::oxidebsd_sys_listen(&mut s, Some(1), 5), 0);
    assert_eq!(tcp::oxidebsd_sys_listen(&mut s, Some(2), 5), -9);
    assert_eq!(tcp::oxidebsd_sys_listen(&mut s, None, 5), -9);
    tcp::create_socket(&mut s, 2);
    assert_eq!(tcp::bind(&mut s, 2, None), Some(-22));
    assert_eq!(tcp::bind(&mut s, 2, addr), Some(0));
    assert_eq!(tcp::oxidebsd_sys_listen(&mut s, Some(2), 5), -48);
    assert!(matches!(tcp::oxidebsd_sys_accept(&mut s, Some(2)), Err(EOPNOTSUPP)));
    assert!(matches!(tcp::oxidebsd_sys_accept(&mut s, Some(3)), Err(EBADF)));
    assert!(matches!(tcp::oxidebsd_sys_accept(&mut s, None), Err(EBADF)));
    assert!(matches!(tcp::tcp_read(&mut s, 2, 5, false), ReadStep::Failed(EBADF)));
    assert!(matches!(tcp::tcp_write(&mut s, 2, b"x"), Err(EBADF)));
    assert_eq!(tcp::debug_send_next(&s, 2), None);
    let (mut c, _o) = connecting();
    assert_eq!(tcp::oxidebsd_sys_listen(&mut c, Some(7), 5), -56);
    assert!(matches!(tcp::tcp_write(&mut c, 7, b"x"), Err(ENOTCONN)));
}

#[test]
fn every_port_listened_at() {
    let mut s = TcpState::new();
    tcp::create_socket(&mut s, 1);
    for p in 49152..=65535u64 {
        s.listeners.insert(p, 1);
    }
    let to = Some(SockAddr { ip: SERVER, port: 80 });
    assert!(matches!(tcp::oxidebsd_sys_connect(&mut s, Some(1), to, 0), Err(EADDRINUSE)));
    let any = Some(SockAddr { ip: SERVER, port: 0 });
    assert_eq!(tcp::bind(&mut s, 1, any), Some(-48));
    assert_eq!(tcp::oxidebsd_sys_listen(&mut s, Some(1), 0), -48);
}

#[test]
fn closed_listener_frees_its_port() {
    let mut s = server(80);
    assert!(tcp::tcp_close(&mut s, 1).is_none());
    tcp::create_socket(&mut s, 2);
    assert_eq!(tcp::bind(&mut s, 2, Some(SockAddr { ip: SERVER, port: 80 })), Some(0));
    assert_eq!(tcp::oxidebsd_sys_listen(&mut s, Some(2), 500), 0);
}

#[test]
fn window_shrinks_with_what_waits() {
    assert_eq!(tcp::window_for(0), 65535);
    assert_eq!(tcp::window_for(1), 65535);
    assert_eq!(tcp::window_for(2), 65534);
    assert_eq!(tcp::window_for(65536), 0);
    assert_eq!(tcp::window_for(70000), 0);
}

#[test]
fn sequence_numbers_wrap() {
    assert_eq!(tcp::advance(u32::MAX, 1), 0);
    assert_eq!(tcp::advance(5, 0), 5);
    assert_eq!(tcp::advance(u32::MAX - 1, 10), 8);
}

#[test]
fn connections_have_their_own_numbers() {
    let a = tcp::connection_key(80, [10, 0, 2, 2], 5);
    assert_eq!(a, 0x0050_0a00_0202_0005);
    assert_ne!(a, tcp::connection_key(80, [10, 0, 2, 2], 6));
    assert_ne!(a, tcp::connection_key(81, [10, 0, 2, 2], 5));
    assert_ne!(a, tcp::connection_key(80, [10, 0, 2, 3], 5));
}

#[test]
fn full_buffer_takes_what_fits() {
    let (mut c, mut s) = pair();
    let data = vec![1u8; 536];
    for _ in 0..122 {
        let out = tcp::tcp_write(&mut c, 7, &data).ok().unwrap();
        carry(&mut c, 7, &mut s, out);
    }
    let o = tcp::tcp_write(&mut c, 7, &data).ok().unwrap().unwrap();
    let r = tcp::handle_packet(&mut s, &o.packet.payload, CLIENT, 999, 0);
    let ack = r.packet.unwrap().payload;
    assert_eq!(ack[14..16], [0, 0]);
    let mut total = 0;
    while let ReadStep::Data(b) = tcp::tcp_read(&mut s, 100, 5000, true) {
        total += b.len();
    }
    assert_eq!(total, 65536);
}

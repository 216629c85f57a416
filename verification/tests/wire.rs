//! Frames, packets and addresses as bytes.

use oxidebsd::bytes::{push_be16, push_be32, push_le32, push_le64, read_be16, read_be32, read_le64};
use oxidebsd::errno::{failed, EPIPE};
use oxidebsd::net::arp::{self, ArpTable};
use oxidebsd::net::ethernet::{self, BROADCAST_MAC, ETHERTYPE_ARP, ETHERTYPE_IPV4};
use oxidebsd::net::ipv4::{self, Search, SearchStep, SendStep, GATEWAY_IP, GUEST_IP};
use oxidebsd::net::nic::{sent, NicDriver, NicError};
use oxidebsd::net::icmp;
use oxidebsd::net::poll::{poll, Round, RoundStep};
use oxidebsd::net::segment;
use oxidebsd::net::stack::Net;
use oxidebsd::net::sockaddr::{read_sockaddr, write_sockaddr, SockAddr};
use oxidebsd::net::tcp;

struct Card {
    mac: [u8; 6],
}

impl NicDriver for Card {
    fn send(&mut self, frame: &[u8]) -> Result<(), NicError> {
        if frame.len() > 100 {
            Err(NicError::NoTxSlotAvailable)
        } else {
            Ok(())
        }
    }

    fn poll_recv(&mut self) -> Option<Vec<u8>> {
        None
    }

    fn mac_address(&self) -> [u8; 6] {
        self.mac
    }
}

const OUR: Option<[u8; 6]> = Some([2, 0, 0, 0, 0, 1]);

#[test]
fn numbers_read_back() {
    let mut v = Vec::new();
    push_be16(&mut v, 0x1234);
    push_be32(&mut v, 0xdeadbeef);
    push_le64(&mut v, 0x0102030405060708);
    assert_eq!(v[..6], [0x12, 0x34, 0xde, 0xad, 0xbe, 0xef]);
    assert_eq!(v[6..], [8, 7, 6, 5, 4, 3, 2, 1]);
    assert_eq!(read_be16(&v, 0), 0x1234);
    assert_eq!(read_be32(&v, 2), 0xdeadbeef);
    assert_eq!(read_le64(&v, 6), 0x0102030405060708);
    let mut w = Vec::new();
    push_le32(&mut w, 0x01020304);
    assert_eq!(w, vec![4, 3, 2, 1]);
}

#[test]
fn failures_are_negative() {
    assert_eq!(failed(EPIPE), -32);
}

#[test]
fn checksum_of_a_known_header() {
    let header = [
        0x45, 0x00, 0x00, 0x73, 0x00, 0x00, 0x40, 0x00, 0x40, 0x11, 0x00, 0x00, 0xc0, 0xa8, 0x00,
        0x01, 0xc0, 0xa8, 0x00, 0xc7,
    ];
    assert_eq!(ipv4::checksum(&header), 0xb861);
}

#[test]
fn checksum_edges() {
    assert_eq!(ipv4::checksum(&[]), 0xffff);
    assert_eq!(ipv4::checksum(&[0x01]), 0xfeff);
    assert_eq!(ipv4::checksum(&[0xff, 0xff]), 0);
    assert_eq!(ipv4::checksum(&[0xff, 0xff, 0x00, 0x01]), 0xfffe);
    let long = vec![0xffu8; 131074];
    assert_eq!(ipv4::checksum(&long), 0);
}

#[test]
fn built_header_sums_to_zero() {
    let p = ipv4::build_packet([10, 0, 2, 2], 17, &[1, 2, 3]);
    assert_eq!(p.len(), 23);
    assert_eq!(p[0], 0x45);
    assert_eq!(p[2..4], [0, 23]);
    assert_eq!(p[8], 64);
    assert_eq!(p[9], 17);
    assert_eq!(p[12..16], [10, 0, 2, 15]);
    assert_eq!(p[16..20], [10, 0, 2, 2]);
    assert_eq!(p[20..], [1, 2, 3]);
    assert_eq!(ipv4::checksum(&p[..20]), 0);
}

#[test]
fn packet_to_ourselves_reads_back() {
    let p = ipv4::build_packet(GUEST_IP, 6, &[9, 8]);
    let h = ipv4::parse(&p).unwrap();
    assert_eq!(h.protocol, 6);
    assert_eq!(h.src_ip, GUEST_IP);
    assert_eq!(h.total_length, 22);
}

#[test]
fn unacceptable_packets() {
    let good = ipv4::build_packet(GUEST_IP, 6, &[9, 8]);
    assert!(ipv4::parse(&good[..19]).is_none());
    let mut options = good.clone();
    options[0] = 0x46;
    assert!(ipv4::parse(&options).is_none());
    let other = ipv4::build_packet([10, 0, 2, 99], 6, &[]);
    assert!(ipv4::parse(&other).is_none());
    let mut long = good.clone();
    long[3] = 23;
    assert!(ipv4::parse(&long).is_none());
    let mut short = good.clone();
    short[3] = 19;
    assert!(ipv4::parse(&short).is_none());
    let mut padded = good.clone();
    padded.push(0);
    assert_eq!(ipv4::parse(&padded).unwrap().total_length, 22);
}

#[test]
fn next_hop_is_the_gateway_beyond_the_network() {
    assert_eq!(ipv4::next_hop([10, 0, 2, 77]), [10, 0, 2, 77]);
    assert_eq!(ipv4::next_hop([10, 0, 3, 77]), GATEWAY_IP);
    assert_eq!(ipv4::next_hop([8, 8, 8, 8]), GATEWAY_IP);
}

#[test]
fn frame_for_the_card() {
    let mut nic = Some(Card { mac: [2, 0, 0, 0, 0, 1] });
    assert_eq!(ethernet::our_mac(&nic), OUR);
    let f = ethernet::send_frame(OUR, [1, 2, 3, 4, 5, 6], 0x0800, &[7, 7]);
    assert_eq!(f, Some(vec![1, 2, 3, 4, 5, 6, 2, 0, 0, 0, 0, 1, 8, 0, 7, 7]));
    let card = nic.as_mut().unwrap();
    let answer = card.send(f.as_ref().unwrap());
    assert!(sent(&f, answer).is_some());
    let big = ethernet::send_frame(OUR, [1; 6], 0x0800, &[0; 200]);
    let answer = card.send(big.as_ref().unwrap());
    assert!(sent(&big, answer).is_none());
    assert!(card.poll_recv().is_none());
    let none: Option<Card> = None;
    assert!(ethernet::our_mac(&none).is_none());
    assert!(ethernet::send_frame(None, [0; 6], 0x0800, &[]).is_none());
    assert!(sent(&None, Ok(())).is_none());
}

#[test]
fn frame_reads_back() {
    let f = ethernet::build_frame([1; 6], [2; 6], ETHERTYPE_IPV4, &[5, 6]);
    let (kind, payload) = ethernet::parse(&f).unwrap();
    assert_eq!(kind, ethernet::Ethertype::Ipv4);
    assert_eq!(payload, vec![5, 6]);
    let a = ethernet::build_frame([1; 6], [2; 6], ETHERTYPE_ARP, &[]);
    assert_eq!(ethernet::parse(&a).unwrap().0, ethernet::Ethertype::Arp);
    let other = ethernet::build_frame([1; 6], [2; 6], 0x86dd, &[]);
    assert!(ethernet::parse(&other).is_none());
    assert!(ethernet::parse(&f[..13]).is_none());
}

#[test]
fn arp_learns_and_resolves() {
    let mut t = ArpTable::new();
    assert!(arp::resolve(&t, [10, 0, 2, 2]).is_none());
    arp::learn(&mut t, [10, 0, 2, 2], [1; 6]);
    arp::learn(&mut t, [10, 0, 2, 3], [2; 6]);
    assert_eq!(arp::resolve(&t, [10, 0, 2, 2]), Some([1; 6]));
    arp::learn(&mut t, [10, 0, 2, 2], [9; 6]);
    assert_eq!(arp::resolve(&t, [10, 0, 2, 2]), Some([9; 6]));
    assert_eq!(arp::resolve(&t, [10, 0, 2, 3]), Some([2; 6]));
}

#[test]
fn full_arp_table_gives_up_its_first_entry() {
    let mut t = ArpTable::new();
    for i in 0..16u8 {
        arp::learn(&mut t, [10, 0, 2, i], [i; 6]);
    }
    arp::learn(&mut t, [10, 0, 2, 200], [200; 6]);
    assert_eq!(arp::resolve(&t, [10, 0, 2, 200]), Some([200; 6]));
    assert!(arp::resolve(&t, [10, 0, 2, 0]).is_none());
    for i in 1..16u8 {
        assert_eq!(arp::resolve(&t, [10, 0, 2, i]), Some([i; 6]));
    }
    arp::learn(&mut t, [10, 0, 2, 7], [77; 6]);
    assert_eq!(arp::resolve(&t, [10, 0, 2, 7]), Some([77; 6]));
    assert_eq!(arp::resolve(&t, [10, 0, 2, 200]), Some([200; 6]));
}

fn arp_packet(oper: u8, sender_ip: [u8; 4], target_ip: [u8; 4]) -> Vec<u8> {
    let mut p = vec![0, 1, 8, 0, 6, 4, 0, oper, 5, 5, 5, 5, 5, 5];
    p.extend_from_slice(&sender_ip);
    p.extend_from_slice(&[0; 6]);
    p.extend_from_slice(&target_ip);
    p
}

#[test]
fn arp_request_for_us_is_answered() {
    let mut t = ArpTable::new();
    let f = arp::handle_packet(&mut t, OUR, &arp_packet(1, [10, 0, 2, 2], GUEST_IP)).unwrap();
    assert_eq!(arp::resolve(&t, [10, 0, 2, 2]), Some([5; 6]));
    assert_eq!(f[..6], [5; 6]);
    assert_eq!(f[12..14], [8, 6]);
    assert_eq!(f[20..22], [0, 2]);
    assert_eq!(f[22..28], [2, 0, 0, 0, 0, 1]);
    assert_eq!(f[28..32], GUEST_IP);
    assert_eq!(f[32..38], [5; 6]);
    assert_eq!(f[38..42], [10, 0, 2, 2]);
    assert!(arp::handle_packet(&mut t, None, &arp_packet(1, [10, 0, 2, 2], GUEST_IP)).is_none());
}

#[test]
fn arp_packets_that_are_not_answered() {
    let mut t = ArpTable::new();
    assert!(arp::handle_packet(&mut t, OUR, &arp_packet(1, [10, 0, 2, 2], [10, 0, 2, 3])).is_none());
    assert!(arp::handle_packet(&mut t, OUR, &arp_packet(2, [10, 0, 2, 4], GUEST_IP)).is_none());
    assert!(arp::resolve(&t, [10, 0, 2, 2]).is_some());
    assert!(arp::resolve(&t, [10, 0, 2, 4]).is_some());
    let mut odd = arp_packet(1, [10, 0, 2, 9], GUEST_IP);
    odd[1] = 6;
    assert!(arp::handle_packet(&mut t, OUR, &odd).is_none());
    let short = arp_packet(1, [10, 0, 2, 9], GUEST_IP);
    assert!(arp::handle_packet(&mut t, OUR, &short[..27]).is_none());
    assert!(arp::resolve(&t, [10, 0, 2, 9]).is_none());
}

#[test]
fn arp_request_is_broadcast() {
    let ip = [10, 0, 2, 2];
    let f = arp::send_request(OUR, ip).unwrap();
    assert_eq!(f[..6], BROADCAST_MAC);
    assert_eq!(f[20..22], [0, 1]);
    assert_eq!(f[32..38], [0; 6]);
    assert_eq!(f[38..42], ip);
    assert!(arp::send_request(None, ip).is_none());
}

#[test]
fn search_for_a_neighbour() {
    let mut t = ArpTable::new();
    let ip = [10, 0, 2, 2];
    assert!(matches!(ipv4::resolve_with_retry(&t, ip, Search::Begin), SearchStep::Ask));
    let early = Search::Clock { now: 4, deadline: 5 };
    let late = Search::Clock { now: 5, deadline: 5 };
    assert!(matches!(ipv4::resolve_with_retry(&t, ip, early), SearchStep::Poll));
    assert!(matches!(ipv4::resolve_with_retry(&t, ip, Search::Polled), SearchStep::ReadClock));
    assert!(matches!(ipv4::resolve_with_retry(&t, ip, late), SearchStep::GiveUp));
    arp::learn(&mut t, ip, [3; 6]);
    assert!(matches!(
        ipv4::resolve_with_retry(&t, ip, Search::Polled),
        SearchStep::Found([3, 3, 3, 3, 3, 3])
    ));
    assert!(matches!(ipv4::resolve_with_retry(&t, ip, Search::Begin), SearchStep::Found(_)));
}

#[test]
fn packet_goes_out_through_its_hop() {
    let mut t = ArpTable::new();
    let far = [8, 8, 8, 8];
    arp::learn(&mut t, far, [9; 6]);
    let SendStep::Ask(Some(q)) = ipv4::send_packet(&t, OUR, far, 17, &[1], Search::Begin) else {
        panic!("the gateway is not known");
    };
    assert_eq!(q, arp::send_request(OUR, GATEWAY_IP).unwrap());
    let none = ipv4::send_packet(&t, None, far, 17, &[1], Search::Begin);
    assert!(matches!(none, SendStep::Ask(None)));
    let early = Search::Clock { now: 4, deadline: 5 };
    let late = Search::Clock { now: 5, deadline: 5 };
    assert!(matches!(ipv4::send_packet(&t, OUR, far, 17, &[1], early), SendStep::Poll));
    assert!(matches!(ipv4::send_packet(&t, OUR, far, 17, &[1], late), SendStep::GiveUp));
    let polled = ipv4::send_packet(&t, OUR, far, 17, &[1], Search::Polled);
    assert!(matches!(polled, SendStep::ReadClock));
    arp::learn(&mut t, GATEWAY_IP, [4; 6]);
    let none = ipv4::send_packet(&t, None, far, 17, &[1], Search::Polled);
    assert!(matches!(none, SendStep::Send(None)));
    let near = [10, 0, 2, 77];
    arp::learn(&mut t, near, [7; 6]);
    let SendStep::Send(Some(f)) = ipv4::send_packet(&t, OUR, near, 17, &[1], Search::Begin) else {
        panic!("a neighbour is known");
    };
    assert_eq!(f[..6], [7; 6]);
    let SendStep::Send(Some(f)) = ipv4::send_packet(&t, OUR, far, 17, &[1], Search::Polled) else {
        panic!("the gateway is known");
    };
    assert_eq!(f[..6], [4; 6]);
    assert_eq!(f[12..14], [8, 0]);
    assert_eq!(f[30..34], [8, 8, 8, 8]);
    assert_eq!(f[34..], [1]);
}

#[test]
fn frames_are_dispatched() {
    let mut n = Net::new();
    let ask = ethernet::build_frame([255; 6], [5; 6], ETHERTYPE_ARP, &arp_packet(1, [10, 0, 2, 2], GUEST_IP));
    let h = ethernet::handle_frame(&mut n, OUR, &ask, 50, 0);
    assert!(h.frame.is_some());
    assert!(h.reaction.packet.is_none());
    let ping = icmp::build_packet(8, 1, 2, &[3]);
    let ip = ipv4::build_packet(GUEST_IP, 1, &ping);
    let frame = ethernet::build_frame([2, 0, 0, 0, 0, 1], [5; 6], ETHERTYPE_IPV4, &ip);
    let h = ethernet::handle_frame(&mut n, OUR, &frame, 50, 0);
    assert!(h.frame.is_none());
    assert_eq!(h.reaction.packet.unwrap().payload[0], 0);
    let other = ethernet::build_frame([1; 6], [2; 6], 0x86dd, &[]);
    let h = ethernet::handle_frame(&mut n, OUR, &other, 50, 0);
    assert!(h.frame.is_none() && h.reaction.packet.is_none());
}

#[test]
fn round_of_polling() {
    let mut n = Net::new();
    let begin = Round::Resend { after: None, began: 0 };
    assert!(matches!(poll(&mut n, OUR, begin, 50, 0), RoundStep::Ask));
    let ask = ethernet::build_frame([255; 6], [5; 6], ETHERTYPE_ARP, &arp_packet(1, [10, 0, 2, 2], GUEST_IP));
    match poll(&mut n, OUR, Round::Asked(Some(ask)), 50, 0) {
        RoundStep::React(h) => assert!(h.frame.is_some()),
        _ => panic!("frame not handled"),
    }
    assert_eq!(arp::resolve(&n.arp, [10, 0, 2, 2]), Some([5; 6]));
    assert!(matches!(poll(&mut n, OUR, Round::Asked(None), 50, 0), RoundStep::Done));
    tcp::create_socket(&mut n.tcp, 3);
    let to = Some(SockAddr { ip: GUEST_IP, port: 80 });
    let syn = tcp::oxidebsd_sys_connect(&mut n.tcp, Some(3), to, 0).ok().unwrap();
    let bytes = syn.packet.payload.clone();
    assert!(tcp::connect_sent(&mut n.tcp, syn, true, 0).is_ok());
    let begin = Round::Resend { after: None, began: 100 };
    match poll(&mut n, OUR, begin, 50, 100) {
        RoundStep::Resend(again) => {
            assert_eq!(again.fd, 3);
            assert_eq!(again.packet.unwrap().payload, bytes);
        }
        _ => panic!("not sent again"),
    }
    let next = Round::Resend { after: Some(3), began: 100 };
    assert!(matches!(poll(&mut n, OUR, next, 50, 100), RoundStep::Ask));
}

#[test]
fn socket_address_reads_back() {
    let b = write_sockaddr([10, 0, 2, 3], 53);
    assert_eq!(b, vec![2, 0, 0, 53, 10, 0, 2, 3, 0, 0, 0, 0, 0, 0, 0, 0]);
    let a = read_sockaddr(Some(&b)).unwrap();
    assert_eq!(a.ip, [10, 0, 2, 3]);
    assert_eq!(a.port, 53);
    assert!(read_sockaddr(None).is_none());
}

#[test]
fn segment_reads_back_and_sums_to_zero() {
    let f = segment::Fields {
        local_port: 80,
        remote_port: 4660,
        seq: 0x01020304,
        ack: 0x05060708,
        flags: 0x18,
        window: 65535,
    };
    let p = segment::send_segment([10, 0, 2, 2], f, &[7, 8, 9]);
    assert_eq!(p.dest, [10, 0, 2, 2]);
    assert_eq!(p.protocol, 6);
    let a = segment::parse(&p.payload).unwrap();
    assert_eq!((a.src_port, a.dst_port, a.seq, a.ack), (80, 4660, 0x01020304, 0x05060708));
    assert_eq!((a.flags, a.data_offset), (0x18, 20));
    assert_eq!(p.payload[14..16], [0xff, 0xff]);
    let mut summed = vec![10, 0, 2, 15, 10, 0, 2, 2, 0, 6, 0, 23];
    summed.extend_from_slice(&p.payload);
    assert_eq!(ipv4::checksum(&summed), 0);
}

#[test]
fn unreadable_segments() {
    let mut s = vec![0u8; 24];
    s[12] = 0x50;
    assert!(segment::parse(&s[..19]).is_none());
    assert_eq!(segment::parse(&s).unwrap().data_offset, 20);
    s[12] = 0x60;
    assert_eq!(segment::parse(&s).unwrap().data_offset, 24);
    s[12] = 0x70;
    assert!(segment::parse(&s).is_none());
    s[12] = 0x40;
    assert!(segment::parse(&s).is_none());
}

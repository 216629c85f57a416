//! The network card's registers and ring.

use oxidebsd::net::nic::NicError;
use oxidebsd::net::rtl8139::{
    allocate_contiguous_frames, bring_up, irq_fired, mac_port, probe, probe_and_init, reset_step,
    reset_writes, rtl8139_irq_handler, Candidate, IrqLatch, Probe, ProbeEvent, ProbeStep, ResetStep,
    Rtl8139,
};
use oxidebsd::port::PortWrite;

fn byte(port: u16, value: u8) -> PortWrite {
    PortWrite::Byte { port, value }
}

fn word(port: u16, value: u16) -> PortWrite {
    PortWrite::Word { port, value }
}

fn long(port: u16, value: u32) -> PortWrite {
    PortWrite::Long { port, value }
}

fn driver() -> Rtl8139 {
    bring_up(0xc000, [1, 2, 3, 4, 5, 6], 0x1_0000_5000, [0x6000, 0x7000, 0x8000, 0x9000]).0
}

#[test]
fn only_this_card_is_taken() {
    let good = Candidate { vendor_id: 0x10ec, device_id: 0x8139, io_bar: Some(0xc000) };
    assert_eq!(probe(Some(good)), Some(0xc000));
    assert_eq!(probe(Some(Candidate { io_bar: None, ..good })), None);
    assert_eq!(probe(Some(Candidate { vendor_id: 0x8086, ..good })), None);
    assert_eq!(probe(Some(Candidate { device_id: 0x8168, ..good })), None);
    assert_eq!(probe(None), None);
}

#[test]
fn reset_and_bring_up() {
    assert_eq!(reset_writes(0xc000), vec![byte(0xc052, 0), byte(0xc037, 0x10)]);
    assert_eq!(reset_step(0x10, 0), ResetStep::Again(1));
    assert_eq!(reset_step(0x10, 1_000_000), ResetStep::GiveUp);
    assert_eq!(reset_step(0x0d, 1_000_000), ResetStep::Done);
    assert_eq!(mac_port(0xc000, 5), 0xc005);
    let (d, writes) = bring_up(0xc000, [9; 6], 0x1_0000_5000, [0; 4]);
    assert_eq!(
        writes,
        vec![long(0xc030, 0x5000), long(0xc044, 0x8f), word(0xc03c, 5), byte(0xc037, 0x0c)]
    );
    assert_eq!(d.mac, [9; 6]);
    assert_eq!(d.rx_read_offset, 0);
}

#[test]
fn frames_must_follow_each_other() {
    assert_eq!(allocate_contiguous_frames(0, 0, Some(0x5000)), Some(0x5000));
    assert_eq!(allocate_contiguous_frames(0x5000, 1, Some(0x6000)), Some(0x5000));
    assert_eq!(allocate_contiguous_frames(0x5000, 2, Some(0x7000)), Some(0x5000));
    assert_eq!(allocate_contiguous_frames(0x5000, 1, Some(0x7000)), None);
    assert_eq!(allocate_contiguous_frames(0x5000, 1, None), None);
    assert_eq!(allocate_contiguous_frames(0, 0, None), None);
}

/// Plays a card whose reset takes two reads, with frames from `frames` in turn.
fn play(device: Option<Candidate>, frames: &[Option<u64>]) -> Option<(Rtl8139, Vec<PortWrite>)> {
    let mut step = probe_and_init(Probe::Begin, ProbeEvent::Device(device));
    let mut reads = 0;
    let mut given = 0;
    loop {
        step = match step {
            ProbeStep::GiveUp => return None,
            ProbeStep::Up(d, w) => return Some((d, w)),
            ProbeStep::Reset(p, w) => {
                assert_eq!(w.len(), 2);
                probe_and_init(p, ProbeEvent::Command(0x10))
            }
            ProbeStep::ReadCommand(p) => {
                reads += 1;
                probe_and_init(p, ProbeEvent::Command(if reads < 2 { 0x10 } else { 0 }))
            }
            ProbeStep::ReadMac(p, port) => {
                probe_and_init(p, ProbeEvent::MacByte((port - 0xc000 + 1) as u8))
            }
            ProbeStep::Allocate(p) => {
                given += 1;
                probe_and_init(p, ProbeEvent::Frame(frames[given - 1]))
            }
        };
    }
}

#[test]
fn card_is_brought_up() {
    let good = Candidate { vendor_id: 0x10ec, device_id: 0x8139, io_bar: Some(0xc000) };
    let frames: Vec<Option<u64>> =
        [0x5000, 0x6000, 0x7000, 0x9000, 0xb000, 0x1_0000_0000, 0xd000].map(Some).to_vec();
    let (d, w) = play(Some(good), &frames).unwrap();
    assert_eq!(d.io_base, 0xc000);
    assert_eq!(d.mac, [1, 2, 3, 4, 5, 6]);
    assert_eq!(d.tx_phys, [0x9000, 0xb000, 0x1_0000_0000, 0xd000]);
    assert_eq!(w[0], long(0xc030, 0x5000));
    assert!(play(None, &frames).is_none());
    let mut apart = frames.clone();
    apart[1] = Some(0xf000);
    assert!(play(Some(good), &apart).is_none());
    let mut short = frames.clone();
    short[6] = None;
    assert!(play(Some(good), &short).is_none());
    let dead = Probe::Resetting { io_base: 0xc000, attempts: 1_000_000 };
    assert!(matches!(probe_and_init(dead, ProbeEvent::Command(0x10)), ProbeStep::GiveUp));
}

#[test]
fn other_cards_are_left_alone() {
    let other = Candidate { vendor_id: 0x1af4, device_id: 0x1000, io_bar: Some(0xffe0) };
    let first = probe_and_init(Probe::Begin, ProbeEvent::Device(Some(other)));
    assert!(matches!(first, ProbeStep::GiveUp));
    let same_maker = Candidate { vendor_id: 0x10ec, ..other };
    let first = probe_and_init(Probe::Begin, ProbeEvent::Device(Some(same_maker)));
    assert!(matches!(first, ProbeStep::GiveUp));
    let last = Candidate { vendor_id: 0x10ec, device_id: 0x8139, io_bar: Some(0xffad) };
    let ProbeStep::Reset(p, w) = probe_and_init(Probe::Begin, ProbeEvent::Device(Some(last))) else {
        panic!("this card is taken");
    };
    assert_eq!(w, vec![byte(0xffff, 0), byte(0xffe4, 0x10)]);
    assert!(matches!(p, Probe::Resetting { io_base: 0xffad, attempts: 0 }));
}

#[test]
fn frames_go_out_from_four_buffers_in_turn() {
    let mut d = driver();
    let tsad = [0xc020, 0xc024, 0xc028, 0xc02c];
    let tsd = [0xc010, 0xc014, 0xc018, 0xc01c];
    let phys = [0x6000, 0x7000, 0x8000, 0x9000];
    for i in 0..8usize {
        let t = d.send(&[0xaa; 100]).ok().unwrap();
        assert_eq!(t.slot, i % 4);
        assert_eq!(t.bytes, vec![0xaa; 100]);
        assert_eq!(t.writes, vec![long(tsad[i % 4], phys[i % 4]), long(tsd[i % 4], 100)]);
    }
}

#[test]
fn short_frames_are_padded_and_long_ones_refused() {
    let mut d = driver();
    let t = d.send(&[1, 2, 3]).ok().unwrap();
    assert_eq!(t.bytes.len(), 60);
    assert_eq!(t.bytes[..4], [1, 2, 3, 0]);
    assert_eq!(t.writes[1], long(0xc010, 60));
    assert!(d.send(&[0; 4096]).is_ok());
    assert!(matches!(d.send(&[0; 4097]), Err(NicError::NoTxSlotAvailable)));
    assert_eq!(d.next_tx_slot, 2);
}

fn put(ring: &mut [u8], off: usize, frame: &[u8]) {
    let n = frame.len() + 4;
    ring[off] = 1;
    ring[off + 1] = 0;
    ring[off + 2] = (n % 256) as u8;
    ring[off + 3] = (n / 256) as u8;
    ring[off + 4..off + 4 + frame.len()].copy_from_slice(frame);
}

#[test]
fn ring_reads_back() {
    let mut d = driver();
    let mut ring = vec![0u8; 12288];
    put(&mut ring, 0, &[7; 61]);
    put(&mut ring, 72, &[8; 300]);
    assert!(d.poll_recv(0x01, &ring).is_none());
    let (frame, w) = d.poll_recv(0x0c, &ring).unwrap();
    assert_eq!(frame, vec![7; 61]);
    assert_eq!(d.rx_read_offset, 72);
    assert_eq!(w, word(0xc038, 56));
    let (frame, _) = d.poll_recv(0x0c, &ring).unwrap();
    assert_eq!(frame, vec![8; 300]);
    assert_eq!(d.rx_read_offset, 380);
}

#[test]
fn ring_goes_round() {
    let mut d = driver();
    let mut ring = vec![0u8; 12288];
    d.rx_read_offset = 8100;
    put(&mut ring, 8100, &[9; 84]);
    let (frame, w) = d.poll_recv(0x0c, &ring).unwrap();
    assert_eq!(frame, vec![9; 84]);
    assert_eq!(d.rx_read_offset, 0);
    assert_eq!(w, word(0xc038, 65520));
    d.rx_read_offset = 8100;
    put(&mut ring, 8100, &[9; 1500]);
    let (frame, w) = d.poll_recv(0x0c, &ring).unwrap();
    assert_eq!(frame, vec![9; 1500]);
    assert_eq!(d.rx_read_offset, 1416);
    assert_eq!(w, word(0xc038, 1400));
}

#[test]
fn broken_length_is_passed_over() {
    let mut d = driver();
    let ring = vec![0u8; 12288];
    let (frame, _) = d.poll_recv(0x0c, &ring).unwrap();
    assert!(frame.is_empty());
    assert_eq!(d.rx_read_offset, 4);
}

#[test]
fn interrupts_are_acknowledged_and_latched() {
    let mut l = IrqLatch { io_base: 0, fired: false };
    assert_eq!(rtl8139_irq_handler(&mut l, 5), None);
    assert!(!irq_fired(&mut l));
    l.io_base = 0xc000;
    assert_eq!(rtl8139_irq_handler(&mut l, 5), Some(word(0xc03e, 5)));
    assert!(irq_fired(&mut l));
    assert!(!irq_fired(&mut l));
}

//! Ports of the smaller devices, and random bytes.

use oxidebsd::pic;
use oxidebsd::pit;
use oxidebsd::port::PortWrite;
use oxidebsd::qemu::{exit_qemu, QemuExitCode};
use oxidebsd::random::{
    bytes_from, detect, draw_step, entropy_pool_snapshot, gather_seed, mix_entropy,
    oxidebsd_random_bytes, rdrand_available, rdseed_available, running_under_hypervisor,
    CpuFeatures, DrawStep, Entropy, Samples,
};
use oxidebsd::reboot;
use oxidebsd::serial::{SerialPort, COM1};

fn byte(port: u16, value: u8) -> PortWrite {
    PortWrite::Byte { port, value }
}

#[test]
fn controllers_are_remapped_and_keep_their_masks() {
    let w = pic::init(0xfb, 0xef);
    assert_eq!(w.len(), 18);
    let wait = byte(0x80, 0);
    assert_eq!(w[..8], [
        byte(0x20, 0x11), wait, byte(0xa0, 0x11), wait, byte(0x21, 32), wait, byte(0xa1, 40), wait,
    ]);
    assert_eq!(w[8..16], [
        byte(0x21, 4), wait, byte(0xa1, 2), wait, byte(0x21, 1), wait, byte(0xa1, 1), wait,
    ]);
    assert_eq!(w[16..], [byte(0x21, 0xfb), byte(0xa1, 0xef)]);
}

#[test]
fn end_of_interrupt() {
    assert_eq!(pic::notify_end_of_interrupt(32), vec![byte(0x20, 0x20)]);
    assert_eq!(pic::notify_end_of_interrupt(39), vec![byte(0x20, 0x20)]);
    assert_eq!(pic::notify_end_of_interrupt(40), vec![byte(0xa0, 0x20), byte(0x20, 0x20)]);
    assert_eq!(pic::notify_end_of_interrupt(47), vec![byte(0xa0, 0x20), byte(0x20, 0x20)]);
}

#[test]
fn timer_rate() {
    assert_eq!(pit::init(), vec![byte(0x43, 0x36), byte(0x40, 0x9b), byte(0x40, 0x2e)]);
    assert_eq!(0x2e9b, 1_193_182 / 100);
}

#[test]
fn endings() {
    assert_eq!(exit_qemu(QemuExitCode::Success), PortWrite::Long { port: 0xf4, value: 0x10 });
    assert_eq!(exit_qemu(QemuExitCode::Failed), PortWrite::Long { port: 0xf4, value: 0x11 });
    assert_eq!(reboot::reboot(0x02), None);
    assert_eq!(reboot::reboot(0xfd), Some(byte(0x64, 0xfe)));
    assert_eq!(reboot::poweroff(), PortWrite::Word { port: 0x604, value: 0x2000 });
}

#[test]
fn serial_port() {
    let p = SerialPort::new(COM1);
    let w = p.init();
    assert_eq!(w[0], byte(0x3f9, 0));
    assert_eq!(w[1], byte(0x3fb, 0x80));
    assert_eq!(w[2], byte(0x3f8, 3));
    assert_eq!(w[5], byte(0x3fa, 0xc7));
    assert_eq!(w[7], byte(0x3f9, 1));
    assert_eq!(p.send_raw(0x00, b'x'), None);
    assert_eq!(p.send_raw(0x20, b'x'), Some(byte(0x3f8, b'x')));
    assert_eq!(p.send(b'a'), vec![b'a']);
    assert_eq!(p.send(0x08), vec![8, 32, 8]);
    assert_eq!(p.write_str(b"a\x7fb"), vec![b'a', 8, 32, 8, b'b']);
    assert_eq!(p.write_str(b"plain"), b"plain".to_vec());
}

fn samples() -> Samples {
    Samples {
        tsc: 1,
        ticks: 2,
        epoch_seconds: 3,
        stack_addr: 4,
        rdrand: Some(5),
        rdseed: Some(6),
        pool_tsc: 7,
    }
}

const BARE: CpuFeatures = CpuFeatures { hypervisor: false, rdrand: true, rdseed: true };

#[test]
fn features_are_read() {
    let c = detect(0xc000_0000, 0x0004_0000);
    assert!(running_under_hypervisor(&c));
    assert!(!rdrand_available(&c));
    assert!(!rdseed_available(&c));
    let c = detect(0x4000_0000, 0);
    assert!(!running_under_hypervisor(&c));
    assert!(rdrand_available(&c));
    assert!(!rdseed_available(&c));
    assert!(rdseed_available(&detect(0, 0x0004_0000)));
}

#[test]
fn draws_are_tried_again() {
    assert_eq!(draw_step(10, Some(5)), DrawStep::Got(5));
    assert_eq!(draw_step(10, None), DrawStep::Again(9));
    assert_eq!(draw_step(1, None), DrawStep::GiveUp);
}

#[test]
fn pool_is_hashed() {
    let mut e = Entropy::new();
    assert_eq!(entropy_pool_snapshot(&e), [0u8; 32]);
    mix_entropy(&mut e, 0, 0);
    // SHA-256 of 48 zero bytes.
    assert_eq!(
        entropy_pool_snapshot(&e),
        [
            0x17, 0xb0, 0x76, 0x1f, 0x87, 0xb0, 0x81, 0xd5, 0xcf, 0x10, 0x75, 0x7c, 0xcc, 0x89,
            0xf1, 0x2b, 0xe3, 0x55, 0xc7, 0x0e, 0x2e, 0x29, 0xdf, 0x28, 0x8b, 0x65, 0xb3, 0x07,
            0x10, 0xdc, 0xbc, 0xd1,
        ]
    );
    let before = entropy_pool_snapshot(&e);
    mix_entropy(&mut e, 1, 0);
    assert_ne!(entropy_pool_snapshot(&e), before);
}

#[test]
fn keystream_of_the_zero_key() {
    let b = bytes_from(&[0u8; 32], 8);
    assert_eq!(b, vec![0x76, 0xb8, 0xe0, 0xad, 0xa0, 0xf1, 0x3d, 0x90]);
    let long = bytes_from(&[0u8; 32], 200);
    assert_eq!(long.len(), 200);
    assert_eq!(long[..8], b[..]);
    assert!(bytes_from(&[0u8; 32], 0).is_empty());
}

#[test]
fn calls_differ() {
    let mut e = Entropy::new();
    let a = oxidebsd_random_bytes(&mut e, &BARE, &samples(), 32);
    let b = oxidebsd_random_bytes(&mut e, &BARE, &samples(), 32);
    assert_eq!(a.len(), 32);
    assert_ne!(a, b);
    assert_eq!(e.calls, 2);
    assert_ne!(e.pool, [0u8; 32]);
    e.calls = u64::MAX;
    gather_seed(&mut e, &BARE, &samples());
    assert_eq!(e.calls, 0);
}

#[test]
fn seed_takes_everything_in() {
    let base = gather_seed(&mut Entropy::new(), &BARE, &samples());
    let s = samples();
    let changed = [
        Samples { tsc: 9, ..s },
        Samples { ticks: 9, ..s },
        Samples { epoch_seconds: 9, ..s },
        Samples { stack_addr: 9, ..s },
        Samples { rdrand: None, ..s },
        Samples { rdseed: Some(9), ..s },
    ];
    for c in changed {
        assert_ne!(gather_seed(&mut Entropy::new(), &BARE, &c), base);
    }
    let later = Samples { pool_tsc: 9, ..s };
    assert_eq!(gather_seed(&mut Entropy::new(), &BARE, &later), base);
}

#[test]
fn hypervisor_is_not_trusted() {
    let guest = CpuFeatures { hypervisor: true, ..BARE };
    let s = samples();
    let a = gather_seed(&mut Entropy::new(), &guest, &s);
    let b = gather_seed(&mut Entropy::new(), &guest, &Samples { rdrand: Some(99), rdseed: None, ..s });
    assert_eq!(a, b);
}

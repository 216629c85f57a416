//! What the devices are told and what random bytes are made of, byte by byte.

use vstd::prelude::*;

use crate::addr::canonical;
use crate::bytes::{le64, le64_bytes, lemma_le64};
use crate::port::PortWrite;
use crate::qemu::{code_of, status_of, QemuExitCode};
use crate::random::{
    mix_input, nonce_bytes, random_of, seed_input, stirred, CpuFeatures, Entropy, Samples,
};
use crate::serial::wire_all;

verus! {

// ---------------------------------------------------------------------------------------------
// Random bytes
// ---------------------------------------------------------------------------------------------
/// Everything that was sampled goes into a key: five numbers, then what the processor drew, each
/// draw only where the processor has the generator and no hypervisor stands between, then the
/// whole pool.
#[verifier::rlimit(60)]
pub proof fn law_everything_mixed_in(pool: Seq<u8>, calls: u64, cpu: CpuFeatures, s: Samples)
    ensures
        ({
            let a = seed_input(pool, calls, cpu, s);
            let r = if cpu.rdrand && !cpu.hypervisor && s.rdrand.is_some() {
                8int
            } else {
                0int
            };
            let e = if cpu.rdseed && !cpu.hypervisor && s.rdseed.is_some() {
                8int
            } else {
                0int
            };
            &&& a.len() == 40 + r + e + pool.len()
            &&& le64(a, 0) == s.tsc
            &&& le64(a, 8) == s.ticks
            &&& le64(a, 16) == s.epoch_seconds
            &&& le64(a, 24) == calls
            &&& le64(a, 32) == s.stack_addr
            &&& r == 8 ==> le64(a, 40) == s.rdrand->Some_0
            &&& e == 8 ==> le64(a, 40 + r) == s.rdseed->Some_0
            &&& a.subrange(40 + r + e, a.len() as int) == pool
        }),
{
    let a = seed_input(pool, calls, cpu, s);
    let v = le64_bytes(s.tsc);
    let w = le64_bytes(s.ticks);
    let x = le64_bytes(s.epoch_seconds);
    let y = le64_bytes(calls);
    let z = le64_bytes(s.stack_addr);
    let d = crate::random::draw_bytes(cpu.rdrand && !cpu.hypervisor, s.rdrand);
    let f = crate::random::draw_bytes(cpu.rdseed && !cpu.hypervisor, s.rdseed);
    assert(v.len() == 8 && w.len() == 8 && x.len() == 8 && y.len() == 8 && z.len() == 8);
    lemma_le64(s.tsc);
    lemma_le64(s.ticks);
    lemma_le64(s.epoch_seconds);
    lemma_le64(calls);
    lemma_le64(s.stack_addr);
    if d.len() > 0 {
        lemma_le64(s.rdrand->Some_0);
    }
    if f.len() > 0 {
        lemma_le64(s.rdseed->Some_0);
    }
    assert(d.len() == 0 || d.len() == 8);
    assert(f.len() == 0 || f.len() == 8);
    lemma_parts(v, w, x, y, z, d, f, pool);
}

/// Where the parts of an input lie.
proof fn lemma_parts(
    v: Seq<u8>,
    w: Seq<u8>,
    x: Seq<u8>,
    y: Seq<u8>,
    z: Seq<u8>,
    d: Seq<u8>,
    f: Seq<u8>,
    pool: Seq<u8>,
)
    requires
        v.len() == 8,
        w.len() == 8,
        x.len() == 8,
        y.len() == 8,
        z.len() == 8,
        d.len() == 0 || d.len() == 8,
        f.len() == 0 || f.len() == 8,
    ensures
        ({
            let a = v + w + x + y + z + d + f + pool;
            let n = d.len() as int;
            let m = f.len() as int;
            &&& a.len() == 40 + n + m + pool.len()
            &&& le64(a, 0) == le64(v, 0)
            &&& le64(a, 8) == le64(w, 0)
            &&& le64(a, 16) == le64(x, 0)
            &&& le64(a, 24) == le64(y, 0)
            &&& le64(a, 32) == le64(z, 0)
            &&& n == 8 ==> le64(a, 40) == le64(d, 0)
            &&& m == 8 ==> le64(a, 40 + n) == le64(f, 0)
            &&& a.subrange(40 + n + m, a.len() as int) == pool
        }),
{
    let a = v + w + x + y + z + d + f + pool;
    let none = Seq::<u8>::empty();
    assert(a =~= none + v + (w + x + y + z + d + f + pool));
    lemma_placed(none, v, w + x + y + z + d + f + pool);
    assert(a =~= v + w + (x + y + z + d + f + pool));
    lemma_placed(v, w, x + y + z + d + f + pool);
    assert(a =~= v + w + x + (y + z + d + f + pool));
    lemma_placed(v + w, x, y + z + d + f + pool);
    assert(a =~= v + w + x + y + (z + d + f + pool));
    lemma_placed(v + w + x, y, z + d + f + pool);
    assert(a =~= v + w + x + y + z + (d + f + pool));
    lemma_placed(v + w + x + y, z, d + f + pool);
    if d.len() == 8 {
        assert(a =~= v + w + x + y + z + d + (f + pool));
        lemma_placed(v + w + x + y + z, d, f + pool);
    }
    if f.len() == 8 {
        lemma_placed(v + w + x + y + z + d, f, pool);
    }
    assert(a.subrange(40 + d.len() as int + f.len() as int, a.len() as int) =~= pool);
}

/// A number of eight bytes is found where it was put.
proof fn lemma_placed(before: Seq<u8>, n: Seq<u8>, after: Seq<u8>)
    requires
        n.len() == 8,
    ensures
        le64(before + n + after, before.len() as int) == le64(n, 0),
{
    let a = before + n + after;
    let b = before.len() as int;
    assert(forall|i: int| 0 <= i < 8 ==> a[b + i] == n[i]);
    assert(a[b] == n[0] && a[b + 1] == n[1] && a[b + 2] == n[2] && a[b + 3] == n[3] && a[b + 4]
        == n[4] && a[b + 5] == n[5] && a[b + 6] == n[6] && a[b + 7] == n[7]);
}

/// An event goes into the pool with all that was there before.
pub proof fn law_event_mixed_in(pool: Seq<u8>, sample: u64, tsc: u64)
    ensures
        ({
            let a = mix_input(pool, sample, tsc);
            let n = pool.len() as int;
            &&& a.len() == n + 16
            &&& a.take(n) == pool
            &&& le64(a, n) == sample
            &&& le64(a, n + 8) == tsc
        }),
{
    let a = mix_input(pool, sample, tsc);
    let v = le64_bytes(sample);
    let w = le64_bytes(tsc);
    lemma_le64(sample);
    lemma_le64(tsc);
    lemma_placed(pool, v, w);
    assert(a =~= pool + v + w);
    lemma_placed(pool + v, w, Seq::empty());
    assert(a =~= pool + v + w + Seq::<u8>::empty());
    assert(a.take(pool.len() as int) =~= pool);
}

/// A call leaves another pool, made of the old one and the time, and counts itself.
pub proof fn law_call_stirs(before: Entropy, after: Entropy, tsc: u64)
    requires
        stirred(before, after, tsc),
    ensures
        before.calls < 0xffff_ffff_ffff_ffff ==> after.calls == before.calls + 1,
        before.calls == 0xffff_ffff_ffff_ffff ==> after.calls == 0,
        exists|input: Seq<u8>|
            {
                &&& after.pool@ == #[trigger] crate::random::sha256_of(input)
                &&& input.len() == before.pool@.len() + 8
                &&& input.take(before.pool@.len() as int) == before.pool@
                &&& le64(input, before.pool@.len() as int) == tsc
            },
{
    let v = le64_bytes(tsc);
    let input = before.pool@ + v;
    lemma_le64(tsc);
    lemma_placed(before.pool@, v, Seq::empty());
    assert(input =~= before.pool@ + v + Seq::<u8>::empty());
    assert(input.take(before.pool@.len() as int) =~= before.pool@);
    assert(after.pool@ == crate::random::sha256_of(input));
}

/// Random bytes are as many as were asked for, each the one of the keystream at its place.
pub proof fn law_random_bytes(key: Seq<u8>, len: nat, i: int)
    requires
        0 <= i < len,
    ensures
        random_of(key, len).len() == len,
        random_of(key, len)[i] == crate::random::chacha20_stream(key, nonce_bytes(), i),
        nonce_bytes().len() == 12,
        forall|j: int| 0 <= j < 12 ==> #[trigger] nonce_bytes()[j] == 0,
{
}

// ---------------------------------------------------------------------------------------------
// Ports
// ---------------------------------------------------------------------------------------------
/// What goes out on the serial line: every byte as it is, but a backspace or a delete as backspace,
/// blank and backspace.
pub proof fn law_line(b: u8)
    ensures
        b == 8 || b == 127 ==> wire_all(seq![b]) == seq![8u8, 32, 8],
        b != 8 && b != 127 ==> wire_all(seq![b]) == seq![b],
{
    assert(seq![b].drop_last() =~= Seq::<u8>::empty());
    assert(wire_all(Seq::<u8>::empty()) =~= Seq::<u8>::empty());
    assert(wire_all(seq![b]) =~= crate::serial::wire(b));
}

/// What the interrupt controllers are told last: the masks that they had.
pub proof fn law_masks_kept(m1: u8, m2: u8)
    ensures
        ({
            let w = crate::pic::init_writes(m1, m2);
            let b = |port: u16, value: u8| PortWrite::Byte { port, value };
            &&& w.len() == 18
            &&& w[0] == b(0x20, 0x11) && w[2] == b(0xa0, 0x11)
            &&& w[4] == b(0x21, 32) && w[6] == b(0xa1, 40)
            &&& w[8] == b(0x21, 4) && w[10] == b(0xa1, 2)
            &&& w[12] == b(0x21, 1) && w[14] == b(0xa1, 1)
            &&& w[16] == b(0x21, m1) && w[17] == b(0xa1, m2)
            &&& forall|i: int|
                0 <= i < 16 && i % 2 == 1 ==> #[trigger] w[i] == b(0x80, 0)
        }),
{
}

/// How a serial line is set up.
pub proof fn law_line_setup(base: u16)
    requires
        base <= 0xfff0,
    ensures
        ({
            let w = crate::serial::init_writes(base);
            let b = |off: int, value: u8| PortWrite::Byte { port: (base + off) as u16, value };
            &&& w.len() == 8
            &&& w[0] == b(1, 0) && w[1] == b(3, 0x80) && w[2] == b(0, 3) && w[3] == b(1, 0)
            &&& w[4] == b(3, 3) && w[5] == b(2, 0xc7) && w[6] == b(4, 0x0b) && w[7] == b(1, 1)
        }),
{
}

/// The rate of the timer: its divisor brings the input clock down to a hundred in a second, as
/// near from above as can be.
pub proof fn law_timer_rate()
    ensures
        crate::pit::divisor() * 100 <= 1_193_182 < (crate::pit::divisor() + 1) * 100,
        0 < crate::pit::divisor() < 65536,
{
}

/// How the emulator ends: success and failure by their numbers, told as twice the number and one.
pub proof fn law_endings(e: QemuExitCode)
    ensures
        status_of(code_of(e)) == (match e {
            QemuExitCode::Success => 33int,
            QemuExitCode::Failed => 35int,
        }),
{
}

/// Which addresses the processor takes: those whose upper seventeen bits are all equal.
pub proof fn law_canonical(addr: u64)
    ensures
        canonical(addr) <==> addr / 0x8000_0000_0000 == 0 || addr / 0x8000_0000_0000 == 0x1_ffff,
{
}

} // verus!

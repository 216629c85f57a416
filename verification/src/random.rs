//! Random bytes: diverse samples are hashed into a key, and a stream cipher under that key gives
//! the bytes.

use vstd::prelude::*;

use chacha20::cipher::{KeyIvInit, StreamCipher};
use chacha20::ChaCha20;
use sha2::{Digest, Sha256};

use crate::bytes::{le64, le64_bytes, lemma_le64, push_all, push_le64};

verus! {

// ---------------------------------------------------------------------------------------------
// Hash and cipher
// ---------------------------------------------------------------------------------------------
/// The SHA-256 digest of a message.
pub uninterp spec fn sha256_of(data: Seq<u8>) -> Seq<u8>;

/// Byte `at` of the ChaCha20 keystream (the variant with a 96-bit nonce) from its beginning.
pub uninterp spec fn chacha20_stream(key: Seq<u8>, nonce: Seq<u8>, at: int) -> u8;

/// Calls `Digest::digest` of `sha2::Sha256`, which hashes the whole message at once. Believed:
/// the digest is a function of the message alone.
#[verifier::external_body]
fn sha256(data: &[u8]) -> (r: [u8; 32])
    ensures
        r@ == sha256_of(data@),
{
    Sha256::digest(data).into()
}

/// The most bytes that one key gives: the cipher counts its 64-byte blocks in 32 bits.
pub const KEYSTREAM_MAX: u64 = 274_877_906_880;

/// Calls `KeyIvInit::new` and `StreamCipher::apply_keystream` of `chacha20::ChaCha20`, which
/// combine the buffer with the keystream from its beginning by exclusive or. Believed: the buffer
/// keeps its length, and each byte of the keystream is a function of key, nonce and position. The
/// cipher panics past the last block, hence the bound.
#[verifier::external_body]
fn apply_keystream(key: &[u8; 32], nonce: &[u8; 12], buf: &mut [u8])
    requires
        old(buf)@.len() <= KEYSTREAM_MAX,
    ensures
        final(buf)@.len() == old(buf)@.len(),
        forall|i: int|
            0 <= i < old(buf)@.len() ==> #[trigger] final(buf)@[i] == old(buf)@[i]
                ^ chacha20_stream(key@, nonce@, i),
{
    let mut cipher = ChaCha20::new(key.into(), nonce.into());
    cipher.apply_keystream(buf);
}

// ---------------------------------------------------------------------------------------------
// Hardware sources
// ---------------------------------------------------------------------------------------------
/// What the processor reports of itself, found out once.
#[derive(Debug, Clone, Copy, PartialEq, Eq, Structural)]
pub struct CpuFeatures {
    pub hypervisor: bool,
    pub rdrand: bool,
    pub rdseed: bool,
}

/// Reads the feature bits: of leaf 1, register `ecx`, bit 31 for a hypervisor and bit 30 for
/// RDRAND; of leaf 7, register `ebx`, bit 18 for RDSEED.
pub fn detect(leaf1_ecx: u32, leaf7_ebx: u32) -> (r: CpuFeatures)
    ensures
        r == (CpuFeatures {
            hypervisor: leaf1_ecx & 0x8000_0000 != 0,
            rdrand: leaf1_ecx & 0x4000_0000 != 0,
            rdseed: leaf7_ebx & 0x0004_0000 != 0,
        }),
{
    CpuFeatures {
        hypervisor: leaf1_ecx & 0x8000_0000 != 0,
        rdrand: leaf1_ecx & 0x4000_0000 != 0,
        rdseed: leaf7_ebx & 0x0004_0000 != 0,
    }
}

/// Whether a hypervisor stands between the kernel and the processor.
pub fn running_under_hypervisor(cpu: &CpuFeatures) -> (r: bool)
    ensures
        r == cpu.hypervisor,
{
    cpu.hypervisor
}

/// Whether RDRAND is there and can be trusted: a hypervisor could make up what it returns.
pub fn rdrand_available(cpu: &CpuFeatures) -> (r: bool)
    ensures
        r == (cpu.rdrand && !cpu.hypervisor),
{
    cpu.rdrand && !running_under_hypervisor(cpu)
}

/// Whether RDSEED is there and can be trusted.
pub fn rdseed_available(cpu: &CpuFeatures) -> (r: bool)
    ensures
        r == (cpu.rdseed && !cpu.hypervisor),
{
    cpu.rdseed && !running_under_hypervisor(cpu)
}

/// How often RDRAND is tried.
pub const RDRAND_TRIES: u32 = 10;

/// How often RDSEED is tried.
pub const RDSEED_TRIES: u32 = 32;

/// Where a draw from the processor stands.
#[derive(Debug, Clone, Copy, PartialEq, Eq, Structural)]
pub enum DrawStep {
    Got(u64),
    /// Draw again, with this many tries left.
    Again(u32),
    GiveUp,
}

/// Looks at one draw, which was one of the `left` tries.
pub fn draw_step(left: u32, drawn: Option<u64>) -> (r: DrawStep)
    ensures
        r == (match drawn {
            Some(v) => DrawStep::Got(v),
            None => if left > 1 {
                DrawStep::Again((left - 1) as u32)
            } else {
                DrawStep::GiveUp
            },
        }),
{
    match drawn {
        Some(v) => DrawStep::Got(v),
        None => if left > 1 {
            DrawStep::Again(left - 1)
        } else {
            DrawStep::GiveUp
        },
    }
}

// ---------------------------------------------------------------------------------------------
// The pool
// ---------------------------------------------------------------------------------------------
/// What lasts between calls: the pool, and how many keys were made.
pub struct Entropy {
    pub pool: [u8; 32],
    pub calls: u64,
}

impl Entropy {
    /// The state at boot.
    pub fn new() -> (r: Self)
        ensures
            r.pool@ == Seq::new(32, |i: int| 0u8),
            r.calls == 0,
    {
        let r = Entropy { pool: [0u8;32], calls: 0 };
        assert(r.pool@ =~= Seq::new(32, |i: int| 0u8));
        r
    }
}

/// What is hashed when an event at cycle `tsc` is mixed in.
pub open spec fn mix_input(pool: Seq<u8>, sample: u64, tsc: u64) -> Seq<u8> {
    pool + le64_bytes(sample) + le64_bytes(tsc)
}

/// Mixes an event from outside into the pool: something about it, and the cycle at which it came.
pub fn mix_entropy(e: &mut Entropy, sample: u64, tsc: u64)
    ensures
        final(e).pool@ == sha256_of(mix_input(old(e).pool@, sample, tsc)),
        final(e).calls == old(e).calls,
{
    let mut input: Vec<u8> = Vec::new();
    push_all(&mut input, e.pool.as_slice());
    push_le64(&mut input, sample);
    push_le64(&mut input, tsc);
    assert(input@ =~= mix_input(e.pool@, sample, tsc));
    e.pool = sha256(input.as_slice());
}

/// The pool as it is.
pub fn entropy_pool_snapshot(e: &Entropy) -> (r: [u8; 32])
    ensures
        r@ == e.pool@,
{
    e.pool
}

/// What is sampled for one key.
#[derive(Debug, Clone, Copy, PartialEq, Eq, Structural)]
pub struct Samples {
    pub tsc: u64,
    pub ticks: u64,
    pub epoch_seconds: u64,
    pub stack_addr: u64,
    pub rdrand: Option<u64>,
    pub rdseed: Option<u64>,
    pub pool_tsc: u64,
}

/// A draw from the processor, where it was made and can be trusted.
pub open spec fn draw_bytes(trusted: bool, drawn: Option<u64>) -> Seq<u8> {
    match drawn {
        Some(v) => if trusted {
            le64_bytes(v)
        } else {
            Seq::empty()
        },
        None => Seq::empty(),
    }
}

/// What is hashed into a key.
pub open spec fn seed_input(pool: Seq<u8>, calls: u64, cpu: CpuFeatures, s: Samples) -> Seq<u8> {
    le64_bytes(s.tsc) + le64_bytes(s.ticks) + le64_bytes(s.epoch_seconds) + le64_bytes(calls)
        + le64_bytes(s.stack_addr) + draw_bytes(cpu.rdrand && !cpu.hypervisor, s.rdrand)
        + draw_bytes(cpu.rdseed && !cpu.hypervisor, s.rdseed) + pool
}

/// The key of a call.
pub open spec fn seed_of(e: Entropy, cpu: CpuFeatures, s: Samples) -> Seq<u8> {
    sha256_of(seed_input(e.pool@, e.calls, cpu, s))
}

/// The number of the call after call number `calls`.
pub open spec fn next_call(calls: u64) -> u64 {
    if calls == u64::MAX {
        0
    } else {
        (calls + 1) as u64
    }
}

/// Whether `after` is what a call leaves of `before`: the pool is stirred, and the call counted.
pub open spec fn stirred(before: Entropy, after: Entropy, pool_tsc: u64) -> bool {
    &&& after.pool@ == sha256_of(before.pool@ + le64_bytes(pool_tsc))
    &&& after.calls == next_call(before.calls)
}

/// Hashes the samples of a call, its number and the pool into a key, and stirs the pool.
pub fn gather_seed(e: &mut Entropy, cpu: &CpuFeatures, s: &Samples) -> (r: [u8; 32])
    ensures
        r@ == seed_of(*old(e), *cpu, *s),
        stirred(*old(e), *final(e), s.pool_tsc),
{
    let mut input: Vec<u8> = Vec::new();
    push_le64(&mut input, s.tsc);
    push_le64(&mut input, s.ticks);
    push_le64(&mut input, s.epoch_seconds);
    push_le64(&mut input, e.calls);
    push_le64(&mut input, s.stack_addr);
    if rdrand_available(cpu) {
        if let Some(v) = s.rdrand {
            push_le64(&mut input, v);
        }
    }
    if rdseed_available(cpu) {
        if let Some(v) = s.rdseed {
            push_le64(&mut input, v);
        }
    }
    push_all(&mut input, e.pool.as_slice());
    assert(input@ =~= seed_input(e.pool@, e.calls, *cpu, *s));
    let mut reseed: Vec<u8> = Vec::new();
    push_all(&mut reseed, e.pool.as_slice());
    push_le64(&mut reseed, s.pool_tsc);
    assert(reseed@ =~= e.pool@ + le64_bytes(s.pool_tsc));
    e.pool = sha256(reseed.as_slice());
    e.calls = if e.calls == u64::MAX {
        0
    } else {
        e.calls + 1
    };
    sha256(input.as_slice())
}

/// The nonce, which need not change: no key is used twice.
pub open spec fn nonce_bytes() -> Seq<u8> {
    Seq::new(12, |i: int| 0u8)
}

/// The first `len` bytes of the keystream of a key.
pub open spec fn random_of(key: Seq<u8>, len: nat) -> Seq<u8> {
    Seq::new(len, |i: int| chacha20_stream(key, nonce_bytes(), i))
}

/// The bytes that a key gives.
pub fn bytes_from(key: &[u8; 32], len: u64) -> (r: Vec<u8>)
    requires
        len <= KEYSTREAM_MAX,
        len <= usize::MAX,
    ensures
        r@ == random_of(key@, len as nat),
{
    let nonce: [u8; 12] = [0u8;12];
    assert(nonce@ =~= nonce_bytes());
    let mut buf: Vec<u8> = Vec::new();
    let mut i: u64 = 0;
    while i < len
        invariant
            i <= len,
            buf@ == Seq::new(i as nat, |j: int| 0u8),
        decreases len - i,
    {
        buf.push(0);
        i += 1;
        assert(buf@ =~= Seq::new(i as nat, |j: int| 0u8));
    }
    apply_keystream(key, &nonce, buf.as_mut_slice());
    proof {
        assert forall|j: int| 0 <= j < buf@.len() implies #[trigger] buf@[j] == chacha20_stream(
            key@,
            nonce_bytes(),
            j,
        ) by {
            let b = chacha20_stream(key@, nonce_bytes(), j);
            assert(0u8 ^ b == b) by (bit_vector);
        }
        assert(buf@ =~= random_of(key@, len as nat));
    }
    buf
}

/// Makes `len` random bytes.
pub fn oxidebsd_random_bytes(e: &mut Entropy, cpu: &CpuFeatures, s: &Samples, len: u64) -> (r: Vec<
    u8,
>)
    requires
        len <= KEYSTREAM_MAX,
        len <= usize::MAX,
    ensures
        r@ == random_of(seed_of(*old(e), *cpu, *s), len as nat),
        stirred(*old(e), *final(e), s.pool_tsc),
{
    let key = gather_seed(e, cpu, s);
    bytes_from(&key, len)
}

// ---------------------------------------------------------------------------------------------
// Laws
// ---------------------------------------------------------------------------------------------
/// Two calls with different numbers never hash the same input, whatever else they sampled.
pub proof fn law_inputs_differ(
    pool1: Seq<u8>,
    calls1: u64,
    cpu1: CpuFeatures,
    s1: Samples,
    pool2: Seq<u8>,
    calls2: u64,
    cpu2: CpuFeatures,
    s2: Samples,
)
    requires
        calls1 != calls2,
    ensures
        seed_input(pool1, calls1, cpu1, s1) != seed_input(pool2, calls2, cpu2, s2),
{
    let a = seed_input(pool1, calls1, cpu1, s1);
    let b = seed_input(pool2, calls2, cpu2, s2);
    assert(a.subrange(24, 32) =~= le64_bytes(calls1));
    assert(b.subrange(24, 32) =~= le64_bytes(calls2));
    lemma_le64(calls1);
    lemma_le64(calls2);
    if a == b {
        assert(le64(a.subrange(24, 32), 0) == calls1);
        assert(le64(b.subrange(24, 32), 0) == calls2);
    }
}

/// Every call gets a number of its own, until all of them are used up.
pub proof fn law_calls_counted(calls: u64)
    requires
        calls < u64::MAX,
    ensures
        next_call(calls) > calls,
{
}

/// Under a hypervisor the key does not depend on what the processor's generators returned.
pub proof fn law_hypervisor_distrusted(
    e: Entropy,
    cpu: CpuFeatures,
    s: Samples,
    rdrand: Option<u64>,
    rdseed: Option<u64>,
)
    requires
        cpu.hypervisor,
    ensures
        seed_of(e, cpu, Samples { rdrand, rdseed, ..s }) == seed_of(e, cpu, s),
{
    assert(draw_bytes(false, rdrand) =~= draw_bytes(false, s.rdrand));
    assert(draw_bytes(false, rdseed) =~= draw_bytes(false, s.rdseed));
}

/// A shorter request under the same key gives the beginning of a longer one.
pub proof fn law_prefix(key: Seq<u8>, short: nat, long: nat)
    requires
        short <= long,
    ensures
        random_of(key, short) == random_of(key, long).take(short as int),
{
    assert(random_of(key, short) =~= random_of(key, long).take(short as int));
}

} // verus!

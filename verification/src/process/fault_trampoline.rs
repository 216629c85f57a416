//! A page of code that every program has at a fixed address. A fault sends the program there, and
//! the code makes a system call, which is where signals are delivered.

use vstd::prelude::*;
use crate::bytes::{le32_bytes, le64_bytes, push_le32, push_le64};

verus! {

/// Where the page is.
pub const FAULT_TRAMPOLINE_VA: u64 = 0x1fff_ffff_f000;
/// The length of the code.
pub const CODE_LEN: u64 = 19;
/// Where on the page the code saves the register that it overwrites.
pub const RAX_SCRATCH_OFFSET: u64 = 0x100;

/// The code: save `rax`, load the number of the system call, make the call, and trap if it
/// returns.
pub open spec fn code_for(call: u32) -> Seq<u8> {
    seq![0x48u8, 0xa3] + le64_bytes(0x1fff_ffff_f100) + seq![0xb8u8] + le32_bytes(call) + seq![
        0x0fu8,
        0x05,
        0x0f,
        0x0b,
    ]
}

/// The contents of the page: the code, then zeros.
pub fn map(call: u32) -> (r: Vec<u8>)
    ensures
        r@.len() == 4096,
        r@.take(CODE_LEN as int) == code_for(call),
        forall|i: int| CODE_LEN <= i < 4096 ==> r@[i] == 0,
{
    let mut out: Vec<u8> = Vec::new();
    out.push(0x48);
    out.push(0xa3);
    push_le64(&mut out, FAULT_TRAMPOLINE_VA + RAX_SCRATCH_OFFSET);
    out.push(0xb8);
    push_le32(&mut out, call);
    out.push(0x0f);
    out.push(0x05);
    out.push(0x0f);
    out.push(0x0b);
    assert(out@ =~= code_for(call));
    while out.len() < 4096
        invariant
            CODE_LEN <= out@.len() <= 4096,
            out@.take(CODE_LEN as int) == code_for(call),
            forall|i: int| CODE_LEN <= i < out@.len() ==> out@[i] == 0,
        decreases 4096 - out@.len(),
    {
        let ghost before = out@;
        out.push(0);
        assert(out@.take(CODE_LEN as int) =~= before.take(CODE_LEN as int));
    }
    out
}

/// Whether a program is inside the code, where it must not be interrupted.
pub fn inside(rip: u64) -> (r: bool)
    ensures
        r <==> FAULT_TRAMPOLINE_VA <= rip < FAULT_TRAMPOLINE_VA + CODE_LEN,
{
    rip >= FAULT_TRAMPOLINE_VA && rip < FAULT_TRAMPOLINE_VA + CODE_LEN
}

} // verus!

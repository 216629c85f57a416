//! Virtual addresses.

use vstd::prelude::*;
use x86_64::VirtAddr;

verus! {

/// The bytes of a page.
pub const PAGE_SIZE: u64 = 4096;

/// Whether the upper seventeen bits of `addr` are all equal, as the processor wants them.
pub open spec fn canonical(addr: u64) -> bool {
    addr < 0x8000_0000_0000 || addr >= 0xffff_8000_0000_0000
}

/// Calls `x86_64::VirtAddr::try_new`, which accepts an address exactly if sign-extending it from
/// bit 47 leaves it unchanged.
#[verifier::external_body]
pub(crate) fn is_canonical(addr: u64) -> (r: bool)
    ensures
        r == canonical(addr),
{
    VirtAddr::try_new(addr).is_ok()
}

/// `addr` rounded down to the start of its page.
pub open spec fn page_floor(addr: u64) -> int {
    addr - addr % PAGE_SIZE
}

/// The number of pages that hold `len` bytes.
pub open spec fn pages_for(len: u64) -> int {
    (len + PAGE_SIZE - 1) / PAGE_SIZE as int
}

/// The number of pages that hold `len` bytes.
pub fn page_count(len: u64) -> (r: u64)
    ensures
        r == pages_for(len),
        r * PAGE_SIZE >= len,
        r * PAGE_SIZE < len + PAGE_SIZE,
{
    if len % PAGE_SIZE == 0 {
        len / PAGE_SIZE
    } else {
        len / PAGE_SIZE + 1
    }
}

} // verus!

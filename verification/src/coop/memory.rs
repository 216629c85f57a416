//! Anonymous mappings and the heap.

use vstd::prelude::*;

use crate::addr::{page_count, page_floor, pages_for, PAGE_SIZE};
use crate::coop::{
    can_run, coop_ok, with_proc, Coop, CoopView, Pid, ProcState, ProcView, MMAP_REGION_CEILING,
};
use crate::errno::{EINVAL, ENOMEM};
use crate::ordmap::group_map_views;
use crate::process::mm::{page_ceil, BrkPlan, BRK_REGION_CEILING};

verus! {

broadcast use group_map_views;

/// The bytes that a mapping of `len` bytes takes up.
pub open spec fn region_len(len: u64) -> int {
    pages_for(len) * PAGE_SIZE
}

/// The kernel after addresses for `len` bytes were given out.
pub open spec fn reserved(s: CoopView, len: u64) -> CoopView {
    CoopView { next_mmap: (s.next_mmap + region_len(len)) as u64, ..s }
}

/// Gives out addresses for a mapping of `len` bytes, whatever address and protection were asked
/// for: its pages are then backed with zeroed frames, and `crate::process::mm::mmap_result` is the
/// answer.
pub fn do_mmap(k: &mut Coop, addr_hint: u64, len: u64, prot: u64) -> (r: Result<u64, u64>)
    requires
        old(k).wf(),
        len <= u64::MAX - 4095,
    ensures
        final(k).wf(),
        ({
            let s = old(k)@;
            if len == 0 {
                r == Err::<u64, u64>(EINVAL) && final(k)@ == s
            } else if s.next_mmap + region_len(len) > MMAP_REGION_CEILING {
                r == Err::<u64, u64>(ENOMEM) && final(k)@ == s
            } else {
                r == Ok::<u64, u64>(s.next_mmap) && final(k)@ == reserved(s, len)
            }
        }),
{
    if len == 0 {
        return Err(EINVAL);
    }
    let region: u64 = page_count(len) * PAGE_SIZE;
    let base: u64 = k.next_mmap;
    if region > MMAP_REGION_CEILING - base {
        return Err(ENOMEM);
    }
    k.next_mmap = base + region;
    Ok(base)
}

/// Changes nothing: addresses are not used again.
pub fn do_munmap(addr: u64, len: u64) -> (r: Result<u64, u64>)
    ensures
        r == Ok::<u64, u64>(0),
{
    Ok(0)
}

/// The kernel with the heap of `pid` ending at `top`.
pub open spec fn with_brk(s: CoopView, pid: Pid, top: u64) -> CoopView {
    with_proc(s, pid, ProcView { brk: top, ..s.procs[pid] })
}

proof fn lemma_with_brk(s: CoopView, pid: Pid, top: u64)
    requires
        coop_ok(s),
        s.procs.contains_key(pid),
    ensures
        coop_ok(with_brk(s, pid, top)),
{
    let t = with_brk(s, pid, top);
    assert forall|i: int| 0 <= i < t.ready.len() implies {
        let q = #[trigger] t.ready[i];
        &&& t.procs.contains_key(q)
        &&& can_run(t.procs[q].state)
        &&& q == t.current ==> t.procs[q].state == ProcState::Ready
    } by {
        assert(t.ready[i] == s.ready[i]);
    }
    assert forall|q: Pid| #[trigger] t.procs.contains_key(q) implies t.procs[q].pid == q && 1 <= q
        < t.next_pid by {
        assert(s.procs.contains_key(q));
    }
}

/// Moves the end of the caller's heap to `addr`; `0` asks where it is.
pub fn do_brk(k: &mut Coop, caller_pid: Pid, addr: u64) -> (r: BrkPlan)
    requires
        old(k).wf(),
        old(k)@.procs.contains_key(caller_pid),
    ensures
        final(k).wf(),
        ({
            let s = old(k)@;
            let top = s.procs[caller_pid].brk;
            if addr == 0 {
                r == BrkPlan::Done(Ok(top)) && final(k)@ == s
            } else if addr <= top {
                r == BrkPlan::Done(Ok(addr)) && final(k)@ == with_brk(s, caller_pid, addr)
            } else if addr > BRK_REGION_CEILING {
                r == BrkPlan::Done(Err(ENOMEM)) && final(k)@ == s
            } else if addr <= page_ceil(top) {
                r == BrkPlan::Done(Ok(addr)) && final(k)@ == with_brk(s, caller_pid, addr)
            } else {
                &&& r == (BrkPlan::Grow {
                    first_page: page_ceil(top) as u64,
                    last_page: page_floor((addr - 1) as u64) as u64,
                    new_top: addr,
                })
                &&& final(k)@ == s
            }
        }),
{
    let ghost s = k@;
    proof {
        lemma_with_brk(s, caller_pid, addr);
    }
    if let Some(p) = k.procs.get_mut(caller_pid) {
        let top: u64 = p.brk;
        if addr == 0 {
            assert(k@.procs =~= s.procs);
            return BrkPlan::Done(Ok(top));
        }
        if addr <= top {
            p.brk = addr;
            assert(k@ == with_brk(s, caller_pid, addr));
            return BrkPlan::Done(Ok(addr));
        }
        if addr > BRK_REGION_CEILING {
            assert(k@.procs =~= s.procs);
            return BrkPlan::Done(Err(ENOMEM));
        }
        let map_start: u64 = page_count(top) * PAGE_SIZE;
        if addr <= map_start {
            p.brk = addr;
            assert(k@ == with_brk(s, caller_pid, addr));
            return BrkPlan::Done(Ok(addr));
        }
        assert(k@.procs =~= s.procs);
        let last: u64 = addr - 1;
        BrkPlan::Grow {
            first_page: map_start,
            last_page: last - last % PAGE_SIZE,
            new_top: addr,
        }
    } else {
        BrkPlan::Done(Err(ENOMEM))
    }
}

/// Finishes growing a heap once its pages were, or could not be, backed.
pub fn complete_brk(k: &mut Coop, caller_pid: Pid, new_top: u64, backed: bool) -> (r: Result<
    u64,
    u64,
>)
    requires
        old(k).wf(),
        old(k)@.procs.contains_key(caller_pid),
    ensures
        final(k).wf(),
        backed ==> r == Ok::<u64, u64>(new_top) && final(k)@ == with_brk(
            old(k)@,
            caller_pid,
            new_top,
        ),
        !backed ==> r == Err::<u64, u64>(ENOMEM) && final(k)@ == old(k)@,
{
    if !backed {
        return Err(ENOMEM);
    }
    let ghost s = k@;
    proof {
        lemma_with_brk(s, caller_pid, new_top);
    }
    if let Some(p) = k.procs.get_mut(caller_pid) {
        p.brk = new_top;
    }
    assert(k@ == with_brk(s, caller_pid, new_top));
    Ok(new_top)
}

/// Mappings never overlap: addresses that were given out lie below those that are given out later,
/// with room for all that was asked for in between.
pub proof fn law_mappings_apart(s: CoopView, len: u64)
    requires
        coop_ok(s),
        len > 0,
        s.next_mmap + region_len(len) <= MMAP_REGION_CEILING,
    ensures
        s.next_mmap + len <= reserved(s, len).next_mmap,
        coop_ok(reserved(s, len)),
{
    let t = reserved(s, len);
    assert forall|i: int| 0 <= i < t.ready.len() implies {
        let q = #[trigger] t.ready[i];
        &&& t.procs.contains_key(q)
        &&& can_run(t.procs[q].state)
        &&& q == t.current ==> t.procs[q].state == ProcState::Ready
    } by {
        assert(t.ready[i] == s.ready[i]);
    }
}

/// A heap that shrinks and grows back within its last page needs no new page.
pub proof fn law_brk_returns(top: u64, low: u64)
    requires
        0 < low <= top,
        pages_for(low) == pages_for(top),
    ensures
        top <= page_ceil(low),
{
}

} // verus!

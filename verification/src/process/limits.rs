//! Limits, priorities, scheduling attributes and futexes.

use vstd::prelude::*;
use crate::bytes::le64_bytes;
use crate::errno::{EAGAIN, EINTR, EINVAL, EPERM, ETIMEDOUT};
use crate::process::identity::{resolve_target_pid, target_of};
use crate::process::scheduler::{
    enqueue_ready, made_ready, pick_outcome, reap_spaces, reaped, requeued, runnable, schedule,
    tgid_of, SchedAction,
};
use crate::process::signals::{blocked_on, signal_waiting};
use crate::process::timers::{deadline_after, timespec_to_ticks, valid_timespec, TIMER_HZ};
use crate::process::{
    clamped, with_proc, BlockReason, Kernel, KernelView, Pid, ProcState, ProcView,
};

verus! {

broadcast use crate::process::group_views;

/// How many resources have a limit.
pub const RLIM_NLIMITS: u64 = 16;
/// A priority is that of one process.
pub const PRIO_PROCESS: u64 = 0;
pub const SCHED_OTHER: i32 = 0;
pub const SCHED_FIFO: i32 = 1;
pub const SCHED_RR: i32 = 2;
pub const SCHED_BATCH: i32 = 3;
pub const SCHED_IDLE: i32 = 5;
pub const SCHED_DEADLINE: i32 = 6;
/// The policy every process starts with.
pub const SCHED_RR_DEFAULT: i32 = 2;

/// `s` with another limit for a resource of `pid`.
pub open spec fn with_limit(s: KernelView, pid: Pid, resource: u64, limit: (u64, u64)) -> KernelView {
    let p = s.procs[pid];
    with_proc(s, pid, ProcView { rlimits: p.rlimits.update(resource as int, limit), ..p })
}

/// Sets a limit, if one is given, and returns the one there was.
pub fn do_prlimit64(
    k: &mut Kernel,
    caller_pid: Pid,
    pid: i64,
    resource: u64,
    new: Option<(u64, u64)>,
) -> (r: Result<(u64, u64), u64>)
    requires
        old(k).wf(),
        resource < RLIM_NLIMITS && pid == 0 ==> old(k)@.procs.contains_key(caller_pid),
    ensures
        final(k).wf(),
        if resource >= RLIM_NLIMITS {
            r == Err::<(u64, u64), u64>(EINVAL) && final(k)@ == old(k)@
        } else {
            match target_of(old(k)@, caller_pid, pid) {
                Err(e) => r == Err::<(u64, u64), u64>(e) && final(k)@ == old(k)@,
                Ok(t) => {
                    &&& r == Ok::<(u64, u64), u64>(old(k)@.procs[t].rlimits[resource as int])
                    &&& final(k)@ == match new {
                        Some(l) => with_limit(old(k)@, t, resource, l),
                        None => old(k)@,
                    }
                },
            }
        },
{
    let ghost before = k@;
    if resource >= RLIM_NLIMITS {
        return Err(EINVAL);
    }
    let target: Pid = match resolve_target_pid(k, caller_pid, pid) {
        Ok(t) => t,
        Err(e) => {
            return Err(e);
        },
    };
    let mut was: (u64, u64) = (0, 0);
    if let Some(p) = k.procs.get_mut(target) {
        was = p.rlimits[resource as usize];
        if let Some(l) = new {
            p.rlimits[resource as usize] = l;
        }
    }
    proof {
        match new {
            Some(l) => {
                assert(k@ =~= with_limit(before, target, resource, l));
            },
            None => {
                assert(k@ =~= before);
            },
        }
    }
    Ok(was)
}

/// `s` with another nice value for `pid`.
pub open spec fn with_nice(s: KernelView, pid: Pid, nice: i32) -> KernelView {
    with_proc(s, pid, ProcView { nice, ..s.procs[pid] })
}

/// What setting a nice value answers.
pub open spec fn setpriority_answer(s: KernelView, caller: Pid, which: u64, who: i64) -> Result<
    u64,
    u64,
> {
    if which != PRIO_PROCESS {
        Err(EINVAL)
    } else {
        match target_of(s, caller, who) {
            Err(e) => Err(e),
            Ok(t) => Ok(0),
        }
    }
}

/// `s` after a nice value was set, brought into `-20..=19`.
pub open spec fn priority_set(s: KernelView, caller: Pid, which: u64, who: i64, prio: i32) -> KernelView {
    match (setpriority_answer(s, caller, which, who), target_of(s, caller, who)) {
        (Ok(_), Ok(t)) => with_nice(s, t, clamped(prio as int, -20, 19) as i32),
        _ => s,
    }
}

/// What asking for a nice value answers: the value, taken from twenty so that it is never negative.
pub open spec fn getpriority_answer(s: KernelView, caller: Pid, which: u64, who: i64) -> Result<
    u64,
    u64,
> {
    if which != PRIO_PROCESS {
        Err(EINVAL)
    } else {
        match target_of(s, caller, who) {
            Err(e) => Err(e),
            Ok(t) => Ok((20 - s.procs[t].nice) as u64),
        }
    }
}

/// Sets the nice value of a process, brought into `-20..=19`.
pub fn do_setpriority(k: &mut Kernel, caller_pid: Pid, which: u64, who: i64, prio: i32) -> (r: Result<
    u64,
    u64,
>)
    requires
        old(k).wf(),
        which == PRIO_PROCESS && who == 0 ==> old(k)@.procs.contains_key(caller_pid),
    ensures
        final(k).wf(),
        r == setpriority_answer(old(k)@, caller_pid, which, who),
        final(k)@ == priority_set(old(k)@, caller_pid, which, who, prio),
{
    let ghost before = k@;
    if which != PRIO_PROCESS {
        return Err(EINVAL);
    }
    let target: Pid = match resolve_target_pid(k, caller_pid, who) {
        Ok(t) => t,
        Err(e) => {
            return Err(e);
        },
    };
    let nice: i32 = if prio < -20 {
        -20
    } else if prio > 19 {
        19
    } else {
        prio
    };
    if let Some(p) = k.procs.get_mut(target) {
        p.nice = nice;
    }
    assert(k@ =~= with_nice(before, target, nice));
    Ok(0)
}

/// The nice value of a process, taken from twenty so that it is never negative.
pub fn do_getpriority(k: &Kernel, caller_pid: Pid, which: u64, who: i64) -> (r: Result<u64, u64>)
    requires
        k.wf(),
        which == PRIO_PROCESS && who == 0 ==> k@.procs.contains_key(caller_pid),
    ensures
        r == getpriority_answer(k@, caller_pid, which, who),
{
    if which != PRIO_PROCESS {
        return Err(EINVAL);
    }
    let target: Pid = match resolve_target_pid(k, caller_pid, who) {
        Ok(t) => t,
        Err(e) => {
            return Err(e);
        },
    };
    match k.procs.get(target) {
        Some(p) => {
            assert(k@.procs.contains_key(target));
            Ok((20 - p.nice) as u64)
        },
        None => Ok(20),
    }
}

/// The permission bits of a file mode.
pub const MODE_MASK: u32 = 511;

/// Sets the file creation mask and returns the one there was.
pub fn do_umask(k: &mut Kernel, caller_pid: Pid, new_mask: u32) -> (r: Result<u64, u64>)
    requires
        old(k).wf(),
        old(k)@.procs.contains_key(caller_pid),
    ensures
        final(k).wf(),
        r == Ok::<u64, u64>(old(k)@.procs[caller_pid].umask as u64),
        final(k)@ == with_proc(
            old(k)@,
            caller_pid,
            ProcView { umask: new_mask & MODE_MASK, ..old(k)@.procs[caller_pid] },
        ),
{
    let ghost before = k@;
    let mut was: u32 = 0;
    if let Some(p) = k.procs.get_mut(caller_pid) {
        was = p.umask;
        p.umask = new_mask & MODE_MASK;
    }
    assert(k@ =~= with_proc(
        before,
        caller_pid,
        ProcView { umask: new_mask & MODE_MASK, ..before.procs[caller_pid] },
    ));
    Ok(was as u64)
}

/// A policy that exists.
pub open spec fn known_policy(policy: i32) -> bool {
    policy == SCHED_OTHER || policy == SCHED_FIFO || policy == SCHED_RR || policy == SCHED_BATCH
        || policy == SCHED_IDLE || policy == SCHED_DEADLINE
}

/// Whether a policy exists.
pub fn is_known_sched_policy(policy: i32) -> (r: bool)
    ensures
        r == known_policy(policy),
{
    policy == SCHED_OTHER || policy == SCHED_FIFO || policy == SCHED_RR || policy == SCHED_BATCH
        || policy == SCHED_IDLE || policy == SCHED_DEADLINE
}

/// The lowest priority of a policy.
pub open spec fn lowest(policy: i32) -> i32 {
    if policy == SCHED_FIFO || policy == SCHED_RR {
        1
    } else {
        0
    }
}

/// The highest priority of a policy.
pub open spec fn highest(policy: i32) -> i32 {
    if policy == SCHED_FIFO || policy == SCHED_RR {
        99
    } else {
        0
    }
}

/// The lowest and the highest priority of a policy.
pub fn sched_priority_range(policy: i32) -> (r: (i32, i32))
    ensures
        r == (lowest(policy), highest(policy)),
{
    if policy == SCHED_FIFO || policy == SCHED_RR {
        (1, 99)
    } else {
        (0, 0)
    }
}

/// Whether a process of `caller_uid` may look at or set the scheduling of one of `target_uid`.
pub open spec fn may_schedule(caller_uid: u32, target_uid: u32) -> bool {
    caller_uid == 0 || caller_uid == target_uid
}

/// Whether a process of `caller_uid` may look at or set the scheduling of one of `target_uid`.
pub fn has_sched_permission(caller_uid: u32, target_uid: u32) -> (r: bool)
    ensures
        r == may_schedule(caller_uid, target_uid),
{
    caller_uid == 0 || caller_uid == target_uid
}

/// The process whose scheduling the caller may look at or set.
pub open spec fn sched_target(s: KernelView, caller: Pid, pid: i64) -> Result<Pid, u64> {
    match target_of(s, caller, pid) {
        Err(e) => Err(e),
        Ok(t) => if may_schedule(s.procs[caller].uid, s.procs[t].uid) {
            Ok(t)
        } else {
            Err(EPERM)
        },
    }
}

fn find_sched_target(k: &Kernel, caller_pid: Pid, pid: i64) -> (r: Result<Pid, u64>)
    requires
        k.wf(),
        target_of(k@, caller_pid, pid).is_ok() ==> k@.procs.contains_key(caller_pid),
    ensures
        r == sched_target(k@, caller_pid, pid),
{
    let target: Pid = match resolve_target_pid(k, caller_pid, pid) {
        Ok(t) => t,
        Err(e) => {
            return Err(e);
        },
    };
    let caller_uid: u32 = match k.procs.get(caller_pid) {
        Some(p) => p.uid,
        None => 0,
    };
    match k.procs.get(target) {
        Some(p) => if has_sched_permission(caller_uid, p.uid) {
            Ok(target)
        } else {
            Err(EPERM)
        },
        None => Ok(target),
    }
}

/// `s` with another policy and priority for `pid`.
pub open spec fn with_sched(s: KernelView, pid: Pid, policy: i32, priority: i32) -> KernelView {
    with_proc(
        s,
        pid,
        ProcView { sched_policy: policy, sched_priority: priority, ..s.procs[pid] },
    )
}

/// Sets the policy and priority of a process. The target has to exist, then the policy, then the
/// caller needs permission, then the priority has to fit the policy.
pub fn do_sched_setscheduler(k: &mut Kernel, caller_pid: Pid, pid: i64, policy: i32, priority: i32) -> (r:
    Result<u64, u64>)
    requires
        old(k).wf(),
        target_of(old(k)@, caller_pid, pid).is_ok() && known_policy(policy)
            ==> old(k)@.procs.contains_key(caller_pid),
    ensures
        final(k).wf(),
        match target_of(old(k)@, caller_pid, pid) {
            Err(e) => r == Err::<u64, u64>(e) && final(k)@ == old(k)@,
            Ok(t) => if !known_policy(policy) {
                r == Err::<u64, u64>(EINVAL) && final(k)@ == old(k)@
            } else if sched_target(old(k)@, caller_pid, pid) is Err {
                r == Err::<u64, u64>(EPERM) && final(k)@ == old(k)@
            } else if !(lowest(policy) <= priority <= highest(policy)) {
                r == Err::<u64, u64>(EINVAL) && final(k)@ == old(k)@
            } else {
                r == Ok::<u64, u64>(0) && final(k)@ == with_sched(old(k)@, t, policy, priority)
            },
        },
{
    let ghost before = k@;
    if let Err(e) = resolve_target_pid(k, caller_pid, pid) {
        return Err(e);
    }
    if !is_known_sched_policy(policy) {
        return Err(EINVAL);
    }
    let target: Pid = match find_sched_target(k, caller_pid, pid) {
        Ok(t) => t,
        Err(e) => {
            return Err(e);
        },
    };
    let (min, max): (i32, i32) = sched_priority_range(policy);
    if priority < min || priority > max {
        return Err(EINVAL);
    }
    if let Some(p) = k.procs.get_mut(target) {
        p.sched_policy = policy;
        p.sched_priority = priority;
    }
    assert(k@ =~= with_sched(before, target, policy, priority));
    Ok(0)
}

/// The policy of a process.
pub fn do_sched_getscheduler(k: &Kernel, caller_pid: Pid, pid: i64) -> (r: Result<u64, u64>)
    requires
        k.wf(),
        target_of(k@, caller_pid, pid).is_ok() ==> k@.procs.contains_key(caller_pid),
    ensures
        r == match sched_target(k@, caller_pid, pid) {
            Err(e) => Err::<u64, u64>(e),
            Ok(t) => Ok(k@.procs[t].sched_policy as u64),
        },
{
    let target: Pid = match find_sched_target(k, caller_pid, pid) {
        Ok(t) => t,
        Err(e) => {
            return Err(e);
        },
    };
    match k.procs.get(target) {
        Some(p) => Ok(p.sched_policy as u64),
        None => Ok(0),
    }
}

/// The priority of a process.
pub fn do_sched_getparam(k: &Kernel, caller_pid: Pid, pid: i64) -> (r: Result<i32, u64>)
    requires
        k.wf(),
        target_of(k@, caller_pid, pid).is_ok() ==> k@.procs.contains_key(caller_pid),
    ensures
        r == match sched_target(k@, caller_pid, pid) {
            Err(e) => Err::<i32, u64>(e),
            Ok(t) => Ok(k@.procs[t].sched_priority),
        },
{
    let target: Pid = match find_sched_target(k, caller_pid, pid) {
        Ok(t) => t,
        Err(e) => {
            return Err(e);
        },
    };
    match k.procs.get(target) {
        Some(p) => Ok(p.sched_priority),
        None => Ok(0),
    }
}

/// How long a process runs before the next gets its turn, in seconds and nanoseconds, given in
/// ticks.
pub fn do_sched_rr_get_interval(k: &Kernel, caller_pid: Pid, pid: i64, quantum_ticks: u64) -> (r: Result<
    (i64, i64),
    u64,
>)
    requires
        k.wf(),
        quantum_ticks <= 1_000_000_000,
    ensures
        r == match target_of(k@, caller_pid, pid) {
            Err(e) => Err::<(i64, i64), u64>(e),
            Ok(t) => Ok((0, (1_000_000_000 * quantum_ticks / TIMER_HZ as int) as i64)),
        },
{
    match resolve_target_pid(k, caller_pid, pid) {
        Err(e) => Err(e),
        Ok(_) => Ok((0, (1_000_000_000u64 * quantum_ticks / TIMER_HZ) as i64)),
    }
}

/// Lets others run.
pub fn do_sched_yield(k: &mut Kernel) -> (r: (Vec<u64>, SchedAction, Result<u64, u64>))
    requires
        old(k).wf(),
        old(k)@.current != 0 ==> reaped(old(k)@).procs.contains_key(old(k)@.current),
        forall|i: int|
            0 <= i < requeued(reaped(old(k)@)).ready.len() ==> runnable(
                reaped(old(k)@),
                #[trigger] requeued(reaped(old(k)@)).ready[i],
            ),
    ensures
        final(k).wf(),
        r.0@ == reap_spaces(old(k)@, old(k)@.reaps),
        pick_outcome(requeued(reaped(old(k)@)), final(k)@, r.1),
        r.2 == Ok::<u64, u64>(0),
{
    let (freed, action) = schedule(k);
    (freed, action, Ok(0))
}

/// The processors a process may run on, as the bytes of a mask: there is only the first one.
pub fn do_sched_getaffinity(k: &Kernel, caller_pid: Pid, pid: i64, cpusetsize: u64) -> (r: Result<
    Vec<u8>,
    u64,
>)
    requires
        k.wf(),
    ensures
        match target_of(k@, caller_pid, pid) {
            Err(e) => r is Err && r->Err_0 == e,
            Ok(t) => if cpusetsize == 0 {
                r is Err && r->Err_0 == EINVAL
            } else {
                r is Ok && r->Ok_0@ == le64_bytes(1).take(
                    if cpusetsize < 8 {
                        cpusetsize as int
                    } else {
                        8
                    },
                )
            },
        },
{
    if let Err(e) = resolve_target_pid(k, caller_pid, pid) {
        return Err(e);
    }
    if cpusetsize == 0 {
        return Err(EINVAL);
    }
    let n: usize = if cpusetsize < 8 {
        cpusetsize as usize
    } else {
        8
    };
    let mut mask: Vec<u8> = Vec::new();
    crate::bytes::push_le64(&mut mask, 1);
    assert(mask@ =~= le64_bytes(1));
    mask.truncate(n);
    assert(mask@ =~= le64_bytes(1).take(n as int));
    Ok(mask)
}

/// The highest priority of a policy.
pub fn do_sched_get_priority_max(policy: i32) -> (r: Result<u64, u64>)
    ensures
        r == if known_policy(policy) {
            Ok::<u64, u64>(highest(policy) as u64)
        } else {
            Err(EINVAL)
        },
{
    if !is_known_sched_policy(policy) {
        return Err(EINVAL);
    }
    Ok(sched_priority_range(policy).1 as u64)
}

/// The lowest priority of a policy.
pub fn do_sched_get_priority_min(policy: i32) -> (r: Result<u64, u64>)
    ensures
        r == if known_policy(policy) {
            Ok::<u64, u64>(lowest(policy) as u64)
        } else {
            Err(EINVAL)
        },
{
    if !is_known_sched_policy(policy) {
        return Err(EINVAL);
    }
    Ok(sched_priority_range(policy).0 as u64)
}

// ---------------------------------------------------------------------------------------------
// Futexes
// ---------------------------------------------------------------------------------------------
pub const FUTEX_WAIT: u64 = 0;
pub const FUTEX_WAKE: u64 = 1;
pub const FUTEX_PRIVATE: u64 = 128;

/// How a futex call went on.
#[derive(Clone, Copy, PartialEq, Eq, Debug)]
pub enum Futex {
    /// It is over, with this answer.
    Done(Result<u64, u64>),
    /// The caller now blocks; `futex_woken` answers when it next runs.
    Block { deadline: u64 },
}

/// A process that waits on the futex at `addr` in thread group `tgid`.
pub open spec fn futex_waiter(p: ProcView, tgid: Pid, addr: u64) -> bool {
    p.state matches ProcState::Blocked(BlockReason::WaitingForFutex(t, a, _)) && t == tgid && a
        == addr
}

/// Up to `max` waiters among `pids` made ready, in order, and how many they are.
pub open spec fn futex_woken_from(s: KernelView, pids: Seq<Pid>, tgid: Pid, addr: u64, max: u64) -> (
    KernelView,
    int,
)
    decreases pids.len(),
{
    if pids.len() == 0 {
        (s, 0)
    } else {
        let (a, n) = futex_woken_from(s, pids.drop_last(), tgid, addr, max);
        if n < max && futex_waiter(a.procs[pids.last()], tgid, addr) {
            (made_ready(a, pids.last()), n + 1)
        } else {
            (a, n)
        }
    }
}

/// Makes up to `max_waiters` of those who wait on a futex ready, lowest pid first, and returns how
/// many.
pub fn wake_futex(k: &mut Kernel, tgid: Pid, addr: u64, max_waiters: u64) -> (r: u64)
    requires
        old(k).wf(),
    ensures
        final(k).wf(),
        (final(k)@, r as int) == futex_woken_from(old(k)@, old(k)@.pids, tgid, addr, max_waiters),
        r <= max_waiters,
{
    let ghost before = k@;
    let n: usize = k.procs.len();
    let mut woken: u64 = 0;
    let mut i: usize = 0;
    while i < n
        invariant
            k.wf(),
            n == before.pids.len(),
            k@.pids == before.pids,
            i <= n,
            woken <= max_waiters,
            (k@, woken as int) == futex_woken_from(
                before,
                before.pids.take(i as int),
                tgid,
                addr,
                max_waiters,
            ),
        decreases n - i,
    {
        let pid: Pid = k.procs.key_at(i);
        let ghost mid = k@;
        proof {
            assert(before.pids.take(i + 1).drop_last() =~= before.pids.take(i as int));
            assert(mid.procs.contains_key(pid));
        }
        if woken < max_waiters {
            let mut hit: bool = false;
            if let Some(p) = k.procs.get_mut(pid) {
                if let ProcState::Blocked(BlockReason::WaitingForFutex(t, a, _)) = p.state {
                    if t == tgid && a == addr {
                        p.state = ProcState::Ready;
                        hit = true;
                    }
                }
            }
            if hit {
                enqueue_ready(&mut k.ready, pid);
                woken += 1;
                assert(k@ =~= made_ready(mid, pid));
            } else {
                assert(k@ =~= mid);
            }
        }
        i += 1;
    }
    assert(before.pids.take(i as int) =~= before.pids);
    woken
}

/// Waits on, or wakes, the futex at `addr`. `word` is what the futex holds and `timeout` how long
/// to wait at most; both matter only to a wait. Other operations succeed.
pub fn do_futex(
    k: &mut Kernel,
    pid: Pid,
    addr: u64,
    op: u64,
    val: u64,
    word: u32,
    timeout: Option<(i64, i64)>,
    now: u64,
) -> (r: Futex)
    requires
        old(k).wf(),
        op & !FUTEX_PRIVATE == FUTEX_WAIT && word == val as u32 && (timeout matches Some(t)
            ==> valid_timespec(t.0, t.1)) ==> {
            &&& deadline_after(timeout, now) <= u64::MAX
            &&& now < deadline_after(timeout, now) ==> old(k)@.procs.contains_key(pid)
        },
    ensures
        final(k).wf(),
        ({
            let s = old(k)@;
            let base = op & !FUTEX_PRIVATE;
            if base == FUTEX_WAIT {
                let deadline = deadline_after(timeout, now) as u64;
                if word != val as u32 {
                    r == Futex::Done(Err(EAGAIN)) && final(k)@ == s
                } else if timeout matches Some(t) && !valid_timespec(t.0, t.1) {
                    r == Futex::Done(Err(EINVAL)) && final(k)@ == s
                } else if now >= deadline {
                    r == Futex::Done(Err(ETIMEDOUT)) && final(k)@ == s
                } else if signal_waiting(s.procs[pid]) {
                    r == Futex::Done(Err(EINTR)) && final(k)@ == s
                } else {
                    r == (Futex::Block { deadline }) && final(k)@ == blocked_on(
                        s,
                        pid,
                        BlockReason::WaitingForFutex(s.procs[pid].tgid, addr, deadline),
                    )
                }
            } else if base == FUTEX_WAKE {
                let (t, n) = futex_woken_from(s, s.pids, tgid_of(s, pid), addr, val);
                r == Futex::Done(Ok(n as u64)) && final(k)@ == t
            } else {
                r == Futex::Done(Ok(0)) && final(k)@ == s
            }
        }),
{
    let ghost before = k@;
    let base: u64 = op & !FUTEX_PRIVATE;
    if base == FUTEX_WAIT {
        if word != #[verifier::truncate] (val as u32) {
            return Futex::Done(Err(EAGAIN));
        }
        let deadline: u64 = match timeout {
            None => u64::MAX,
            Some((sec, nsec)) => match timespec_to_ticks(sec, nsec) {
                Some(t) => now + t,
                None => {
                    return Futex::Done(Err(EINVAL));
                },
            },
        };
        if now >= deadline {
            return Futex::Done(Err(ETIMEDOUT));
        }
        if let Some(p) = k.procs.get_mut(pid) {
            if p.pending_signals & !p.blocked_signals != 0 {
                assert(k@ =~= before);
                return Futex::Done(Err(EINTR));
            }
            p.state = ProcState::Blocked(BlockReason::WaitingForFutex(p.tgid, addr, deadline));
        }
        assert(k@ =~= blocked_on(
            before,
            pid,
            BlockReason::WaitingForFutex(before.procs[pid].tgid, addr, deadline),
        ));
        return Futex::Block { deadline };
    }
    if base == FUTEX_WAKE {
        let tgid: Pid = match k.procs.get(pid) {
            Some(p) => p.tgid,
            None => pid,
        };
        let n: u64 = wake_futex(k, tgid, addr, val);
        return Futex::Done(Ok(n));
    }
    Futex::Done(Ok(0))
}

/// The answer to a wait on a futex once the caller runs again. A wake without cause is a success.
pub fn futex_woken(k: &Kernel, pid: Pid, deadline: u64, now: u64) -> (r: Result<u64, u64>)
    requires
        k.wf(),
        k@.procs.contains_key(pid),
    ensures
        r == if signal_waiting(k@.procs[pid]) {
            Err::<u64, u64>(EINTR)
        } else if now >= deadline {
            Err(ETIMEDOUT)
        } else {
            Ok(0)
        },
{
    if let Some(p) = k.procs.get(pid) {
        if p.pending_signals & !p.blocked_signals != 0 {
            return Err(EINTR);
        }
    }
    if now >= deadline {
        return Err(ETIMEDOUT);
    }
    Ok(0)
}

/// Waking a futex wakes no more than asked for, and only those who wait on it.
pub proof fn law_futex_wake(s: KernelView, pids: Seq<Pid>, tgid: Pid, addr: u64, max: u64)
    ensures
        ({
            let (t, n) = futex_woken_from(s, pids, tgid, addr, max);
            &&& 0 <= n <= max
            &&& t.ready.len() == s.ready.len() + n
            &&& forall|p: Pid| #[trigger]
                s.procs.contains_key(p) ==> t.procs.contains_key(p) && (futex_waiter(
                    s.procs[p],
                    tgid,
                    addr,
                ) || t.procs[p] == s.procs[p])
        }),
    decreases pids.len(),
{
    if pids.len() > 0 {
        law_futex_wake(s, pids.drop_last(), tgid, addr, max);
    }
}

/// The number that stands for a nice value is never negative, so it cannot be taken for an error.
pub proof fn law_priority_never_negative(p: ProcView)
    requires
        crate::process::proc_ok(p),
    ensures
        1 <= 20 - p.nice <= 40,
{
}

/// What was set is what is read: a nice value that was set is read back from twenty, within its
/// bounds, by whoever asks for the same process.
pub proof fn law_priority_reads_back(s: KernelView, caller: Pid, who: i64, prio: i32)
    requires
        setpriority_answer(s, caller, PRIO_PROCESS, who) == Ok::<u64, u64>(0),
    ensures
        getpriority_answer(
            priority_set(s, caller, PRIO_PROCESS, who, prio),
            caller,
            PRIO_PROCESS,
            who,
        ) == Ok::<u64, u64>((20 - clamped(prio as int, -20, 19)) as u64),
        1 <= 20 - clamped(prio as int, -20, 19) <= 40,
{
}

} // verus!

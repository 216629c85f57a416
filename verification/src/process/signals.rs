//! Signals: sending them, holding them back, waiting for them and delivering them.

use vstd::prelude::*;
use crate::errno::{EAGAIN, EINTR, EINVAL, EPERM, ESRCH};
use crate::process::identity::{oxidebsd_current_uid, uid_of};
use crate::process::lifecycle::{parent_woken, terminate_process, terminated, wake_parent_if_waiting};
use crate::process::scheduler::{enqueue_ready, made_ready, queue_without, remove_ready};
use crate::process::timers::{deadline_after, valid_timespec};
use crate::process::{
    bit_of, has_sig, no_altstack, proc_ok, signals_ok, with_proc, AltStack, BlockReason, Kernel,
    KernelView, Pid, ProcState, ProcView, Process, QueuedSigInfo, SigAction, SignalStackFrame, Step,
    SyscallFrame, RT_QUEUE_CAP, RT_SIGNAL_COUNT, SA_NODEFER, SIGCHLD, SIGCONT, SIGIO, SIGKILL,
    SIGRTMAX, SIGRTMIN, SIGSTOP, SIGTSTP, SIGTTIN, SIGTTOU, SIGURG, SIGWINCH, SI_QUEUE, SI_USER,
    SS_DISABLE, SS_ONSTACK,
};

verus! {

broadcast use crate::process::group_views;

// ---------------------------------------------------------------------------------------------
// Masks
// ---------------------------------------------------------------------------------------------
/// What clearing and setting bits does to membership.
pub proof fn lemma_masks()
    ensures
        forall|m: u64, x: u64, t: u64|
            1 <= t <= 64 ==> (#[trigger] has_sig(m & !x, t) <==> has_sig(m, t) && !has_sig(x, t)),
        forall|m: u64, x: u64, t: u64|
            1 <= t <= 64 ==> (#[trigger] has_sig(m | x, t) <==> has_sig(m, t) || has_sig(x, t)),
        forall|m: u64, x: u64, t: u64|
            1 <= t <= 64 ==> (#[trigger] has_sig(m & x, t) <==> has_sig(m, t) && has_sig(x, t)),
        forall|s: u64, t: u64|
            1 <= s <= 64 && 1 <= t <= 64 ==> (#[trigger] has_sig(bit_of(s), t) <==> s == t),
        forall|t: u64| 1 <= t <= 64 ==> !#[trigger] has_sig(0, t),
{
    assert forall|m: u64, x: u64, t: u64| 1 <= t <= 64 implies (#[trigger] has_sig(m & !x, t)
        <==> has_sig(m, t) && !has_sig(x, t)) by {
        let b = bit_of(t);
        let n = (t - 1) as u64;
        assert((((m & !x) & (1u64 << n)) != 0) <==> ((m & (1u64 << n)) != 0 && (x & (1u64 << n)) == 0))
            by (bit_vector)
            requires
                n < 64,
        ;
    }
    assert forall|m: u64, x: u64, t: u64| 1 <= t <= 64 implies (#[trigger] has_sig(m | x, t)
        <==> has_sig(m, t) || has_sig(x, t)) by {
        let n = (t - 1) as u64;
        assert((((m | x) & (1u64 << n)) != 0) <==> ((m & (1u64 << n)) != 0 || (x & (1u64 << n)) != 0))
            by (bit_vector);
    }
    assert forall|m: u64, x: u64, t: u64| 1 <= t <= 64 implies (#[trigger] has_sig(m & x, t)
        <==> has_sig(m, t) && has_sig(x, t)) by {
        let n = (t - 1) as u64;
        assert((((m & x) & (1u64 << n)) != 0) <==> ((m & (1u64 << n)) != 0 && (x & (1u64 << n)) != 0))
            by (bit_vector)
            requires
                n < 64,
        ;
    }
    assert forall|s: u64, t: u64| 1 <= s <= 64 && 1 <= t <= 64 implies (#[trigger] has_sig(
        bit_of(s),
        t,
    ) <==> s == t) by {
        let a = (s - 1) as u64;
        let b = (t - 1) as u64;
        assert((((1u64 << a) & (1u64 << b)) != 0) <==> a == b) by (bit_vector)
            requires
                a < 64,
                b < 64,
        ;
    }
    assert forall|t: u64| 1 <= t <= 64 implies !#[trigger] has_sig(0, t) by {
        let n = (t - 1) as u64;
        assert((0u64 & (1u64 << n)) == 0) by (bit_vector);
    }
}

/// The mask with only the bit of `sig`.
pub fn sig_bit(sig: u64) -> (r: u64)
    requires
        1 <= sig <= 64,
    ensures
        r == bit_of(sig),
{
    1u64 << (sig - 1)
}

/// `SIGKILL` and `SIGSTOP`, which cannot be held back.
pub open spec fn unblockable() -> u64 {
    bit_of(SIGKILL) | bit_of(SIGSTOP)
}

fn unblockable_mask() -> (r: u64)
    ensures
        r == unblockable(),
{
    sig_bit(SIGKILL) | sig_bit(SIGSTOP)
}

// ---------------------------------------------------------------------------------------------
// Dispositions
// ---------------------------------------------------------------------------------------------
/// What happens by default on a signal.
#[derive(Clone, Copy, PartialEq, Eq, Structural, Debug)]
pub enum DefaultDisposition {
    Terminate,
    Ignore,
    Stop,
}

/// What happens by default on `sig`.
pub open spec fn disposition(sig: u64) -> DefaultDisposition {
    if sig == SIGSTOP || sig == SIGTSTP {
        DefaultDisposition::Stop
    } else if sig == SIGCHLD || sig == SIGCONT || sig == SIGURG || sig == SIGWINCH || sig == SIGIO
        || sig == SIGTTIN || sig == SIGTTOU {
        DefaultDisposition::Ignore
    } else {
        DefaultDisposition::Terminate
    }
}

/// What happens by default on `sig`.
pub fn default_disposition(sig: u64) -> (r: DefaultDisposition)
    ensures
        r == disposition(sig),
{
    if sig == SIGSTOP || sig == SIGTSTP {
        DefaultDisposition::Stop
    } else if sig == SIGCHLD || sig == SIGCONT || sig == SIGURG || sig == SIGWINCH || sig == SIGIO
        || sig == SIGTTIN || sig == SIGTTOU {
        DefaultDisposition::Ignore
    } else {
        DefaultDisposition::Terminate
    }
}

/// What a signal does to the process it is sent to.
#[derive(Clone, Copy, PartialEq, Eq, Structural, Debug)]
pub enum Response {
    Discard,
    Terminate,
    Stop,
    SetPending,
}

/// What `sig` does to a process with this disposition for it.
pub open spec fn response(handler: u64, sig: u64) -> Response {
    if handler == 1 {
        Response::Discard
    } else if handler == 0 {
        match disposition(sig) {
            DefaultDisposition::Ignore => Response::Discard,
            DefaultDisposition::Terminate => Response::Terminate,
            DefaultDisposition::Stop => Response::Stop,
        }
    } else {
        Response::SetPending
    }
}

fn resolve(handler: u64, sig: u64) -> (r: Response)
    ensures
        r == response(handler, sig),
{
    if handler == 1 {
        Response::Discard
    } else if handler == 0 {
        match default_disposition(sig) {
            DefaultDisposition::Ignore => Response::Discard,
            DefaultDisposition::Terminate => Response::Terminate,
            DefaultDisposition::Stop => Response::Stop,
        }
    } else {
        Response::SetPending
    }
}

/// Whether a process of `caller_uid` may signal one of `target_uid`.
pub open spec fn may_signal(caller_uid: u32, target_uid: u32) -> bool {
    caller_uid == 0 || caller_uid == target_uid
}

/// Whether a process of `caller_uid` may signal one of `target_uid`.
pub fn has_signal_permission(caller_uid: u32, target_uid: u32) -> (r: bool)
    ensures
        r == may_signal(caller_uid, target_uid),
{
    caller_uid == 0 || caller_uid == target_uid
}

// ---------------------------------------------------------------------------------------------
// Pending signals
// ---------------------------------------------------------------------------------------------
/// A signal that can be sent: standard or real-time.
pub open spec fn sendable(sig: int) -> bool {
    1 <= sig <= 31 || SIGRTMIN <= sig <= SIGRTMAX
}

/// Whether one more instance of `sig` fits.
pub open spec fn fits(p: ProcView, sig: u64) -> bool {
    sig < SIGRTMIN || p.rt_queue[sig - SIGRTMIN].len() < RT_QUEUE_CAP
}

/// `p` with `sig` pending. A standard signal keeps only the latest sender; a real-time signal
/// queues up behind earlier instances, unless its queue is full.
pub open spec fn pended(p: ProcView, sig: u64, info: QueuedSigInfo) -> ProcView {
    let pending_signals = p.pending_signals | bit_of(sig);
    if sig < SIGRTMIN {
        ProcView {
            pending_signals,
            pending_siginfo: p.pending_siginfo.update(sig as int, info),
            ..p
        }
    } else if fits(p, sig) {
        let i = sig - SIGRTMIN;
        ProcView {
            pending_signals,
            rt_queue: p.rt_queue.update(i, p.rt_queue[i].push(info)),
            ..p
        }
    } else {
        ProcView { pending_signals, ..p }
    }
}

/// Makes `sig` pending on `proc`.
pub fn record_pending(
    proc: &mut Process,
    sig: u64,
    code: i32,
    sender_pid: Pid,
    sender_uid: u32,
    value: u64,
) -> (r: Result<(), u64>)
    requires
        proc_ok(old(proc)@),
        sendable(sig as int),
    ensures
        proc_ok(final(proc)@),
        final(proc)@ == pended(
            old(proc)@,
            sig,
            QueuedSigInfo { code, pid: sender_pid, uid: sender_uid, value },
        ),
        r == if fits(old(proc)@, sig) {
            Ok::<(), u64>(())
        } else {
            Err(EAGAIN)
        },
{
    let ghost before = proc@;
    proc.pending_signals = proc.pending_signals | sig_bit(sig);
    let info = QueuedSigInfo { code, pid: sender_pid, uid: sender_uid, value };
    proof {
        lemma_masks();
    }
    if sig >= SIGRTMIN {
        let i: usize = (sig - SIGRTMIN) as usize;
        assert(proc.rt_queue@.len() == before.rt_queue.len());
        assert(proc.rt_queue@[i as int]@ == before.rt_queue[i as int]);
        if proc.rt_queue[i].len() >= RT_QUEUE_CAP {
            assert(proc@ =~= pended(before, sig, info));
            assert(has_sig(before.pending_signals, sig));
            return Err(EAGAIN);
        }
        proc.rt_queue[i].push(info);
        assert(proc@.rt_queue =~= before.rt_queue.update(
            i as int,
            before.rt_queue[i as int].push(info),
        ));
        assert(proc@ =~= pended(before, sig, info));
        assert forall|s: u64| SIGRTMIN <= s <= SIGRTMAX implies (#[trigger] has_sig(
            proc@.pending_signals,
            s,
        ) <==> proc@.rt_queue[s - SIGRTMIN].len() > 0) by {
            assert(has_sig(before.pending_signals, s) <==> before.rt_queue[s - SIGRTMIN].len() > 0);
        }
        Ok(())
    } else {
        proc.pending_siginfo[sig as usize] = info;
        assert(proc@ =~= pended(before, sig, info));
        assert forall|s: u64| SIGRTMIN <= s <= SIGRTMAX implies (#[trigger] has_sig(
            proc@.pending_signals,
            s,
        ) <==> proc@.rt_queue[s - SIGRTMIN].len() > 0) by {
            assert(has_sig(before.pending_signals, s) <==> before.rt_queue[s - SIGRTMIN].len() > 0);
        }
        Ok(())
    }
}

/// The sender record that the next instance of `sig` carries.
pub open spec fn front_info(p: ProcView, sig: u64) -> QueuedSigInfo {
    if sig >= SIGRTMIN {
        p.rt_queue[sig - SIGRTMIN][0]
    } else {
        p.pending_siginfo[sig as int]
    }
}

/// `p` with one instance of `sig` taken. A real-time signal stays pending while more are queued.
pub open spec fn taken(p: ProcView, sig: u64) -> ProcView {
    if sig >= SIGRTMIN {
        let i = sig - SIGRTMIN;
        let rest = p.rt_queue[i].remove(0);
        ProcView {
            pending_signals: if rest.len() == 0 {
                p.pending_signals & !bit_of(sig)
            } else {
                p.pending_signals
            },
            rt_queue: p.rt_queue.update(i, rest),
            ..p
        }
    } else {
        ProcView { pending_signals: p.pending_signals & !bit_of(sig), ..p }
    }
}

/// Takes the oldest instance of a pending signal.
fn take_one(proc: &mut Process, sig: u64) -> (r: QueuedSigInfo)
    requires
        proc_ok(old(proc)@),
        1 <= sig <= 64,
        has_sig(old(proc)@.pending_signals, sig),
    ensures
        proc_ok(final(proc)@),
        final(proc)@ == taken(old(proc)@, sig),
        r == front_info(old(proc)@, sig),
{
    let ghost before = proc@;
    proof {
        lemma_masks();
        assert(sendable(sig as int)) by {
            if 32 <= sig <= 34 {
                assert(!has_sig(before.pending_signals, sig));
            }
        }
    }
    if sig >= SIGRTMIN {
        let i: usize = (sig - SIGRTMIN) as usize;
        assert(proc.rt_queue@[i as int]@ == before.rt_queue[i as int]);
        let info = proc.rt_queue[i].remove(0);
        let empty: bool = proc.rt_queue[i].len() == 0;
        if empty {
            proc.pending_signals = proc.pending_signals & !sig_bit(sig);
        }
        assert(proc@.rt_queue =~= before.rt_queue.update(
            i as int,
            before.rt_queue[i as int].remove(0),
        ));
        assert(proc@ =~= taken(before, sig));
        assert forall|s: u64| SIGRTMIN <= s <= SIGRTMAX implies (#[trigger] has_sig(
            proc@.pending_signals,
            s,
        ) <==> proc@.rt_queue[s - SIGRTMIN].len() > 0) by {
            assert(has_sig(before.pending_signals, s) <==> before.rt_queue[s - SIGRTMIN].len() > 0);
        }
        info
    } else {
        proc.pending_signals = proc.pending_signals & !sig_bit(sig);
        assert(proc@ =~= taken(before, sig));
        assert forall|s: u64| SIGRTMIN <= s <= SIGRTMAX implies (#[trigger] has_sig(
            proc@.pending_signals,
            s,
        ) <==> proc@.rt_queue[s - SIGRTMIN].len() > 0) by {
            assert(has_sig(before.pending_signals, s) <==> before.rt_queue[s - SIGRTMIN].len() > 0);
        }
        proc.pending_siginfo[sig as usize]
    }
}

// ---------------------------------------------------------------------------------------------
// Waking
// ---------------------------------------------------------------------------------------------
/// A process in `sigtimedwait` for `sig`.
pub open spec fn sigwaiting(p: ProcView, sig: u64) -> bool {
    p.state matches ProcState::Blocked(BlockReason::WaitingForSpecificSignal(set, _)) && has_sig(
        set,
        sig,
    )
}

/// A process in `pause` or `sigsuspend` that does not block `sig`.
pub open spec fn paused(p: ProcView, sig: u64) -> bool {
    p.state == ProcState::Blocked(BlockReason::WaitingForSignal) && !has_sig(p.blocked_signals, sig)
}

/// A sleeping process that does not block `sig`.
pub open spec fn sleeping(p: ProcView, sig: u64) -> bool {
    p.state is Blocked && p.state->Blocked_0 is Sleeping && !has_sig(p.blocked_signals, sig)
}

/// A process waiting on a message queue that does not block `sig`.
pub open spec fn mq_waiting(p: ProcView, sig: u64) -> bool {
    p.state is Blocked && (p.state->Blocked_0 is WaitingForMqData || p.state->Blocked_0
        is WaitingForMqSpace) && !has_sig(p.blocked_signals, sig)
}

/// A process waiting on a futex that does not block `sig`.
pub open spec fn futex_waiting(p: ProcView, sig: u64) -> bool {
    p.state is Blocked && p.state->Blocked_0 is WaitingForFutex && !has_sig(p.blocked_signals, sig)
}

/// A process whose wait ends when `sig` becomes pending.
pub open spec fn interruptible(p: ProcView, sig: u64) -> bool {
    paused(p, sig) || sigwaiting(p, sig) || sleeping(p, sig) || mq_waiting(p, sig) || futex_waiting(
        p,
        sig,
    )
}

/// `s` with `pid` made ready where `wake` says so.
pub open spec fn woken_if(s: KernelView, pid: Pid, wake: bool) -> KernelView {
    if s.procs.contains_key(pid) && wake {
        made_ready(s, pid)
    } else {
        s
    }
}

/// Makes `pid` ready.
fn make_ready(k: &mut Kernel, pid: Pid)
    requires
        old(k).wf(),
        old(k)@.procs.contains_key(pid),
    ensures
        final(k).wf(),
        final(k)@ == made_ready(old(k)@, pid),
{
    let ghost before = k@;
    if let Some(p) = k.procs.get_mut(pid) {
        p.state = ProcState::Ready;
    }
    enqueue_ready(&mut k.ready, pid);
    assert(k@ =~= made_ready(before, pid));
}

/// Ends `pid`'s wait for a set of signals that `sig` is in.
pub fn wake_if_sigwaiting(k: &mut Kernel, pid: Pid, sig: u64)
    requires
        old(k).wf(),
        1 <= sig <= 64,
    ensures
        final(k).wf(),
        final(k)@ == woken_if(old(k)@, pid, sigwaiting(old(k)@.procs[pid], sig)),
{
    let wake: bool = match k.procs.get(pid) {
        Some(p) => match p.state {
            ProcState::Blocked(BlockReason::WaitingForSpecificSignal(set, _)) => set & sig_bit(sig)
                != 0,
            _ => false,
        },
        None => false,
    };
    if wake {
        make_ready(k, pid);
    }
}

/// Ends `pid`'s pause on a signal it does not block.
pub fn wake_if_paused(k: &mut Kernel, pid: Pid, sig: u64)
    requires
        old(k).wf(),
        1 <= sig <= 64,
    ensures
        final(k).wf(),
        final(k)@ == woken_if(old(k)@, pid, paused(old(k)@.procs[pid], sig)),
{
    let wake: bool = match k.procs.get(pid) {
        Some(p) => p.state == ProcState::Blocked(BlockReason::WaitingForSignal) && p.blocked_signals
            & sig_bit(sig) == 0,
        None => false,
    };
    if wake {
        make_ready(k, pid);
    }
}

/// Ends `pid`'s sleep on a signal it does not block.
pub fn wake_if_sleeping(k: &mut Kernel, pid: Pid, sig: u64)
    requires
        old(k).wf(),
        1 <= sig <= 64,
    ensures
        final(k).wf(),
        final(k)@ == woken_if(old(k)@, pid, sleeping(old(k)@.procs[pid], sig)),
{
    let wake: bool = match k.procs.get(pid) {
        Some(p) => match p.state {
            ProcState::Blocked(BlockReason::Sleeping(_)) => p.blocked_signals & sig_bit(sig) == 0,
            _ => false,
        },
        None => false,
    };
    if wake {
        make_ready(k, pid);
    }
}

/// Ends `pid`'s wait on a message queue on a signal it does not block.
pub fn wake_if_mq_waiting(k: &mut Kernel, pid: Pid, sig: u64)
    requires
        old(k).wf(),
        1 <= sig <= 64,
    ensures
        final(k).wf(),
        final(k)@ == woken_if(old(k)@, pid, mq_waiting(old(k)@.procs[pid], sig)),
{
    let wake: bool = match k.procs.get(pid) {
        Some(p) => match p.state {
            ProcState::Blocked(BlockReason::WaitingForMqData(_, _)) => p.blocked_signals & sig_bit(
                sig,
            ) == 0,
            ProcState::Blocked(BlockReason::WaitingForMqSpace(_, _)) => p.blocked_signals & sig_bit(
                sig,
            ) == 0,
            _ => false,
        },
        None => false,
    };
    if wake {
        make_ready(k, pid);
    }
}

/// Ends `pid`'s wait on a futex on a signal it does not block.
pub fn wake_if_futex_waiting(k: &mut Kernel, pid: Pid, sig: u64)
    requires
        old(k).wf(),
        1 <= sig <= 64,
    ensures
        final(k).wf(),
        final(k)@ == woken_if(old(k)@, pid, futex_waiting(old(k)@.procs[pid], sig)),
{
    let wake: bool = match k.procs.get(pid) {
        Some(p) => match p.state {
            ProcState::Blocked(BlockReason::WaitingForFutex(_, _, _)) => p.blocked_signals
                & sig_bit(sig) == 0,
            _ => false,
        },
        None => false,
    };
    if wake {
        make_ready(k, pid);
    }
}

// ---------------------------------------------------------------------------------------------
// Sending
// ---------------------------------------------------------------------------------------------
/// `s` after `sig` became pending on `pid` and ended a wait that it ends.
pub open spec fn posted(s: KernelView, pid: Pid, sig: u64, info: QueuedSigInfo) -> KernelView {
    let p = pended(s.procs[pid], sig, info);
    woken_if(with_proc(s, pid, p), pid, interruptible(p, sig))
}

/// `s` after `pid` was stopped by `sig`.
pub open spec fn stopped(s: KernelView, pid: Pid, sig: u64) -> KernelView {
    let p = s.procs[pid];
    let q = ProcView {
        state: ProcState::Stopped(sig),
        stop_notify_pending: true,
        pending_signals: p.pending_signals & !bit_of(SIGCONT),
        ..p
    };
    parent_woken(
        KernelView {
            ready: if p.state == ProcState::Ready {
                queue_without(s.ready, pid)
            } else {
                s.ready
            },
            ..with_proc(s, pid, q)
        },
        pid,
    )
}

/// `s` after a stopped `pid` was resumed; a parent that waits for it is made ready first.
pub open spec fn continued(s: KernelView, pid: Pid) -> KernelView {
    let p = s.procs[pid];
    let q = ProcView {
        state: ProcState::Ready,
        cont_notify_pending: true,
        stop_notify_pending: false,
        pending_signals: p.pending_signals & !(bit_of(SIGSTOP) | bit_of(SIGTSTP)),
        ..p
    };
    crate::process::scheduler::enqueued(parent_woken(with_proc(s, pid, q), pid), pid)
}

/// `s` after `SIGCONT` has resumed `pid`, where `sig` is `SIGCONT` and `pid` is stopped.
pub open spec fn cont_first(s: KernelView, pid: Pid, sig: u64) -> KernelView {
    if sig == SIGCONT && s.procs.contains_key(pid) && s.procs[pid].state is Stopped {
        continued(s, pid)
    } else {
        s
    }
}

/// `s` after `pid` has met `sig` as its disposition says.
pub open spec fn signalled(s: KernelView, pid: Pid, sig: u64, info: QueuedSigInfo) -> KernelView {
    match response(s.procs[pid].sigactions[sig as int].handler, sig) {
        Response::Discard => s,
        Response::Terminate => terminated(s, pid, (128 + sig) as i32),
        Response::Stop => stopped(s, pid, sig),
        Response::SetPending => posted(s, pid, sig, info),
    }
}

/// Clearing standard signals leaves the bookkeeping of real-time signals in order.
proof fn lemma_clear_std(p: ProcView, q: ProcView, mask: u64)
    requires
        signals_ok(p),
        q.rt_queue == p.rt_queue,
        q.pending_signals == p.pending_signals & !mask,
        forall|t: u64| SIGRTMIN <= t <= SIGRTMAX ==> !#[trigger] has_sig(mask, t),
    ensures
        signals_ok(q),
{
    lemma_masks();
    assert forall|t: u64| SIGRTMIN <= t <= SIGRTMAX implies (#[trigger] has_sig(
        q.pending_signals,
        t,
    ) <==> q.rt_queue[t - SIGRTMIN].len() > 0) by {
        assert(!has_sig(mask, t));
        assert(has_sig(p.pending_signals, t) <==> p.rt_queue[t - SIGRTMIN].len() > 0);
    }
    assert forall|t: u64| 32 <= t <= 34 implies !#[trigger] has_sig(q.pending_signals, t) by {
        assert(!has_sig(p.pending_signals, t));
    }
}

/// Resumes `pid` if it is stopped and `sig` is `SIGCONT`.
fn resume_if_stopped(k: &mut Kernel, pid: Pid, sig: u64)
    requires
        old(k).wf(),
    ensures
        final(k).wf(),
        final(k)@ == cont_first(old(k)@, pid, sig),
{
    let ghost before = k@;
    if sig != SIGCONT {
        return ;
    }
    let mut resumed: bool = false;
    if let Some(p) = k.procs.get_mut(pid) {
        if let ProcState::Stopped(_) = p.state {
            proof {
                assert(before.procs.contains_key(pid));
                lemma_masks();
            }
            let ghost was = p@;
            p.state = ProcState::Ready;
            p.cont_notify_pending = true;
            p.stop_notify_pending = false;
            p.pending_signals = p.pending_signals & !(sig_bit(SIGSTOP) | sig_bit(SIGTSTP));
            resumed = true;
            proof {
                lemma_clear_std(was, p@, bit_of(SIGSTOP) | bit_of(SIGTSTP));
            }
        }
    }
    if resumed {
        let ghost mid = k@;
        proof {
            let p = before.procs[pid];
            assert(mid =~= with_proc(
                before,
                pid,
                ProcView {
                    state: ProcState::Ready,
                    cont_notify_pending: true,
                    stop_notify_pending: false,
                    pending_signals: p.pending_signals & !(bit_of(SIGSTOP) | bit_of(SIGTSTP)),
                    ..p
                },
            ));
        }
        wake_parent_if_waiting(k, pid);
        enqueue_ready(&mut k.ready, pid);
    }
    assert(k@ =~= cont_first(before, pid, sig));
}

/// Stops `pid`.
fn stop_process(k: &mut Kernel, pid: Pid, sig: u64)
    requires
        old(k).wf(),
        old(k)@.procs.contains_key(pid),
    ensures
        final(k).wf(),
        final(k)@ == stopped(old(k)@, pid, sig),
{
    let ghost before = k@;
    let mut queued: bool = false;
    if let Some(p) = k.procs.get_mut(pid) {
        proof {
            assert(before.procs.contains_key(pid));
            lemma_masks();
        }
        let ghost was = p@;
        queued = p.state == ProcState::Ready;
        p.state = ProcState::Stopped(sig);
        p.stop_notify_pending = true;
        p.pending_signals = p.pending_signals & !sig_bit(SIGCONT);
        proof {
            lemma_clear_std(was, p@, bit_of(SIGCONT));
            assert(proc_ok(p@));
        }
    }
    let ghost mid = k@;
    assert(mid.procs[pid].pid == pid);
    assert(crate::process::kernel_ok(mid));
    if queued {
        remove_ready(&mut k.ready, pid);
    }
    assert(k@.procs == mid.procs);
    wake_parent_if_waiting(k, pid);
}

/// Makes `sig` pending on `pid` and ends a wait that it ends. Says whether the instance fitted.
fn post(k: &mut Kernel, pid: Pid, sig: u64, info: QueuedSigInfo, wake_when_full: bool) -> (r: bool)
    requires
        old(k).wf(),
        old(k)@.procs.contains_key(pid),
        sendable(sig as int),
    ensures
        final(k).wf(),
        r == fits(old(k)@.procs[pid], sig),
        r || wake_when_full ==> final(k)@ == posted(old(k)@, pid, sig, info),
        !r && !wake_when_full ==> final(k)@ == with_proc(
            old(k)@,
            pid,
            pended(old(k)@.procs[pid], sig, info),
        ),
{
    let ghost before = k@;
    let mut ok: bool = true;
    if let Some(p) = k.procs.get_mut(pid) {
        assert(before.procs.contains_key(pid));
        ok = record_pending(p, sig, info.code, info.pid, info.uid, info.value).is_ok();
    }
    assert(k@ =~= with_proc(before, pid, pended(before.procs[pid], sig, info)));
    if ok || wake_when_full {
        wake_if_paused(k, pid, sig);
        wake_if_sigwaiting(k, pid, sig);
        wake_if_sleeping(k, pid, sig);
        wake_if_mq_waiting(k, pid, sig);
        wake_if_futex_waiting(k, pid, sig);
        assert(k@ =~= posted(before, pid, sig, info));
    }
    ok
}

/// Lets `pid` meet `sig` as its disposition says. Says whether the instance, if it had to be
/// queued, fitted.
fn meet(k: &mut Kernel, pid: Pid, sig: u64, info: QueuedSigInfo, wake_when_full: bool) -> (r: bool)
    requires
        old(k).wf(),
        old(k)@.procs.contains_key(pid),
        sendable(sig as int),
    ensures
        final(k).wf(),
        r <==> response(old(k)@.procs[pid].sigactions[sig as int].handler, sig)
            != Response::SetPending || fits(old(k)@.procs[pid], sig),
        r || wake_when_full ==> final(k)@ == signalled(old(k)@, pid, sig, info),
        !r && !wake_when_full ==> final(k)@ == with_proc(
            old(k)@,
            pid,
            pended(old(k)@.procs[pid], sig, info),
        ),
{
    let ghost before = k@;
    let handler: u64 = match k.procs.get(pid) {
        Some(p) => p.sigactions[sig as usize].handler,
        None => 1,
    };
    match resolve(handler, sig) {
        Response::Discard => true,
        Response::Terminate => {
            terminate_process(k, pid, 128 + sig as i32);
            true
        },
        Response::Stop => {
            stop_process(k, pid, sig);
            true
        },
        Response::SetPending => post(k, pid, sig, info, wake_when_full),
    }
}

/// A process of group `pgid` that has not ended.
pub open spec fn in_group(p: ProcView, pgid: Pid) -> bool {
    p.pgid == pgid && !(p.state is Zombie)
}

/// The test for being a live member of group `pgid`.
pub open spec fn group_test(procs: Map<Pid, ProcView>, pgid: Pid) -> spec_fn(Pid) -> bool {
    |pid: Pid| in_group(procs[pid], pgid)
}

/// The live members of group `pgid`, in ascending order.
pub open spec fn members(s: KernelView, pgid: Pid) -> Seq<Pid> {
    s.pids.filter(group_test(s.procs, pgid))
}

/// `s` after `SIGCONT` has resumed each stopped process of `list`.
pub open spec fn each_continued(s: KernelView, list: Seq<Pid>, sig: u64) -> KernelView
    decreases list.len(),
{
    if list.len() == 0 {
        s
    } else {
        cont_first(each_continued(s, list.drop_last(), sig), list.last(), sig)
    }
}

/// `s` after each process of `list` has met `sig`, in order.
pub open spec fn each_signalled(s: KernelView, list: Seq<Pid>, sig: u64) -> KernelView
    decreases list.len(),
{
    if list.len() == 0 {
        s
    } else {
        signalled(
            each_signalled(s, list.drop_last(), sig),
            list.last(),
            sig,
            QueuedSigInfo { code: SI_USER, pid: 0, uid: 0, value: 0 },
        )
    }
}

/// `s` after `sig` was sent to every live member of group `pgid`.
pub open spec fn group_signalled(s: KernelView, pgid: Pid, sig: u64) -> KernelView {
    let list = members(s, pgid);
    each_signalled(each_continued(s, list, sig), list, sig)
}

/// Signals create and remove no process.
proof fn lemma_signalled_dom(s: KernelView, pid: Pid, sig: u64, info: QueuedSigInfo)
    requires
        s.procs.contains_key(pid),
    ensures
        signalled(s, pid, sig, info).procs.dom() == s.procs.dom(),
{
    assert(signalled(s, pid, sig, info).procs.dom() =~= s.procs.dom());
}

fn live_members(k: &Kernel, pgid: Pid) -> (r: Vec<Pid>)
    requires
        k.wf(),
    ensures
        r@ == members(k@, pgid),
        forall|i: int| 0 <= i < r@.len() ==> k@.procs.contains_key(#[trigger] r@[i]),
{
    let mut out: Vec<Pid> = Vec::new();
    let n: usize = k.procs.len();
    let ghost all = k@.pids;
    let ghost test = group_test(k@.procs, pgid);
    let mut i: usize = 0;
    while i < n
        invariant
            k.wf(),
            n == all.len(),
            all == k@.pids,
            all == k.procs.order(),
            i <= n,
            test == group_test(k@.procs, pgid),
            out@ == all.take(i as int).filter(test),
            forall|j: int| 0 <= j < out@.len() ==> k@.procs.contains_key(#[trigger] out@[j]),
        decreases n - i,
    {
        let pid: Pid = k.procs.key_at(i);
        let p = k.procs.val_at(i);
        proof {
            reveal(Seq::filter);
            assert(all.take(i + 1).drop_last() =~= all.take(i as int));
        }
        let zombie: bool = match p.state {
            ProcState::Zombie(_) => true,
            _ => false,
        };
        if p.pgid == pgid && !zombie {
            out.push(pid);
        }
        i += 1;
    }
    assert(all.take(i as int) =~= all);
    out
}

/// Sends `sig` to every live member of group `pgid`.
pub fn signal_foreground_group(k: &mut Kernel, pgid: Pid, sig: u64)
    requires
        old(k).wf(),
        sendable(sig as int),
    ensures
        final(k).wf(),
        final(k)@ == group_signalled(old(k)@, pgid, sig),
{
    let ghost before = k@;
    let matching: Vec<Pid> = live_members(k, pgid);
    let ghost list = matching@;
    let mut i: usize = 0;
    while i < matching.len()
        invariant
            k.wf(),
            list == matching@,
            i <= list.len(),
            k@.procs.dom() == before.procs.dom(),
            k@ == each_continued(before, list.take(i as int), sig),
        decreases list.len() - i,
    {
        proof {
            assert(list.take(i + 1).drop_last() =~= list.take(i as int));
        }
        let ghost mid = k@;
        resume_if_stopped(k, matching[i], sig);
        assert(k@.procs.dom() =~= mid.procs.dom());
        i += 1;
    }
    assert(list.take(i as int) =~= list);
    let ghost resumed = k@;
    let info = QueuedSigInfo { code: SI_USER, pid: 0, uid: 0, value: 0 };
    let mut j: usize = 0;
    while j < matching.len()
        invariant
            k.wf(),
            list == matching@,
            j <= list.len(),
            sendable(sig as int),
            info == (QueuedSigInfo { code: SI_USER, pid: 0, uid: 0, value: 0 }),
            k@.procs.dom() == before.procs.dom(),
            forall|i: int| 0 <= i < list.len() ==> before.procs.contains_key(#[trigger] list[i]),
            k@ == each_signalled(resumed, list.take(j as int), sig),
        decreases list.len() - j,
    {
        proof {
            assert(list.take(j + 1).drop_last() =~= list.take(j as int));
            assert(k@.procs.dom().contains(list[j as int]));
            lemma_signalled_dom(k@, list[j as int], sig, info);
        }
        meet(k, matching[j], sig, info, true);
        j += 1;
    }
    assert(list.take(j as int) =~= list);
}

/// A signal number that `kill` takes; `0` only asks.
pub open spec fn kill_number(sig: i64) -> bool {
    sig == 0 || sendable(sig as int)
}

/// The group that a target of `kill` at or below zero names.
pub open spec fn kill_group(s: KernelView, caller: Pid, target: i64) -> Pid {
    if target == 0 {
        s.procs[caller].pgid
    } else {
        (-target) as u64
    }
}

/// What asking about process `target` answers.
pub open spec fn probe(s: KernelView, caller: Pid, target: Pid) -> Result<u64, u64> {
    if target == caller {
        Ok(0)
    } else if !s.procs.contains_key(target) {
        Err(ESRCH)
    } else if may_signal(uid_of(s, s.current), s.procs[target].uid) {
        Ok(0)
    } else {
        Err(EPERM)
    }
}

/// What `kill` answers.
pub open spec fn kill_answer(s: KernelView, caller: Pid, target: i64, sig: i64) -> Result<
    u64,
    u64,
> {
    if !kill_number(sig) {
        Err(EINVAL)
    } else if target <= 0 {
        if target == i64::MIN {
            Err(EINVAL)
        } else if members(s, kill_group(s, caller, target)).len() == 0 {
            Err(ESRCH)
        } else {
            Ok(0)
        }
    } else {
        probe(s, caller, target as u64)
    }
}

/// What `kill` leaves behind.
pub open spec fn killed(s: KernelView, caller: Pid, target: i64, sig: i64) -> KernelView {
    let t = target as u64;
    let n = sig as u64;
    let info = QueuedSigInfo {
        code: SI_USER,
        pid: caller,
        uid: uid_of(s, s.current),
        value: 0,
    };
    if kill_answer(s, caller, target, sig) is Err || sig == 0 {
        s
    } else if target <= 0 {
        group_signalled(s, kill_group(s, caller, target), n)
    } else if t == caller {
        with_proc(s, caller, pended(s.procs[caller], n, info))
    } else if s.procs[t].state is Zombie {
        s
    } else {
        signalled(cont_first(s, t, n), t, n, info)
    }
}

/// Sends `sig` to process `target_pid`, to the caller's group where it is zero, or to the group of
/// its negation where it is below. Signal `0` only asks whether that would be allowed.
pub fn do_kill(k: &mut Kernel, caller_pid: Pid, target_pid: i64, sig: i64) -> (r: Result<u64, u64>)
    requires
        old(k).wf(),
        kill_number(sig) && (target_pid == 0 || (sig != 0 && target_pid == caller_pid)) ==> old(
            k,
        )@.procs.contains_key(caller_pid),
    ensures
        final(k).wf(),
        r == kill_answer(old(k)@, caller_pid, target_pid, sig),
        final(k)@ == killed(old(k)@, caller_pid, target_pid, sig),
{
    let ghost before = k@;
    if !((0 <= sig && sig <= 31) || (35 <= sig && sig <= 64)) {
        return Err(EINVAL);
    }
    let caller_uid: u32 = oxidebsd_current_uid(k) as u32;
    if target_pid <= 0 {
        if target_pid == i64::MIN {
            return Err(EINVAL);
        }
        let pgid: Pid = if target_pid == 0 {
            match k.procs.get(caller_pid) {
                Some(p) => p.pgid,
                None => 0,
            }
        } else {
            (-target_pid) as u64
        };
        if live_members(k, pgid).len() == 0 {
            return Err(ESRCH);
        }
        if sig != 0 {
            signal_foreground_group(k, pgid, sig as u64);
        }
        return Ok(0);
    }
    let target: Pid = target_pid as u64;
    if target == caller_pid {
        if sig == 0 {
            return Ok(0);
        }
        if let Some(me) = k.procs.get_mut(caller_pid) {
            let _ = record_pending(me, sig as u64, SI_USER, caller_pid, caller_uid, 0);
        }
        assert(k@ =~= killed(before, caller_pid, target_pid, sig));
        return Ok(0);
    }
    let mut zombie: bool = false;
    match k.procs.get(target) {
        Some(p) => {
            if !has_signal_permission(caller_uid, p.uid) {
                return Err(EPERM);
            }
            if let ProcState::Zombie(_) = p.state {
                zombie = true;
            }
        },
        None => {
            return Err(ESRCH);
        },
    }
    if sig == 0 || zombie {
        return Ok(0);
    }
    let info = QueuedSigInfo { code: SI_USER, pid: caller_pid, uid: caller_uid, value: 0 };
    resume_if_stopped(k, target, sig as u64);
    meet(k, target, sig as u64, info, true);
    Ok(0)
}

/// What `sigqueue` answers.
pub open spec fn sigqueue_answer(s: KernelView, caller: Pid, target: i64, sig: i64) -> Result<
    u64,
    u64,
> {
    let t = target as u64;
    let n = sig as u64;
    if !kill_number(sig) || target <= 0 {
        Err(EINVAL)
    } else if probe(s, caller, t) is Err || sig == 0 {
        probe(s, caller, t)
    } else if t == caller {
        if fits(s.procs[t], n) {
            Ok(0)
        } else {
            Err(EAGAIN)
        }
    } else if !(s.procs[t].state is Zombie) && response(
        s.procs[t].sigactions[n as int].handler,
        n,
    ) == Response::SetPending && !fits(s.procs[t], n) {
        Err(EAGAIN)
    } else {
        Ok(0)
    }
}

/// What `sigqueue` leaves behind.
pub open spec fn sigqueued(s: KernelView, caller: Pid, target: i64, sig: i64, value: u64) -> KernelView {
    let t = target as u64;
    let n = sig as u64;
    let info = QueuedSigInfo { code: SI_QUEUE, pid: caller, uid: uid_of(s, s.current), value };
    if !kill_number(sig) || target <= 0 || probe(s, caller, t) is Err || sig == 0 {
        s
    } else if t == caller {
        with_proc(s, t, pended(s.procs[t], n, info))
    } else if s.procs[t].state is Zombie {
        s
    } else if sigqueue_answer(s, caller, target, sig) is Err {
        with_proc(s, t, pended(s.procs[t], n, info))
    } else {
        signalled(cont_first(s, t, n), t, n, info)
    }
}

/// Sends `sig` with a value to one process. Signal `0` only asks whether that would be allowed.
pub fn do_sigqueue(k: &mut Kernel, caller_pid: Pid, target_pid: i64, sig: i64, value: u64) -> (r:
    Result<u64, u64>)
    requires
        old(k).wf(),
        kill_number(sig) && sig != 0 && target_pid == caller_pid && target_pid > 0 ==> old(
            k,
        )@.procs.contains_key(caller_pid),
    ensures
        final(k).wf(),
        r == sigqueue_answer(old(k)@, caller_pid, target_pid, sig),
        final(k)@ == sigqueued(old(k)@, caller_pid, target_pid, sig, value),
{
    let ghost before = k@;
    if !((0 <= sig && sig <= 31) || (35 <= sig && sig <= 64)) {
        return Err(EINVAL);
    }
    if target_pid <= 0 {
        return Err(EINVAL);
    }
    let target: Pid = target_pid as u64;
    let caller_uid: u32 = oxidebsd_current_uid(k) as u32;
    if target == caller_pid {
        if sig == 0 {
            return Ok(0);
        }
        let mut ok: bool = true;
        if let Some(me) = k.procs.get_mut(caller_pid) {
            ok = record_pending(me, sig as u64, SI_QUEUE, caller_pid, caller_uid, value).is_ok();
        }
        assert(k@ =~= sigqueued(before, caller_pid, target_pid, sig, value));
        return if ok {
            Ok(0)
        } else {
            Err(EAGAIN)
        };
    }
    let mut zombie: bool = false;
    match k.procs.get(target) {
        Some(p) => {
            if !has_signal_permission(caller_uid, p.uid) {
                return Err(EPERM);
            }
            if let ProcState::Zombie(_) = p.state {
                zombie = true;
            }
        },
        None => {
            return Err(ESRCH);
        },
    }
    if sig == 0 || zombie {
        return Ok(0);
    }
    let info = QueuedSigInfo { code: SI_QUEUE, pid: caller_pid, uid: caller_uid, value };
    resume_if_stopped(k, target, sig as u64);
    if meet(k, target, sig as u64, info, false) {
        Ok(0)
    } else {
        Err(EAGAIN)
    }
}

// ---------------------------------------------------------------------------------------------
// Waiting
// ---------------------------------------------------------------------------------------------
/// `s` with `pid` blocked for `reason`.
pub open spec fn blocked_on(s: KernelView, pid: Pid, reason: BlockReason) -> KernelView {
    crate::process::with_state(s, pid, ProcState::Blocked(reason))
}

/// Whether a signal waits that the process does not hold back.
pub open spec fn signal_waiting(p: ProcView) -> bool {
    p.pending_signals & !p.blocked_signals != 0
}

/// Waits for a signal. It never succeeds: it is interrupted once a signal can be delivered.
pub fn do_pause(k: &mut Kernel, pid: Pid) -> (r: Step)
    requires
        old(k).wf(),
        old(k)@.procs.contains_key(pid),
    ensures
        final(k).wf(),
        signal_waiting(old(k)@.procs[pid]) ==> r == Step::Done(Err(EINTR)) && final(k)@ == old(k)@,
        !signal_waiting(old(k)@.procs[pid]) ==> r == Step::Block && final(k)@ == blocked_on(
            old(k)@,
            pid,
            BlockReason::WaitingForSignal,
        ),
{
    let ghost before = k@;
    if let Some(p) = k.procs.get_mut(pid) {
        if p.pending_signals & !p.blocked_signals != 0 {
            assert(k@ =~= before);
            return Step::Done(Err(EINTR));
        }
        p.state = ProcState::Blocked(BlockReason::WaitingForSignal);
    }
    assert(k@ =~= blocked_on(before, pid, BlockReason::WaitingForSignal));
    Step::Block
}

/// Begins a wait under another mask, and returns the mask to go back to.
pub fn do_sigsuspend(k: &mut Kernel, pid: Pid, requested: u64) -> (original: u64)
    requires
        old(k).wf(),
        old(k)@.procs.contains_key(pid),
    ensures
        final(k).wf(),
        original == old(k)@.procs[pid].blocked_signals,
        final(k)@ == with_mask(old(k)@, pid, requested & !unblockable()),
{
    let ghost before = k@;
    let mut original: u64 = 0;
    if let Some(p) = k.procs.get_mut(pid) {
        original = p.blocked_signals;
        p.blocked_signals = requested & !unblockable_mask();
    }
    assert(k@ =~= with_mask(before, pid, requested & !unblockable()));
    original
}

/// `s` with another mask for `pid`.
pub open spec fn with_mask(s: KernelView, pid: Pid, mask: u64) -> KernelView {
    with_proc(s, pid, ProcView { blocked_signals: mask, ..s.procs[pid] })
}

/// `s` with a mask for `pid` to go back to once its signal was dealt with.
pub open spec fn with_restore(s: KernelView, pid: Pid, mask: Option<u64>) -> KernelView {
    with_proc(s, pid, ProcView { sigsuspend_restore_mask: mask, ..s.procs[pid] })
}

/// Goes on with a wait that `do_sigsuspend` began. The temporary mask stays in force until the
/// signal that ended the wait was dealt with; the mask to go back to is put aside.
pub fn sigsuspend_step(k: &mut Kernel, pid: Pid, original: u64) -> (r: Step)
    requires
        old(k).wf(),
        old(k)@.procs.contains_key(pid),
    ensures
        final(k).wf(),
        signal_waiting(old(k)@.procs[pid]) ==> r == Step::Done(Err(EINTR)) && final(k)@
            == with_restore(old(k)@, pid, Some(original)),
        !signal_waiting(old(k)@.procs[pid]) ==> r == Step::Block && final(k)@ == blocked_on(
            old(k)@,
            pid,
            BlockReason::WaitingForSignal,
        ),
{
    let ghost before = k@;
    if let Some(p) = k.procs.get_mut(pid) {
        if p.pending_signals & !p.blocked_signals != 0 {
            p.sigsuspend_restore_mask = Some(original);
            assert(k@ =~= with_restore(before, pid, Some(original)));
            return Step::Done(Err(EINTR));
        }
        p.state = ProcState::Blocked(BlockReason::WaitingForSignal);
    }
    assert(k@ =~= blocked_on(before, pid, BlockReason::WaitingForSignal));
    Step::Block
}

/// Takes the mask that `sigsuspend_step` put aside.
pub fn take_sigsuspend_restore_mask(k: &mut Kernel, pid: Pid) -> (r: Option<u64>)
    requires
        old(k).wf(),
    ensures
        final(k).wf(),
        old(k)@.procs.contains_key(pid) ==> r == old(k)@.procs[pid].sigsuspend_restore_mask
            && final(k)@ == with_restore(old(k)@, pid, None),
        !old(k)@.procs.contains_key(pid) ==> r is None && final(k)@ == old(k)@,
{
    let ghost before = k@;
    match k.procs.get_mut(pid) {
        Some(p) => {
            let r = p.sigsuspend_restore_mask.take();
            assert(k@ =~= with_restore(before, pid, None));
            r
        },
        None => None,
    }
}

/// Sets the mask of `pid`, if there is such a process.
pub fn restore_blocked_signals(k: &mut Kernel, pid: Pid, mask: u64)
    requires
        old(k).wf(),
    ensures
        final(k).wf(),
        final(k)@ == if old(k)@.procs.contains_key(pid) {
            with_mask(old(k)@, pid, mask)
        } else {
            old(k)@
        },
{
    let ghost before = k@;
    if let Some(p) = k.procs.get_mut(pid) {
        p.blocked_signals = mask;
        assert(k@ =~= with_mask(before, pid, mask));
    }
}

/// `s` with the handlers in progress of `pid` replaced.
pub open spec fn with_stack(s: KernelView, pid: Pid, stack: Seq<SignalStackFrame>) -> KernelView {
    with_proc(s, pid, ProcView { signal_stack: stack, ..s.procs[pid] })
}

/// Changes the mask that the end of the innermost handler of `pid` restores.
pub fn set_signal_saved_blocked_override(k: &mut Kernel, pid: Pid, mask: u64)
    requires
        old(k).wf(),
    ensures
        final(k).wf(),
        final(k)@ == if old(k)@.procs.contains_key(pid) && old(k)@.procs[pid].signal_stack.len()
            > 0 {
            let stack = old(k)@.procs[pid].signal_stack;
            with_stack(
                old(k)@,
                pid,
                stack.update(
                    stack.len() - 1,
                    SignalStackFrame { blocked_before: mask, ..stack.last() },
                ),
            )
        } else {
            old(k)@
        },
{
    let ghost before = k@;
    if let Some(p) = k.procs.get_mut(pid) {
        let n: usize = p.signal_stack.len();
        if n > 0 {
            let top = p.signal_stack[n - 1];
            p.signal_stack[n - 1] = SignalStackFrame { saved: top.saved, blocked_before: mask };
            let ghost stack = before.procs[pid].signal_stack;
            assert(k@ =~= with_stack(
                before,
                pid,
                stack.update(
                    stack.len() - 1,
                    SignalStackFrame { blocked_before: mask, ..stack.last() },
                ),
            ));
        } else {
            assert(k@ =~= before);
        }
    }
}

// ---------------------------------------------------------------------------------------------
// Settings
// ---------------------------------------------------------------------------------------------
/// `s` with another disposition of `pid` for `sig`.
pub open spec fn with_action(s: KernelView, pid: Pid, sig: u64, act: SigAction) -> KernelView {
    let p = s.procs[pid];
    with_proc(s, pid, ProcView { sigactions: p.sigactions.update(sig as int, act), ..p })
}

/// Sets the disposition of a signal, if one is given, and returns the one it had.
pub fn do_sigaction(k: &mut Kernel, pid: Pid, sig: u64, act: Option<SigAction>) -> (previous: SigAction)
    requires
        old(k).wf(),
        old(k)@.procs.contains_key(pid),
        sig <= 64,
    ensures
        final(k).wf(),
        previous == old(k)@.procs[pid].sigactions[sig as int],
        final(k)@ == match act {
            Some(a) => with_action(old(k)@, pid, sig, a),
            None => old(k)@,
        },
{
    let ghost before = k@;
    let mut was = SigAction { handler: 0, flags: 0, restorer: 0, mask: 0 };
    if let Some(p) = k.procs.get_mut(pid) {
        was = p.sigactions[sig as usize];
        if let Some(a) = act {
            p.sigactions[sig as usize] = a;
        }
    }
    proof {
        match act {
            Some(a) => {
                assert(k@ =~= with_action(before, pid, sig, a));
            },
            None => {
                assert(k@ =~= before);
            },
        }
    }
    was
}

/// `s` with another alternate stack for `pid`.
pub open spec fn with_altstack(s: KernelView, pid: Pid, a: AltStack) -> KernelView {
    with_proc(s, pid, ProcView { altstack: a, ..s.procs[pid] })
}

/// The alternate stack that a request establishes.
pub open spec fn requested_altstack(ss: AltStack) -> AltStack {
    if ss.flags & SS_DISABLE != 0 {
        no_altstack()
    } else {
        AltStack { sp: ss.sp, flags: 0, size: ss.size }
    }
}

/// Sets the alternate signal stack, if one is given, and returns the one there was. Only the flag
/// that disables it can be set; being on the stack is never reported.
pub fn do_sigaltstack(k: &mut Kernel, pid: Pid, ss: Option<AltStack>) -> (r: (
    AltStack,
    Result<u64, u64>,
))
    requires
        old(k).wf(),
        old(k)@.procs.contains_key(pid),
    ensures
        final(k).wf(),
        ({
            let a = old(k)@.procs[pid].altstack;
            r.0 == AltStack { flags: a.flags & !SS_ONSTACK, ..a }
        }),
        match ss {
            Some(a) => if a.flags & !SS_DISABLE != 0 {
                r.1 == Err::<u64, u64>(EINVAL) && final(k)@ == old(k)@
            } else {
                r.1 == Ok::<u64, u64>(0) && final(k)@ == with_altstack(
                    old(k)@,
                    pid,
                    requested_altstack(a),
                )
            },
            None => r.1 == Ok::<u64, u64>(0) && final(k)@ == old(k)@,
        },
{
    let ghost before = k@;
    let mut was = AltStack { sp: 0, flags: 0, size: 0 };
    let mut answer: Result<u64, u64> = Ok(0);
    if let Some(p) = k.procs.get_mut(pid) {
        was = AltStack {
            sp: p.altstack.sp,
            flags: p.altstack.flags & !SS_ONSTACK,
            size: p.altstack.size,
        };
        if let Some(a) = ss {
            if a.flags & !SS_DISABLE != 0 {
                answer = Err(EINVAL);
            } else if a.flags & SS_DISABLE != 0 {
                p.altstack = AltStack { sp: 0, flags: SS_DISABLE, size: 0 };
            } else {
                p.altstack = AltStack { sp: a.sp, flags: 0, size: a.size };
            }
        }
    }
    proof {
        match ss {
            Some(a) => {
                if a.flags & !SS_DISABLE != 0 {
                    assert(k@ =~= before);
                } else {
                    assert(k@ =~= with_altstack(before, pid, requested_altstack(a)));
                }
            },
            None => {
                assert(k@ =~= before);
            },
        }
    }
    (was, answer)
}

pub const SIG_BLOCK: u64 = 0;
pub const SIG_UNBLOCK: u64 = 1;
pub const SIG_SETMASK: u64 = 2;

/// The mask that `sigprocmask` leaves; `SIGKILL` and `SIGSTOP` are never added.
pub open spec fn masked(old_mask: u64, how: u64, requested: u64) -> u64 {
    if how == SIG_BLOCK {
        old_mask | (requested & !unblockable())
    } else if how == SIG_UNBLOCK {
        old_mask & !requested
    } else {
        requested & !unblockable()
    }
}

/// Changes the mask of held-back signals, if a set is given, and returns the one there was.
pub fn do_sigprocmask(k: &mut Kernel, pid: Pid, how: u64, set: Option<u64>) -> (r: (
    u64,
    Result<u64, u64>,
))
    requires
        old(k).wf(),
        old(k)@.procs.contains_key(pid),
    ensures
        final(k).wf(),
        r.0 == old(k)@.procs[pid].blocked_signals,
        match set {
            Some(m) => if how > SIG_SETMASK {
                r.1 == Err::<u64, u64>(EINVAL) && final(k)@ == old(k)@
            } else {
                r.1 == Ok::<u64, u64>(0) && final(k)@ == with_mask(
                    old(k)@,
                    pid,
                    masked(old(k)@.procs[pid].blocked_signals, how, m),
                )
            },
            None => r.1 == Ok::<u64, u64>(0) && final(k)@ == old(k)@,
        },
{
    let ghost before = k@;
    let mut was: u64 = 0;
    let mut answer: Result<u64, u64> = Ok(0);
    if let Some(p) = k.procs.get_mut(pid) {
        was = p.blocked_signals;
        if let Some(m) = set {
            if how == SIG_BLOCK {
                p.blocked_signals = was | (m & !unblockable_mask());
            } else if how == SIG_UNBLOCK {
                p.blocked_signals = was & !m;
            } else if how == SIG_SETMASK {
                p.blocked_signals = m & !unblockable_mask();
            } else {
                answer = Err(EINVAL);
            }
        }
    }
    proof {
        match set {
            Some(m) => {
                if how > SIG_SETMASK {
                    assert(k@ =~= before);
                } else {
                    assert(k@ =~= with_mask(
                        before,
                        pid,
                        masked(before.procs[pid].blocked_signals, how, m),
                    ));
                }
            },
            None => {
                assert(k@ =~= before);
            },
        }
    }
    (was, answer)
}

/// The signals pending on `pid`.
pub fn do_sigpending(k: &Kernel, pid: Pid) -> (r: u64)
    requires
        k.wf(),
        k@.procs.contains_key(pid),
    ensures
        r == k@.procs[pid].pending_signals,
{
    match k.procs.get(pid) {
        Some(p) => p.pending_signals,
        None => 0,
    }
}

// ---------------------------------------------------------------------------------------------
// Delivery
// ---------------------------------------------------------------------------------------------
/// What is to be done about a signal.
#[derive(Clone, Copy, PartialEq, Eq, Structural, Debug)]
pub enum SignalDelivery {
    /// End the process with this code.
    Terminate(i32),
    /// Stop the process.
    Stop(u64),
    /// Run a handler.
    Handler {
        signum: u64,
        handler: u64,
        restorer: u64,
        /// What is held back besides while the handler runs.
        mask_to_add: u64,
        flags: u64,
        siginfo: QueuedSigInfo,
    },
}

/// Whether `sig` waits on `p` and is not held back.
pub open spec fn deliverable(p: ProcView, sig: u64) -> bool {
    has_sig(p.pending_signals, sig) && !has_sig(p.blocked_signals, sig)
}

/// Whether `p` ignores `sig`.
pub open spec fn ignores(p: ProcView, sig: u64) -> bool {
    response(p.sigactions[sig as int].handler, sig) == Response::Discard
}

/// `p` without any instance of `sig`.
pub open spec fn dropped(p: ProcView, sig: u64) -> ProcView {
    ProcView {
        pending_signals: p.pending_signals & !bit_of(sig),
        rt_queue: if sig >= SIGRTMIN {
            p.rt_queue.update(sig - SIGRTMIN, Seq::empty())
        } else {
            p.rt_queue
        },
        ..p
    }
}

/// `p` without the deliverable signals below `n`.
pub open spec fn discarded(p: ProcView, n: u64) -> ProcView
    decreases n,
{
    if n <= 1 {
        p
    } else {
        let q = discarded(p, (n - 1) as u64);
        if deliverable(p, (n - 1) as u64) {
            dropped(q, (n - 1) as u64)
        } else {
            q
        }
    }
}

/// `n` is the lowest deliverable signal that `p` does not ignore.
pub open spec fn next_signal(p: ProcView, n: u64) -> bool {
    &&& 1 <= n <= 64
    &&& deliverable(p, n)
    &&& !ignores(p, n)
    &&& forall|t: u64| 1 <= t < n && #[trigger] deliverable(p, t) ==> ignores(p, t)
}

/// The mask that the handler of `sig` adds: that of its disposition, and the signal itself unless
/// the disposition says otherwise.
pub open spec fn handler_mask(a: SigAction, sig: u64) -> u64 {
    if a.flags & SA_NODEFER != 0 {
        (a.mask | bit_of(sig)) & !bit_of(sig)
    } else {
        a.mask | bit_of(sig)
    }
}

/// What is to be done about `sig`.
pub open spec fn delivery(p: ProcView, sig: u64) -> SignalDelivery {
    let a = p.sigactions[sig as int];
    match response(a.handler, sig) {
        Response::Terminate => SignalDelivery::Terminate((128 + sig) as i32),
        Response::Stop => SignalDelivery::Stop(sig),
        _ => SignalDelivery::Handler {
            signum: sig,
            handler: a.handler,
            restorer: a.restorer,
            mask_to_add: handler_mask(a, sig),
            flags: a.flags,
            siginfo: front_info(p, sig),
        },
    }
}

/// Discarding lower signals leaves the higher ones alone.
pub proof fn lemma_discarded(p: ProcView, n: u64)
    requires
        proc_ok(p),
        1 <= n <= 65,
    ensures
        ({
            let q = discarded(p, n);
            &&& proc_ok(q)
            &&& q == (ProcView {
                pending_signals: q.pending_signals,
                rt_queue: q.rt_queue,
                ..p
            })
            &&& forall|t: u64|
                n <= t <= 64 ==> (#[trigger] has_sig(q.pending_signals, t) <==> has_sig(
                    p.pending_signals,
                    t,
                ))
            &&& forall|t: u64|
                1 <= t < n ==> (#[trigger] has_sig(q.pending_signals, t) <==> has_sig(
                    p.pending_signals,
                    t,
                ) && has_sig(p.blocked_signals, t))
            &&& forall|t: u64|
                n <= t <= 64 && t >= SIGRTMIN ==> #[trigger] q.rt_queue[t - SIGRTMIN]
                    == p.rt_queue[t - SIGRTMIN]
        }),
    decreases n,
{
    lemma_masks();
    if n > 1 {
        let m = (n - 1) as u64;
        lemma_discarded(p, m);
        let a = discarded(p, m);
        let q = discarded(p, n);
        if deliverable(p, m) {
            assert(q == dropped(a, m));
            assert forall|s: u64| SIGRTMIN <= s <= SIGRTMAX implies (#[trigger] has_sig(
                q.pending_signals,
                s,
            ) <==> q.rt_queue[s - SIGRTMIN].len() > 0) by {
                assert(has_sig(a.pending_signals, s) <==> a.rt_queue[s - SIGRTMIN].len() > 0);
            }
            assert forall|s: u64| 32 <= s <= 34 implies !#[trigger] has_sig(q.pending_signals, s) by {
                assert(!has_sig(a.pending_signals, s));
            }
            assert(signals_ok(q));
        }
    }
}

/// Drops every instance of `sig`.
fn drop_all(proc: &mut Process, sig: u64)
    requires
        old(proc)@.rt_queue.len() == RT_SIGNAL_COUNT,
        1 <= sig <= 64,
    ensures
        final(proc)@ == dropped(old(proc)@, sig),
{
    let ghost before = proc@;
    proc.pending_signals = proc.pending_signals & !sig_bit(sig);
    if sig >= SIGRTMIN {
        let i: usize = (sig - SIGRTMIN) as usize;
        proc.rt_queue[i] = Vec::new();
        assert(proc@.rt_queue =~= before.rt_queue.update(i as int, Seq::empty()));
    }
    assert(proc@ =~= dropped(before, sig));
}

/// Picks the lowest signal to act on from a process, past the ones it ignores, which are dropped.
fn pick_signal(p: &mut Process) -> (r: Option<SignalDelivery>)
    requires
        proc_ok(old(p)@),
    ensures
        proc_ok(final(p)@),
        match r {
            None => (forall|t: u64| 1 <= t <= 64 && #[trigger] deliverable(old(p)@, t) ==> ignores(old(p)@, t))
                && final(p)@ == discarded(old(p)@, 65),
            Some(d) => exists|n: u64| #[trigger]
                next_signal(old(p)@, n) && d == delivery(old(p)@, n) && final(p)@ == taken(
                    discarded(old(p)@, n),
                    n,
                ),
        },
{
    let ghost was = p@;
    let mut n: u64 = 1;
    while n <= 64
        invariant
            1 <= n <= 65,
            proc_ok(was),
            p@ == discarded(was, n),
            was == old(p)@,
            forall|t: u64| 1 <= t < n && #[trigger] deliverable(was, t) ==> ignores(was, t),
        decreases 65 - n,
    {
        proof {
            lemma_discarded(was, n);
            lemma_discarded(was, (n + 1) as u64);
        }
        let bit: u64 = sig_bit(n);
        if p.pending_signals & bit != 0 && p.blocked_signals & bit == 0 {
            assert(has_sig(p@.pending_signals, n));
            assert(deliverable(was, n));
            let action = p.sigactions[n as usize];
            match resolve(action.handler, n) {
                Response::Discard => {
                    drop_all(p, n);
                },
                Response::Terminate => {
                    take_one(p, n);
                    assert(next_signal(was, n));
                    return Some(SignalDelivery::Terminate(128 + n as i32));
                },
                Response::Stop => {
                    take_one(p, n);
                    assert(next_signal(was, n));
                    return Some(SignalDelivery::Stop(n));
                },
                Response::SetPending => {
                    let siginfo = take_one(p, n);
                    let mut mask_to_add: u64 = action.mask | bit;
                    if action.flags & SA_NODEFER != 0 {
                        mask_to_add = mask_to_add & !bit;
                    }
                    assert(next_signal(was, n));
                    if n >= SIGRTMIN {
                        assert(discarded(was, n).rt_queue[n - SIGRTMIN] == was.rt_queue[n
                            - SIGRTMIN]);
                    }
                    return Some(
                        SignalDelivery::Handler {
                            signum: n,
                            handler: action.handler,
                            restorer: action.restorer,
                            mask_to_add,
                            flags: action.flags,
                            siginfo,
                        },
                    );
                },
            }
        } else {
            assert(has_sig(p@.pending_signals, n) <==> has_sig(was.pending_signals, n));
            assert(!deliverable(was, n));
        }
        n += 1;
    }
    proof {
        lemma_discarded(was, 65);
    }
    None
}

/// Takes the next signal that `pid` has to act on: the lowest that is pending, not held back and
/// not ignored. Lower ones that it ignores are dropped.
pub fn take_deliverable_signal(k: &mut Kernel, pid: Pid) -> (r: Option<SignalDelivery>)
    requires
        old(k).wf(),
    ensures
        final(k).wf(),
        !old(k)@.procs.contains_key(pid) ==> r is None && final(k)@ == old(k)@,
        old(k)@.procs.contains_key(pid) ==> ({
            let p = old(k)@.procs[pid];
            match r {
                None => (forall|t: u64| 1 <= t <= 64 && #[trigger] deliverable(p, t) ==> ignores(p, t))
                    && final(k)@ == with_proc(old(k)@, pid, discarded(p, 65)),
                Some(d) => exists|n: u64| #[trigger]
                    next_signal(p, n) && d == delivery(p, n) && final(k)@ == with_proc(
                        old(k)@,
                        pid,
                        taken(discarded(p, n), n),
                    ),
            }
        }),
{
    let ghost before = k@;
    match k.procs.get_mut(pid) {
        Some(p) => {
            assert(before.procs.contains_key(pid));
            let r = pick_signal(p);
            proof {
                let was = before.procs[pid];
                assert(k@ =~= with_proc(before, pid, k@.procs[pid]));
                match r {
                    None => {
                        lemma_discarded(was, 65);
                    },
                    Some(d) => {
                        let n = choose|n: u64| #[trigger]
                            next_signal(was, n) && d == delivery(was, n) && k@.procs[pid] == taken(
                                discarded(was, n),
                                n,
                            );
                        assert(next_signal(was, n));
                        lemma_discarded(was, n);
                    },
                }
            }
            r
        },
        None => None,
    }
}

/// `s` after the handler of a signal was entered on `pid`.
pub open spec fn entered(s: KernelView, pid: Pid, saved: SyscallFrame, mask: u64) -> KernelView {
    let p = s.procs[pid];
    with_proc(
        s,
        pid,
        ProcView {
            blocked_signals: p.blocked_signals | mask,
            signal_stack: p.signal_stack.push(
                SignalStackFrame { saved, blocked_before: p.blocked_signals },
            ),
            ..p
        },
    )
}

/// Puts aside what a handler interrupts and holds back more signals while it runs. Returns the
/// mask there was.
pub fn stash_signal_context(k: &mut Kernel, pid: Pid, saved: SyscallFrame, mask_to_add: u64) -> (r:
    u64)
    requires
        old(k).wf(),
    ensures
        final(k).wf(),
        old(k)@.procs.contains_key(pid) ==> r == old(k)@.procs[pid].blocked_signals && final(k)@
            == entered(old(k)@, pid, saved, mask_to_add),
        !old(k)@.procs.contains_key(pid) ==> r == 0 && final(k)@ == old(k)@,
{
    let ghost before = k@;
    match k.procs.get_mut(pid) {
        Some(p) => {
            let was: u64 = p.blocked_signals;
            p.blocked_signals = was | mask_to_add;
            p.signal_stack.push(SignalStackFrame { saved, blocked_before: was });
            assert(k@ =~= entered(before, pid, saved, mask_to_add));
            was
        },
        None => 0,
    }
}

/// `s` after the innermost handler of `pid` has returned.
pub open spec fn left(s: KernelView, pid: Pid) -> KernelView {
    let p = s.procs[pid];
    with_proc(
        s,
        pid,
        ProcView {
            blocked_signals: p.signal_stack.last().blocked_before,
            signal_stack: p.signal_stack.drop_last(),
            ..p
        },
    )
}

/// Leaves the innermost handler of `pid`, if it is in one, and returns what it interrupted.
pub fn take_signal_saved_frame(k: &mut Kernel, pid: Pid) -> (r: Option<SyscallFrame>)
    requires
        old(k).wf(),
    ensures
        final(k).wf(),
        ({
            let s = old(k)@;
            if s.procs.contains_key(pid) && s.procs[pid].signal_stack.len() > 0 {
                r == Some(s.procs[pid].signal_stack.last().saved) && final(k)@ == left(s, pid)
            } else {
                r is None && final(k)@ == s
            }
        }),
{
    let ghost before = k@;
    match k.procs.get_mut(pid) {
        Some(p) => match p.signal_stack.pop() {
            Some(e) => {
                p.blocked_signals = e.blocked_before;
                assert(k@ =~= left(before, pid));
                Some(e.saved)
            },
            None => {
                assert(k@ =~= before);
                None
            },
        },
        None => None,
    }
}

/// The tick at which a wait of the given length ends.
pub fn resolve_relative_deadline(ts: Option<(i64, i64)>, now: u64) -> (r: Result<u64, u64>)
    requires
        ts matches Some(t) ==> valid_timespec(t.0, t.1) ==> deadline_after(ts, now) <= u64::MAX,
    ensures
        r == if ts matches Some(t) && !valid_timespec(t.0, t.1) {
            Err::<u64, u64>(EINVAL)
        } else {
            Ok(deadline_after(ts, now) as u64)
        },
{
    match ts {
        None => Ok(u64::MAX),
        Some((sec, nsec)) => match crate::process::timers::timespec_to_ticks(sec, nsec) {
            Some(t) => Ok(now + t),
            None => Err(EINVAL),
        },
    }
}

/// How a wait for a set of signals went on.
#[derive(Clone, Copy, PartialEq, Eq, Structural, Debug)]
pub enum SigWait {
    /// This signal was taken.
    Taken(u64, QueuedSigInfo),
    /// Time is up.
    TimedOut,
    /// The caller now blocks; the call is to be made again when it next runs.
    Block,
}

/// `n` is the lowest pending signal of the set.
pub open spec fn first_of(p: ProcView, set: u64, n: u64) -> bool {
    &&& 1 <= n <= 64
    &&& has_sig(p.pending_signals, n) && has_sig(set, n)
    &&& forall|t: u64| 1 <= t < n && #[trigger] has_sig(p.pending_signals, t) ==> !has_sig(set, t)
}

/// The lowest signal in both masks, or 65.
fn lowest_common(pending: u64, set: u64) -> (n: u64)
    ensures
        1 <= n <= 65,
        n <= 64 ==> has_sig(pending, n) && has_sig(set, n),
        forall|t: u64| 1 <= t < n && #[trigger] has_sig(pending, t) ==> !has_sig(set, t),
{
    let mut n: u64 = 1;
    while n <= 64
        invariant
            1 <= n <= 65,
            forall|t: u64| 1 <= t < n && #[trigger] has_sig(pending, t) ==> !has_sig(set, t),
        decreases 65 - n,
    {
        let bit: u64 = sig_bit(n);
        if pending & bit != 0 && set & bit != 0 {
            return n;
        }
        n += 1;
    }
    n
}

/// Takes the lowest pending signal of `wait_set`, whatever its disposition, or waits for one until
/// `deadline`.
pub fn do_sigtimedwait(k: &mut Kernel, pid: Pid, wait_set: u64, deadline: u64, now: u64) -> (r:
    SigWait)
    requires
        old(k).wf(),
        old(k)@.procs.contains_key(pid),
    ensures
        final(k).wf(),
        ({
            let s = old(k)@;
            let p = s.procs[pid];
            &&& forall|n: u64| #[trigger]
                first_of(p, wait_set, n) ==> r == SigWait::Taken(n, front_info(p, n)) && final(k)@
                    == with_proc(s, pid, taken(p, n))
            &&& (forall|n: u64| !#[trigger] first_of(p, wait_set, n)) ==> if now >= deadline {
                r == SigWait::TimedOut && final(k)@ == s
            } else {
                r == SigWait::Block && final(k)@ == blocked_on(
                    s,
                    pid,
                    BlockReason::WaitingForSpecificSignal(wait_set, deadline),
                )
            }
        }),
{
    let ghost before = k@;
    if let Some(p) = k.procs.get_mut(pid) {
        assert(before.procs.contains_key(pid));
        let ghost was = p@;
        let n: u64 = lowest_common(p.pending_signals, wait_set);
        if n <= 64 {
            assert(first_of(was, wait_set, n));
            assert forall|m: u64| #[trigger] first_of(was, wait_set, m) implies m == n by {}
            let info = take_one(p, n);
            assert(k@ =~= with_proc(before, pid, taken(was, n)));
            return SigWait::Taken(n, info);
        }
        assert(forall|m: u64| !#[trigger] first_of(was, wait_set, m));
        if now >= deadline {
            assert(k@ =~= before);
            return SigWait::TimedOut;
        }
        p.state = ProcState::Blocked(BlockReason::WaitingForSpecificSignal(wait_set, deadline));
        assert(k@ =~= blocked_on(
            before,
            pid,
            BlockReason::WaitingForSpecificSignal(wait_set, deadline),
        ));
    }
    SigWait::Block
}

/// The answer of `sigtimedwait` for a wait that is over.
pub fn sigtimedwait_answer(w: SigWait) -> (r: Option<Result<u64, u64>>)
    ensures
        r == match w {
            SigWait::Taken(n, _) => Some(Ok::<u64, u64>(n)),
            SigWait::TimedOut => Some(Err::<u64, u64>(EAGAIN)),
            SigWait::Block => None,
        },
{
    match w {
        SigWait::Taken(n, _) => Some(Ok(n)),
        SigWait::TimedOut => Some(Err(EAGAIN)),
        SigWait::Block => None,
    }
}

// ---------------------------------------------------------------------------------------------
// The record that programs see
// ---------------------------------------------------------------------------------------------
/// A sender record in the layout of `siginfo_t`: signal, code, errno and padding, sender, user,
/// value, and zeros up to 128 bytes.
pub open spec fn siginfo_layout(signum: u64, info: QueuedSigInfo) -> Seq<u8> {
    crate::bytes::le32_bytes(signum as u32) + crate::bytes::le32_bytes(info.code as u32)
        + crate::bytes::le32_bytes(0) + crate::bytes::le32_bytes(0) + crate::bytes::le32_bytes(
        info.pid as u32,
    ) + crate::bytes::le32_bytes(info.uid) + crate::bytes::le64_bytes(info.value) + Seq::new(
        96,
        |i: int| 0u8,
    )
}

/// A sender record as programs see it.
pub fn siginfo_bytes(signum: u64, info: &QueuedSigInfo) -> (r: Vec<u8>)
    ensures
        r@ == siginfo_layout(signum, *info),
        r@.len() == 128,
{
    let mut out: Vec<u8> = Vec::new();
    crate::bytes::push_le32(&mut out, #[verifier::truncate] (signum as u32));
    crate::bytes::push_le32(&mut out, #[verifier::truncate] (info.code as u32));
    crate::bytes::push_le32(&mut out, 0);
    crate::bytes::push_le32(&mut out, 0);
    crate::bytes::push_le32(&mut out, #[verifier::truncate] (info.pid as u32));
    crate::bytes::push_le32(&mut out, info.uid);
    crate::bytes::push_le64(&mut out, info.value);
    let ghost head = out@;
    let mut i: usize = 0;
    while i < 96
        invariant
            i <= 96,
            out@ == head + Seq::new(i as nat, |j: int| 0u8),
        decreases 96 - i,
    {
        out.push(0);
        i += 1;
        assert(out@ =~= head + Seq::new(i as nat, |j: int| 0u8));
    }
    assert(out@ =~= siginfo_layout(signum, *info));
    out
}

/// The value in a record that a program hands to `sigqueue`.
pub fn siginfo_value(raw: &[u8]) -> (r: u64)
    requires
        raw@.len() >= 32,
    ensures
        r == crate::bytes::le64(raw@, 24),
{
    crate::bytes::read_le64(raw, 24)
}

} // verus!

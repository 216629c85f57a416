//! What a signal does: whom it reaches, what becomes of them, and what a handler sees of it.

use vstd::prelude::*;

use crate::errno::{EAGAIN, EINVAL, EPERM, ESRCH};
use crate::process::{
    has_sig, proc_ok, AltStack, BlockReason, KernelView, Pid, ProcState, ProcView, QueuedSigInfo,
    SA_NODEFER, SIGCHLD, SIGCONT, SIGIO, SIGKILL, SIGSTOP, SIGTSTP, SIGTTIN, SIGTTOU, SIGURG,
    SIGWINCH, SI_USER, SS_DISABLE, SyscallFrame,
};
use crate::process::laws::{lemma_filter_passing, lemma_filtered, lemma_without, pids_ok, queue_ok};
use crate::process::signals::{
    cont_first, deliverable, delivery, disposition, each_continued, each_signalled, entered,
    first_of, fits, front_info, group_signalled, group_test, kill_answer, killed, lemma_masks,
    masked, members, next_signal, pended, requested_altstack, signalled, sigqueue_answer, sigqueued,
    taken, DefaultDisposition, SIG_BLOCK, SIG_SETMASK, SIG_UNBLOCK, SignalDelivery,
};

verus! {

/// A number that names a signal: 1 to 31 or 35 to 64.
pub open spec fn is_signal(sig: u64) -> bool {
    1 <= sig <= 31 || 35 <= sig <= 64
}

/// The signals that nothing happens on unless they are caught.
pub open spec fn harmless(sig: u64) -> bool {
    sig == SIGCHLD || sig == SIGCONT || sig == SIGTTIN || sig == SIGTTOU || sig == SIGURG || sig
        == SIGWINCH || sig == SIGIO
}

/// The signals that stop a process unless they are caught.
pub open spec fn stopping(sig: u64) -> bool {
    sig == SIGSTOP || sig == SIGTSTP
}

/// What happens on a signal that is neither caught nor ignored: seven are passed over, two stop
/// the process, and every other one, `SIGKILL` and the real-time ones among them, ends it.
pub proof fn law_default_actions(sig: u64)
    requires
        is_signal(sig),
    ensures
        disposition(sig) == DefaultDisposition::Ignore <==> (sig == 17 || sig == 18 || sig == 21
            || sig == 22 || sig == 23 || sig == 28 || sig == 29),
        disposition(sig) == DefaultDisposition::Stop <==> (sig == 19 || sig == 20),
        disposition(sig) == DefaultDisposition::Terminate <==> !harmless(sig) && !stopping(sig),
        sig == SIGKILL ==> disposition(sig) == DefaultDisposition::Terminate,
        harmless(sig) <==> (sig == 17 || sig == 18 || sig == 21 || sig == 22 || sig == 23 || sig
            == 28 || sig == 29),
        stopping(sig) <==> (sig == 19 || sig == 20),
        SIGKILL == 9,
{
}

/// Whether the running process may signal process `t`: root may signal everybody, others those of
/// their own user.
pub open spec fn permitted(s: KernelView, t: Pid) -> bool {
    s.procs.contains_key(s.current) ==> s.procs[s.current].uid == 0 || s.procs[s.current].uid
        == s.procs[t].uid
}

/// Whether process `t` is another live one that `caller` may signal by the number `target`.
pub open spec fn other_target(s: KernelView, caller: Pid, target: i64, t: Pid) -> bool {
    &&& target > 0
    &&& t == target as u64
    &&& t != caller
    &&& s.procs.contains_key(t)
    &&& !(s.procs[t].state is Zombie)
    &&& permitted(s, t)
}

/// Every process but `t` is as it was, but for one that waited for a child and is ready now.
pub open spec fn others_kept(s: KernelView, k: KernelView, t: Pid) -> bool {
    forall|p: Pid|
        #![trigger k.procs[p]]
        p != t && s.procs.contains_key(p) ==> k.procs.contains_key(p) && (k.procs[p] == s.procs[p]
            || (s.procs[p].state is Blocked && s.procs[p].state->Blocked_0 is WaitingForChild
            && k.procs[p] == (ProcView { state: ProcState::Ready, ..s.procs[p] })))
}

/// A fatal signal that its target neither catches nor ignores ends it at once: its status is 128
/// and the signal, and it never gets the processor again.
pub proof fn law_kill_ends(s: KernelView, caller: Pid, target: i64, sig: i64, t: Pid, value: u64)
    requires
        other_target(s, caller, target, t),
        is_signal(sig as u64),
        1 <= sig <= 64,
        !harmless(sig as u64),
        !stopping(sig as u64),
        s.procs[t].sigactions[sig as int].handler == 0,
    ensures
        kill_answer(s, caller, target, sig) == Ok::<u64, u64>(0),
        sigqueue_answer(s, caller, target, sig) == Ok::<u64, u64>(0),
        ({
            let k = killed(s, caller, target, sig);
            &&& k.procs[t].state == ProcState::Zombie((128 + sig) as i32)
            &&& !k.ready.contains(t)
            &&& k.exits == s.exits.push(t)
            &&& others_kept(s, k, t)
            &&& sigqueued(s, caller, target, sig, value) == k
        }),
{
    lemma_without(s.ready, t);
    let k = killed(s, caller, target, sig);
    assert(k.procs[t].state == ProcState::Zombie((128 + sig) as i32));
    assert(!k.ready.contains(t)) by {
        let w = crate::ordmap::without_key(s.ready, t);
        if k.ready.contains(t) {
            let i = choose|i: int| 0 <= i < k.ready.len() && k.ready[i] == t;
            if i < w.len() {
                assert(w[i] == t);
                assert(w.contains(t));
            }
        }
    }
}

/// A stopping signal that its target neither catches nor ignores stops it: it is out of the queue,
/// its parent can be told, and no resumption is pending.
pub proof fn law_kill_stops(s: KernelView, caller: Pid, target: i64, sig: i64, t: Pid)
    requires
        other_target(s, caller, target, t),
        stopping(sig as u64),
        1 <= sig <= 64,
        queue_ok(s),
        s.procs[t].sigactions[sig as int].handler == 0,
    ensures
        kill_answer(s, caller, target, sig) == Ok::<u64, u64>(0),
        ({
            let k = killed(s, caller, target, sig);
            &&& k.procs[t].state == ProcState::Stopped(sig as u64)
            &&& k.procs[t].stop_notify_pending
            &&& !has_sig(k.procs[t].pending_signals, SIGCONT)
            &&& !k.ready.contains(t)
            &&& others_kept(s, k, t)
        }),
{
    lemma_masks();
    lemma_without(s.ready, t);
    let k = killed(s, caller, target, sig);
    assert(!k.ready.contains(t)) by {
        let w = if s.procs[t].state == ProcState::Ready {
            crate::ordmap::without_key(s.ready, t)
        } else {
            s.ready
        };
        assert(!w.contains(t)) by {
            if w.contains(t) && s.procs[t].state != ProcState::Ready {
                let i = choose|i: int| 0 <= i < s.ready.len() && s.ready[i] == t;
                assert(s.procs[s.ready[i]].state == ProcState::Ready);
            }
        }
        if k.ready.contains(t) {
            let i = choose|i: int| 0 <= i < k.ready.len() && k.ready[i] == t;
            if i < w.len() {
                assert(w[i] == t);
                assert(w.contains(t));
            }
        }
    }
}

/// A signal that its target ignores, or does not catch and is harmless, does nothing, unless it
/// resumes a stopped target.
pub proof fn law_kill_passed_over(s: KernelView, caller: Pid, target: i64, sig: i64, t: Pid)
    requires
        other_target(s, caller, target, t),
        is_signal(sig as u64),
        1 <= sig <= 64,
        s.procs[t].sigactions[sig as int].handler == 1 || (s.procs[t].sigactions[sig as int].handler
            == 0 && harmless(sig as u64)),
        sig != SIGCONT || !(s.procs[t].state is Stopped),
    ensures
        kill_answer(s, caller, target, sig) == Ok::<u64, u64>(0),
        killed(s, caller, target, sig) == s,
{
}

/// Whether a process in this state, with this mask, waits for something that `sig` interrupts.
pub open spec fn interrupted_by(state: ProcState, blocked: u64, sig: u64) -> bool {
    match state {
        ProcState::Blocked(BlockReason::WaitingForSpecificSignal(set, _)) => has_sig(set, sig),
        ProcState::Blocked(BlockReason::WaitingForSignal) => !has_sig(blocked, sig),
        ProcState::Blocked(BlockReason::Sleeping(_)) => !has_sig(blocked, sig),
        ProcState::Blocked(BlockReason::WaitingForMqData(_, _)) => !has_sig(blocked, sig),
        ProcState::Blocked(BlockReason::WaitingForMqSpace(_, _)) => !has_sig(blocked, sig),
        ProcState::Blocked(BlockReason::WaitingForFutex(_, _, _)) => !has_sig(blocked, sig),
        _ => false,
    }
}

/// What pending on a process comes to: the signal waits for it, with the sender's record, behind
/// earlier ones of the same real-time signal, of which sixteen fit; no other signal is touched.
pub proof fn law_pending(p: ProcView, sig: u64, info: QueuedSigInfo)
    requires
        proc_ok(p),
        is_signal(sig),
    ensures
        ({
            let q = pended(p, sig, info);
            &&& has_sig(q.pending_signals, sig)
            &&& forall|n: u64|
                1 <= n <= 64 && n != sig ==> (#[trigger] has_sig(q.pending_signals, n) <==> has_sig(
                    p.pending_signals,
                    n,
                ))
            &&& sig <= 31 ==> q.pending_siginfo == p.pending_siginfo.update(sig as int, info)
                && q.rt_queue == p.rt_queue && fits(p, sig)
            &&& sig >= 35 ==> {
                let i = sig - 35;
                &&& q.pending_siginfo == p.pending_siginfo
                &&& fits(p, sig) <==> p.rt_queue[i].len() < 16
                &&& forall|j: int|
                    0 <= j < 30 && j != i ==> #[trigger] q.rt_queue[j] == p.rt_queue[j]
                &&& p.rt_queue[i].len() < 16 ==> q.rt_queue[i] == p.rt_queue[i].push(info)
                &&& p.rt_queue[i].len() >= 16 ==> q.rt_queue[i] == p.rt_queue[i]
            }
            &&& q == (ProcView {
                pending_signals: q.pending_signals,
                pending_siginfo: q.pending_siginfo,
                rt_queue: q.rt_queue,
                ..p
            })
        }),
{
    lemma_masks();
}

/// A signal that its target catches waits for it, with who sent it. A wait that it interrupts is
/// over: the target is ready and last in the queue; otherwise its state stays.
pub proof fn law_kill_caught(s: KernelView, caller: Pid, target: i64, sig: i64, t: Pid)
    requires
        other_target(s, caller, target, t),
        proc_ok(s.procs[t]),
        is_signal(sig as u64),
        1 <= sig <= 64,
        s.procs[t].sigactions[sig as int].handler > 1,
        sig != SIGCONT || !(s.procs[t].state is Stopped),
    ensures
        kill_answer(s, caller, target, sig) == Ok::<u64, u64>(0),
        ({
            let k = killed(s, caller, target, sig);
            let p = s.procs[t];
            let q = k.procs[t];
            let from = QueuedSigInfo {
                code: 0,
                pid: caller,
                uid: if s.procs.contains_key(s.current) {
                    s.procs[s.current].uid
                } else {
                    0
                },
                value: 0,
            };
            let n = sig as u64;
            &&& has_sig(q.pending_signals, n)
            &&& n <= 31 ==> q.pending_siginfo[n as int] == from
            &&& n >= 35 && p.rt_queue[n - 35].len() < 16 ==> q.rt_queue[n - 35]
                == p.rt_queue[n - 35].push(from)
            &&& interrupted_by(p.state, p.blocked_signals, n) ==> q.state == ProcState::Ready
                && k.ready == s.ready.push(t)
            &&& !interrupted_by(p.state, p.blocked_signals, n) ==> q.state == p.state && k.ready
                == s.ready
            &&& forall|o: Pid| o != t && s.procs.contains_key(o) ==> #[trigger] k.procs[o]
                == s.procs[o]
        }),
{
    lemma_masks();
}

/// A stopped process resumes on `SIGCONT` whatever it does about the signal: it is ready and
/// queued, its parent can be told, and no stop is pending; caught, the signal waits for it too.
pub proof fn law_kill_resumes(s: KernelView, caller: Pid, target: i64, t: Pid)
    requires
        other_target(s, caller, target, t),
        proc_ok(s.procs[t]),
        s.procs[t].state is Stopped,
    ensures
        kill_answer(s, caller, target, 18) == Ok::<u64, u64>(0),
        ({
            let k = killed(s, caller, target, 18);
            let q = k.procs[t];
            &&& q.state == ProcState::Ready
            &&& k.ready.last() == t
            &&& s.ready.is_prefix_of(k.ready)
            &&& q.cont_notify_pending && !q.stop_notify_pending
            &&& !has_sig(q.pending_signals, SIGSTOP) && !has_sig(q.pending_signals, SIGTSTP)
            &&& s.procs[t].sigactions[18].handler > 1 ==> has_sig(q.pending_signals, SIGCONT)
            &&& others_kept(s, k, t)
        }),
{
    lemma_masks();
}

/// A signal to oneself only waits, caught or not, fatal or not; it is met before the program goes
/// on.
pub proof fn law_kill_oneself(s: KernelView, caller: Pid, target: i64, sig: i64)
    requires
        target > 0,
        caller == target as u64,
        s.procs.contains_key(caller),
        proc_ok(s.procs[caller]),
        is_signal(sig as u64),
        1 <= sig <= 64,
    ensures
        kill_answer(s, caller, target, sig) == Ok::<u64, u64>(0),
        ({
            let k = killed(s, caller, target, sig);
            let p = s.procs[caller];
            let q = k.procs[caller];
            &&& has_sig(q.pending_signals, sig as u64)
            &&& q.state == p.state && k.ready == s.ready
            &&& forall|n: u64|
                1 <= n <= 64 && n != sig ==> (#[trigger] has_sig(q.pending_signals, n) <==> has_sig(
                    p.pending_signals,
                    n,
                ))
            &&& forall|o: Pid| o != caller && s.procs.contains_key(o) ==> #[trigger] k.procs[o]
                == s.procs[o]
        }),
{
    lemma_masks();
}

/// Which answer a `kill` of one process gets, and that a number that names no signal, a process
/// that there is not, one that may not be signalled, one that has ended, and the question whether
/// there is one, change nothing.
pub proof fn law_kill_answers(s: KernelView, caller: Pid, target: i64, sig: i64)
    ensures
        ({
            let r = kill_answer(s, caller, target, sig);
            let k = killed(s, caller, target, sig);
            let t = target as u64;
            let known = sig == 0 || 1 <= sig <= 31 || 35 <= sig <= 64;
            &&& !known ==> r == Err::<u64, u64>(EINVAL)
            &&& known && target > 0 && t != caller && !s.procs.contains_key(t) ==> r == Err::<
                u64,
                u64,
            >(ESRCH)
            &&& known && target > 0 && t != caller && s.procs.contains_key(t) ==> r == (if permitted(
                s,
                t,
            ) {
                Ok::<u64, u64>(0)
            } else {
                Err(EPERM)
            })
            &&& known && target > 0 && t == caller ==> r == Ok::<u64, u64>(0)
            &&& r is Err || sig == 0 ==> k == s
            &&& target > 0 && t != caller && s.procs[t].state is Zombie ==> k == s
            &&& known && target == i64::MIN ==> r == Err::<u64, u64>(EINVAL)
        }),
{
}

// ---------------------------------------------------------------------------------------------
// Groups
// ---------------------------------------------------------------------------------------------
/// A live process of group `g`.
pub open spec fn belongs(s: KernelView, p: Pid, g: Pid) -> bool {
    s.procs.contains_key(p) && s.procs[p].pgid == g && !(s.procs[p].state is Zombie)
}

/// The state of a process that was ended or stopped by a signal that it does not catch.
pub open spec fn struck(sig: u64) -> ProcState {
    if sig == SIGSTOP || sig == SIGTSTP {
        ProcState::Stopped(sig)
    } else {
        ProcState::Zombie((128 + sig) as i32)
    }
}

/// What meeting a signal that is not caught does to one member among others.
proof fn lemma_one_ends(s: KernelView, t: Pid, sig: u64, info: QueuedSigInfo)
    requires
        s.procs.contains_key(t),
        !(s.procs[t].state is Zombie),
        is_signal(sig),
        !harmless(sig),
        s.procs[t].sigactions[sig as int].handler == 0,
    ensures
        ({
            let k = signalled(s, t, sig, info);
            &&& k.procs[t].state == struck(sig)
            &&& k.procs.dom() == s.procs.dom()
            &&& others_kept(s, k, t)
        }),
{
    let k = signalled(s, t, sig, info);
    assert(k.procs.dom() =~= s.procs.dom());
}

proof fn lemma_each_ends(s: KernelView, list: Seq<Pid>, sig: u64)
    requires
        list.no_duplicates(),
        is_signal(sig),
        !harmless(sig),
        forall|i: int|
            0 <= i < list.len() ==> s.procs.contains_key(#[trigger] list[i]) && !(
            s.procs[list[i]].state is Zombie) && s.procs[list[i]].sigactions[sig as int].handler
                == 0,
    ensures
        ({
            let k = each_signalled(s, list, sig);
            &&& k.procs.dom() == s.procs.dom()
            &&& forall|p: Pid|
                #![trigger k.procs[p]]
                list.contains(p) ==> k.procs[p].state == struck(sig)
            &&& forall|p: Pid|
                #![trigger k.procs[p]]
                s.procs.contains_key(p) && !list.contains(p) ==> k.procs[p] == s.procs[p] || (
                s.procs[p].state is Blocked && s.procs[p].state->Blocked_0 is WaitingForChild
                    && k.procs[p] == (ProcView { state: ProcState::Ready, ..s.procs[p] }))
        }),
    decreases list.len(),
{
    if list.len() > 0 {
        let before = list.drop_last();
        let last = list.last();
        assert forall|i: int| 0 <= i < before.len() implies s.procs.contains_key(
            #[trigger] before[i],
        ) && !(s.procs[before[i]].state is Zombie) && s.procs[before[i]].sigactions[sig as int].handler
            == 0 by {
            assert(before[i] == list[i]);
        }
        lemma_each_ends(s, before, sig);
        let a = each_signalled(s, before, sig);
        assert(list[list.len() - 1] == last);
        assert(!before.contains(last)) by {
            if before.contains(last) {
                let i = choose|i: int| 0 <= i < before.len() && before[i] == last;
                assert(list[i] == list[list.len() - 1]);
            }
        }
        assert(s.procs.contains_key(last));
        assert(a.procs.dom().contains(last));
        assert(a.procs[last].sigactions == s.procs[last].sigactions);
        let info = QueuedSigInfo { code: SI_USER, pid: 0, uid: 0, value: 0 };
        lemma_one_ends(a, last, sig, info);
        let k = each_signalled(s, list, sig);
        assert forall|p: Pid|
            #![trigger k.procs[p]]
            list.contains(p) implies k.procs[p].state == struck(sig) by {
            let i = choose|i: int| 0 <= i < list.len() && list[i] == p;
            if p != last {
                assert(before[i] == p);
                assert(before.contains(p));
                assert(a.procs[p].state == struck(sig));
                assert(s.procs.contains_key(list[i]));
                assert(a.procs.dom().contains(p));
            }
        }
        assert forall|p: Pid|
            #![trigger k.procs[p]]
            s.procs.contains_key(p) && !list.contains(p) implies k.procs[p] == s.procs[p] || (
        s.procs[p].state is Blocked && s.procs[p].state->Blocked_0 is WaitingForChild
            && k.procs[p] == (ProcView { state: ProcState::Ready, ..s.procs[p] })) by {
            assert(p != last) by {
                assert(list.contains(last));
            }
            assert(!before.contains(p)) by {
                if before.contains(p) {
                    let i = choose|i: int| 0 <= i < before.len() && before[i] == p;
                    assert(list[i] == p);
                }
            }
            assert(a.procs.dom().contains(p));
            assert(a.procs[p] == a.procs[p]);
        }
    }
}

proof fn lemma_nobody_continued(s: KernelView, list: Seq<Pid>, sig: u64)
    requires
        sig != SIGCONT,
    ensures
        each_continued(s, list, sig) == s,
    decreases list.len(),
{
    if list.len() > 0 {
        lemma_nobody_continued(s, list.drop_last(), sig);
    }
}

/// Who the members of a group are.
proof fn lemma_members(s: KernelView, g: Pid)
    requires
        pids_ok(s),
    ensures
        members(s, g).no_duplicates(),
        forall|p: Pid| #[trigger] members(s, g).contains(p) <==> belongs(s, p, g),
{
    let test = group_test(s.procs, g);
    let list = members(s, g);
    lemma_filtered(s.pids, test);
    lemma_filter_passing(s.pids, test);
    assert forall|p: Pid| #[trigger] list.contains(p) <==> belongs(s, p, g) by {
        if list.contains(p) {
            let i = choose|i: int| 0 <= i < list.len() && list[i] == p;
            assert(test(list[i]) && s.pids.contains(list[i]));
        }
        if belongs(s, p, g) {
            assert(s.pids.contains(p) && test(p));
        }
    }
}

/// A fatal or stopping signal to a group that none of its live members catches or ignores ends or
/// stops all of them, and nobody else.
pub proof fn law_group_struck(s: KernelView, g: Pid, sig: u64)
    requires
        pids_ok(s),
        is_signal(sig),
        !harmless(sig),
        forall|p: Pid| #[trigger]
            belongs(s, p, g) ==> s.procs[p].sigactions[sig as int].handler == 0,
    ensures
        ({
            let k = group_signalled(s, g, sig);
            &&& k.procs.dom() == s.procs.dom()
            &&& forall|p: Pid|
                #![trigger k.procs[p]]
                belongs(s, p, g) ==> k.procs[p].state == struck(sig)
            &&& forall|p: Pid|
                #![trigger k.procs[p]]
                s.procs.contains_key(p) && !belongs(s, p, g) ==> k.procs[p] == s.procs[p] || (
                s.procs[p].state is Blocked && s.procs[p].state->Blocked_0 is WaitingForChild
                    && k.procs[p] == (ProcView { state: ProcState::Ready, ..s.procs[p] }))
        }),
{
    let list = members(s, g);
    lemma_members(s, g);
    lemma_nobody_continued(s, list, sig);
    assert forall|i: int| 0 <= i < list.len() implies s.procs.contains_key(#[trigger] list[i]) && !(
    s.procs[list[i]].state is Zombie) && s.procs[list[i]].sigactions[sig as int].handler == 0 by {
        assert(list.contains(list[i]));
        assert(belongs(s, list[i], g));
    }
    lemma_each_ends(s, list, sig);
    let k = group_signalled(s, g, sig);
    assert forall|p: Pid|
        #![trigger k.procs[p]]
        belongs(s, p, g) implies k.procs[p].state == struck(sig) by {
        assert(list.contains(p));
    }
    assert forall|p: Pid|
        #![trigger k.procs[p]]
        s.procs.contains_key(p) && !belongs(s, p, g) implies k.procs[p] == s.procs[p] || (
    s.procs[p].state is Blocked && s.procs[p].state->Blocked_0 is WaitingForChild && k.procs[p]
        == (ProcView { state: ProcState::Ready, ..s.procs[p] })) by {
        assert(!list.contains(p));
    }
}

proof fn lemma_each_continued(s: KernelView, list: Seq<Pid>)
    ensures
        ({
            let k = each_continued(s, list, SIGCONT);
            &&& k.procs.dom() == s.procs.dom()
            &&& forall|p: Pid|
                #![trigger k.procs[p]]
                s.procs.contains_key(p) && list.contains(p) && s.procs[p].state is Stopped
                    ==> k.procs[p].state == ProcState::Ready && k.ready.contains(p)
                    && k.procs[p].cont_notify_pending
            &&& forall|p: Pid|
                #![trigger k.procs[p]]
                s.procs.contains_key(p) && !(list.contains(p) && s.procs[p].state is Stopped)
                    ==> k.procs[p] == s.procs[p] || (s.procs[p].state is Blocked && k.procs[p].state
                    == ProcState::Ready)
        }),
    decreases list.len(),
{
    if list.len() > 0 {
        let before = list.drop_last();
        let last = list.last();
        lemma_each_continued(s, before);
        let a = each_continued(s, before, SIGCONT);
        let k = cont_first(a, last, SIGCONT);
        assert(k.procs.dom() =~= a.procs.dom());
        assert(list[list.len() - 1] == last);
        assert forall|p: Pid| #[trigger] list.contains(p) <==> before.contains(p) || p == last by {
            if list.contains(p) {
                let i = choose|i: int| 0 <= i < list.len() && list[i] == p;
                if p != last {
                    assert(before[i] == p);
                }
            }
            if before.contains(p) {
                let i = choose|i: int| 0 <= i < before.len() && before[i] == p;
                assert(list[i] == p);
            }
        }
        assert forall|p: Pid| a.ready.contains(p) implies k.ready.contains(p) by {
            let i = choose|i: int| 0 <= i < a.ready.len() && a.ready[i] == p;
            assert(k.ready[i] == p);
        }
        assert forall|p: Pid|
            #![trigger k.procs[p]]
            s.procs.contains_key(p) && list.contains(p) && s.procs[p].state
                is Stopped implies k.procs[p].state == ProcState::Ready && k.ready.contains(p)
            && k.procs[p].cont_notify_pending by {
            assert(a.procs.dom().contains(p));
            if before.contains(p) {
                assert(a.procs[p].state == ProcState::Ready);
            } else {
                assert(p == last);
                assert(a.procs[p] == s.procs[p]);
                assert(k.ready[k.ready.len() - 1] == p);
            }
        }
        assert forall|p: Pid|
            #![trigger k.procs[p]]
            s.procs.contains_key(p) && !(list.contains(p) && s.procs[p].state
                is Stopped) implies k.procs[p] == s.procs[p] || (s.procs[p].state is Blocked
            && k.procs[p].state == ProcState::Ready) by {
            assert(a.procs.dom().contains(p));
            assert(a.procs[p] == s.procs[p] || a.procs[p].state == ProcState::Ready);
        }
    }
}

proof fn lemma_each_told(s: KernelView, list: Seq<Pid>)
    ensures
        ({
            let k = each_signalled(s, list, SIGCONT);
            forall|p: Pid|
                #![trigger k.procs[p]]
                s.procs.contains_key(p) && s.procs[p].state == ProcState::Ready ==> k.procs[p].state
                    == ProcState::Ready && k.procs[p].cont_notify_pending
                    == s.procs[p].cont_notify_pending && (s.ready.contains(p) ==> k.ready.contains(
                    p,
                ))
        }),
        forall|p: Pid| #[trigger]
            s.procs.contains_key(p) ==> each_signalled(s, list, SIGCONT).procs.contains_key(p),
    decreases list.len(),
{
    if list.len() > 0 {
        lemma_each_told(s, list.drop_last());
        let a = each_signalled(s, list.drop_last(), SIGCONT);
        let k = each_signalled(s, list, SIGCONT);
        assert forall|p: Pid| a.ready.contains(p) implies k.ready.contains(p) by {
            let i = choose|i: int| 0 <= i < a.ready.len() && a.ready[i] == p;
            assert(k.ready[i] == p);
        }
        assert forall|p: Pid|
            #![trigger k.procs[p]]
            s.procs.contains_key(p) && s.procs[p].state
                == ProcState::Ready implies k.procs[p].state == ProcState::Ready
            && k.procs[p].cont_notify_pending == s.procs[p].cont_notify_pending && (
        s.ready.contains(p) ==> k.ready.contains(p)) by {
            assert(a.procs.contains_key(p));
            assert(a.procs[p].state == ProcState::Ready);
        }
    }
}

/// `SIGCONT` to a group resumes every stopped member, whatever it does about the signal: it is
/// ready and queued, and its parent can be told.
pub proof fn law_group_resumed(s: KernelView, g: Pid, p: Pid)
    requires
        pids_ok(s),
        belongs(s, p, g),
        s.procs[p].state is Stopped,
    ensures
        ({
            let k = group_signalled(s, g, SIGCONT);
            &&& k.procs[p].state == ProcState::Ready
            &&& k.ready.contains(p)
            &&& k.procs[p].cont_notify_pending
        }),
{
    let list = members(s, g);
    lemma_members(s, g);
    assert(list.contains(p));
    lemma_each_continued(s, list);
    let a = each_continued(s, list, SIGCONT);
    assert(a.procs[p].state == ProcState::Ready);
    assert(a.procs.dom().contains(p));
    lemma_each_told(a, list);
    assert(a.procs.contains_key(p));
    let k = group_signalled(s, g, SIGCONT);
    assert(k.procs[p].state == ProcState::Ready);
}

/// The group that a target at or below zero names.
pub open spec fn named_group(s: KernelView, caller: Pid, target: i64) -> Pid {
    if target == 0 {
        s.procs[caller].pgid
    } else {
        (-target) as u64
    }
}

/// Which group a target at or below zero names: zero the caller's own, a negative one the group
/// of that number. There must be a live member, and the members meet the signal.
pub proof fn law_kill_group(s: KernelView, caller: Pid, target: i64, sig: i64)
    requires
        pids_ok(s),
        i64::MIN < target <= 0,
        sig == 0 || 1 <= sig <= 31 || 35 <= sig <= 64,
    ensures
        ({
            let g = named_group(s, caller, target);
            let anybody = exists|p: Pid| #[trigger] belongs(s, p, g);
            &&& kill_answer(s, caller, target, sig) == (if anybody {
                Ok::<u64, u64>(0)
            } else {
                Err(ESRCH)
            })
            &&& killed(s, caller, target, sig) == (if anybody && sig != 0 {
                group_signalled(s, g, sig as u64)
            } else {
                s
            })
        }),
{
    let g = named_group(s, caller, target);
    lemma_members(s, g);
    let list = members(s, g);
    if list.len() > 0 {
        assert(list.contains(list[0]));
        assert(belongs(s, list[0], g));
    }
    if exists|p: Pid| #[trigger] belongs(s, p, g) {
        let p = choose|p: Pid| #[trigger] belongs(s, p, g);
        assert(list.contains(p));
        assert(list.len() > 0);
    }
    assert(g == crate::process::signals::kill_group(s, caller, target));
    assert((exists|p: Pid| #[trigger] belongs(s, p, g)) == (list.len() > 0));
}

// ---------------------------------------------------------------------------------------------
// Queued signals
// ---------------------------------------------------------------------------------------------
/// A queued signal that its target catches carries the value along, and ends a wait that it
/// interrupts. One more than sixteen of a real-time signal is refused, and nobody is woken.
pub proof fn law_queue_caught(s: KernelView, caller: Pid, target: i64, sig: i64, t: Pid, value: u64)
    requires
        other_target(s, caller, target, t),
        proc_ok(s.procs[t]),
        is_signal(sig as u64),
        1 <= sig <= 64,
        s.procs[t].sigactions[sig as int].handler > 1,
        sig != SIGCONT || !(s.procs[t].state is Stopped),
    ensures
        ({
            let k = sigqueued(s, caller, target, sig, value);
            let r = sigqueue_answer(s, caller, target, sig);
            let p = s.procs[t];
            let q = k.procs[t];
            let n = sig as u64;
            let from = QueuedSigInfo {
                code: -1i32,
                pid: caller,
                uid: if s.procs.contains_key(s.current) {
                    s.procs[s.current].uid
                } else {
                    0
                },
                value,
            };
            let full = n >= 35 && p.rt_queue[n - 35].len() >= 16;
            &&& r == (if full {
                Err::<u64, u64>(EAGAIN)
            } else {
                Ok(0)
            })
            &&& has_sig(q.pending_signals, n)
            &&& n <= 31 ==> q.pending_siginfo[n as int] == from
            &&& n >= 35 && !full ==> q.rt_queue[n - 35] == p.rt_queue[n - 35].push(from)
            &&& full ==> q.rt_queue[n - 35] == p.rt_queue[n - 35] && q.state == p.state && k.ready
                == s.ready
            &&& !full && interrupted_by(p.state, p.blocked_signals, n) ==> q.state
                == ProcState::Ready && k.ready == s.ready.push(t)
            &&& !full && !interrupted_by(p.state, p.blocked_signals, n) ==> q.state == p.state
                && k.ready == s.ready
        }),
{
    lemma_masks();
}

/// Which answer queueing a signal gets where it cannot reach anybody, and that nothing changes
/// then.
pub proof fn law_queue_answers(s: KernelView, caller: Pid, target: i64, sig: i64, value: u64)
    ensures
        ({
            let r = sigqueue_answer(s, caller, target, sig);
            let k = sigqueued(s, caller, target, sig, value);
            let t = target as u64;
            let known = sig == 0 || 1 <= sig <= 31 || 35 <= sig <= 64;
            &&& !known || target <= 0 ==> r == Err::<u64, u64>(EINVAL) && k == s
            &&& known && target > 0 && t != caller && !s.procs.contains_key(t) ==> r == Err::<
                u64,
                u64,
            >(ESRCH) && k == s
            &&& known && target > 0 && t != caller && s.procs.contains_key(t) && !permitted(s, t)
                ==> r == Err::<u64, u64>(EPERM) && k == s
            &&& known && target > 0 && t != caller && s.procs.contains_key(t) && permitted(s, t)
                && (sig == 0 || s.procs[t].state is Zombie) ==> r == Ok::<u64, u64>(0) && k == s
        }),
{
}

// ---------------------------------------------------------------------------------------------
// Delivery
// ---------------------------------------------------------------------------------------------
/// Which signal is met next: the lowest that waits, is not held back and is not passed over. No
/// two numbers are next.
pub proof fn law_lowest_first(p: ProcView, n: u64, m: u64)
    requires
        next_signal(p, n),
        1 <= m <= 64,
        has_sig(p.pending_signals, m),
        !has_sig(p.blocked_signals, m),
        !(p.sigactions[m as int].handler == 1),
        !(p.sigactions[m as int].handler == 0 && harmless(m)),
    ensures
        n <= m,
        has_sig(p.pending_signals, n),
        !has_sig(p.blocked_signals, n),
{
    assert(deliverable(p, m));
}

/// What is done about a signal: one that is not caught ends the process with 128 and its number or
/// stops it; a caught one runs its handler with the oldest sender's record, and holds back what its
/// disposition says and itself, unless that is waived.
pub proof fn law_delivery(p: ProcView, n: u64)
    requires
        is_signal(n),
        p.sigactions[n as int].handler != 1,
        !(p.sigactions[n as int].handler == 0 && harmless(n)),
    ensures
        ({
            let a = p.sigactions[n as int];
            let d = delivery(p, n);
            &&& a.handler == 0 && stopping(n) ==> d == SignalDelivery::Stop(n)
            &&& a.handler == 0 && !stopping(n) ==> d == SignalDelivery::Terminate((128 + n) as i32)
            &&& a.handler > 1 ==> {
                &&& d is Handler
                &&& d->signum == n && d->handler == a.handler && d->restorer == a.restorer
                &&& d->Handler_flags == a.flags
                &&& d->siginfo == (if n >= 35 {
                    p.rt_queue[n - 35][0]
                } else {
                    p.pending_siginfo[n as int]
                })
                &&& forall|m: u64|
                    1 <= m <= 64 ==> (#[trigger] has_sig(d->mask_to_add, m) <==> (if m == n {
                        a.flags & SA_NODEFER == 0
                    } else {
                        has_sig(a.mask, m)
                    }))
            }
        }),
{
    lemma_masks();
}

/// Taking a signal: a standard one is no longer pending; of a real-time one the oldest leaves the
/// queue, and it stays pending while there are more. Nothing else changes.
pub proof fn law_taken(p: ProcView, n: u64)
    requires
        proc_ok(p),
        is_signal(n),
        has_sig(p.pending_signals, n),
    ensures
        ({
            let q = taken(p, n);
            &&& front_info(p, n) == (if n >= 35 {
                p.rt_queue[n - 35][0]
            } else {
                p.pending_siginfo[n as int]
            })
            &&& n <= 31 ==> !has_sig(q.pending_signals, n) && q.rt_queue == p.rt_queue
            &&& n >= 35 ==> {
                &&& q.rt_queue[n - 35] == p.rt_queue[n - 35].skip(1)
                &&& has_sig(q.pending_signals, n) <==> p.rt_queue[n - 35].len() > 1
                &&& forall|j: int|
                    0 <= j < 30 && j != n - 35 ==> #[trigger] q.rt_queue[j] == p.rt_queue[j]
            }
            &&& forall|m: u64|
                1 <= m <= 64 && m != n ==> (#[trigger] has_sig(q.pending_signals, m) <==> has_sig(
                    p.pending_signals,
                    m,
                ))
            &&& q == (ProcView {
                pending_signals: q.pending_signals,
                rt_queue: q.rt_queue,
                ..p
            })
        }),
{
    lemma_masks();
    if n >= 35 {
        assert(p.rt_queue[n - 35].len() > 0);
        assert(p.rt_queue[n - 35].remove(0) =~= p.rt_queue[n - 35].skip(1));
    }
}

/// Which signal of a set a process gets: the lowest that waits, held back or not.
pub proof fn law_first_of_set(p: ProcView, set: u64, n: u64, m: u64)
    requires
        first_of(p, set, n),
        1 <= m <= 64,
        has_sig(p.pending_signals, m),
        has_sig(set, m),
    ensures
        n <= m,
        has_sig(p.pending_signals, n),
        has_sig(set, n),
{
}

/// What a request leaves of a mask, signal by signal: blocking adds, unblocking takes away, setting
/// replaces; `SIGKILL` and `SIGSTOP` are never added.
pub proof fn law_mask(old_mask: u64, requested: u64, n: u64)
    requires
        1 <= n <= 64,
    ensures
        has_sig(masked(old_mask, 0, requested), n) <==> has_sig(old_mask, n) || (has_sig(
            requested,
            n,
        ) && n != 9 && n != 19),
        has_sig(masked(old_mask, 1, requested), n) <==> has_sig(old_mask, n) && !has_sig(
            requested,
            n,
        ),
        has_sig(masked(old_mask, 2, requested), n) <==> has_sig(requested, n) && n != 9 && n != 19,
        SIG_BLOCK == 0 && SIG_UNBLOCK == 1 && SIG_SETMASK == 2,
{
    lemma_masks();
}

/// Entering a handler adds to what is held back and remembers what was before.
pub proof fn law_entered(s: KernelView, pid: Pid, saved: SyscallFrame, mask: u64, n: u64)
    requires
        s.procs.contains_key(pid),
        1 <= n <= 64,
    ensures
        ({
            let p = s.procs[pid];
            let q = entered(s, pid, saved, mask).procs[pid];
            &&& has_sig(q.blocked_signals, n) <==> has_sig(p.blocked_signals, n) || has_sig(mask, n)
            &&& q.signal_stack.len() == p.signal_stack.len() + 1
            &&& q.signal_stack.last().saved == saved
            &&& q.signal_stack.last().blocked_before == p.blocked_signals
            &&& q == (ProcView {
                blocked_signals: q.blocked_signals,
                signal_stack: q.signal_stack,
                ..p
            })
        }),
{
    lemma_masks();
}

/// An alternate stack is kept as it was asked for, or none where that was asked for.
pub proof fn law_altstack(a: AltStack)
    ensures
        ({
            let b = requested_altstack(a);
            &&& a.flags & SS_DISABLE == 0 ==> b.sp == a.sp && b.size == a.size && b.flags == 0
            &&& a.flags & SS_DISABLE != 0 ==> b.sp == 0 && b.size == 0 && b.flags == 2
        }),
{
}

} // verus!

//! What every operation on processes keeps true.
//!
//! The queue holds each ready process once and nothing else, only the running process is marked
//! running, every process that has not ended has its memory, a stop is announced only while it
//! lasts, and only ended processes wait for their memory to be given back.

use vstd::prelude::*;
use crate::ordmap::without_key;
use crate::process::lifecycle::{
    born, buried, cont_seen, first_report, forked, no_report, parent_woken, replaced, reportable,
    self_stopped, stop_seen, terminated, wait_outcome, wait_target, ExecImage, Wait,
};
use crate::process::limits::{futex_waiter, futex_woken_from};
use crate::process::mm::without_regions;
use crate::process::scheduler::{
    is_pick, made_ready, pick_outcome, queue_without, reap_each, reap_one, reaped, requeued, resumed_at,
    runnable, still_runs, ReapKind, SchedAction, started,
};
use crate::process::signals::{
    blocked_on, cont_first, deliverable, each_continued, each_signalled, entered, front_info,
    futex_waiting, group_signalled, group_test, interruptible, kill_answer, kill_group, killed,
    left, masked, members, mq_waiting, paused, pended, posted, signalled, sigqueued, sigwaiting,
    sleeping, stopped, taken, unblockable, woken_if, SIG_BLOCK, SIG_SETMASK,
};
use crate::process::{
    bit_of, has_sig, proc_ok, with_proc, with_state, BlockReason, Kernel, KernelView, Pid,
    ProcState, ProcView, QueuedSigInfo, SyscallFrame, SIGCONT, SIGKILL, SIGRTMIN, SIGSTOP,
};

verus! {

/// The queue holds each ready process once and nothing else.
pub open spec fn queue_ok(s: KernelView) -> bool {
    &&& s.ready.no_duplicates()
    &&& forall|i: int|
        0 <= i < s.ready.len() ==> s.procs.contains_key(#[trigger] s.ready[i])
            && s.procs[s.ready[i]].state == ProcState::Ready
    &&& forall|p: Pid| #[trigger]
        s.procs.contains_key(p) && s.procs[p].state == ProcState::Ready ==> s.ready.contains(p)
}

/// What holds of one process: memory until it has ended, and a stop announced only while it lasts.
pub open spec fn proc_sound(s: KernelView, p: Pid) -> bool {
    &&& !(s.procs[p].state is Zombie) ==> s.procs[p].address_space is Some
    &&& s.procs[p].state is Running ==> p == s.current
    &&& s.procs[p].stop_notify_pending ==> s.procs[p].state is Stopped || s.procs[p].state is Zombie
}

/// What holds of a pending clean-up: it is of a process that has ended.
pub open spec fn reaps_ok(s: KernelView) -> bool {
    forall|i: int|
        0 <= i < s.reaps.len() ==> (#[trigger] s.reaps[i]).0 < s.next_pid && (s.procs.contains_key(
            s.reaps[i].0,
        ) ==> s.procs[s.reaps[i].0].state is Zombie)
}

/// What every operation keeps true.
pub open spec fn sched_ok(s: KernelView) -> bool {
    &&& queue_ok(s)
    &&& forall|p: Pid| #[trigger] s.procs.contains_key(p) ==> proc_sound(s, p) && p < s.next_pid
    &&& reaps_ok(s)
}

/// Taking one key out of a sequence leaves the others, in order.
pub proof fn lemma_without(s: Seq<u64>, key: u64)
    ensures
        forall|x: u64| #[trigger] without_key(s, key).contains(x) <==> s.contains(x) && x != key,
        s.no_duplicates() ==> without_key(s, key).no_duplicates(),
    decreases s.len(),
{
    reveal(Seq::filter);
    if s.len() > 0 {
        let t = s.drop_last();
        lemma_without(t, key);
        let w = without_key(t, key);
        assert forall|x: u64| #[trigger] without_key(s, key).contains(x) <==> s.contains(x) && x
            != key by {
            if s.contains(x) && x != key {
                let i = choose|i: int| 0 <= i < s.len() && s[i] == x;
                if i < t.len() {
                    assert(t[i] == x);
                    assert(w.contains(x));
                    let j = choose|j: int| 0 <= j < w.len() && w[j] == x;
                    assert(without_key(s, key)[j] == x);
                } else {
                    assert(without_key(s, key) == w.push(x));
                    assert(without_key(s, key)[w.len() as int] == x);
                }
            }
            if without_key(s, key).contains(x) {
                let j = choose|j: int|
                    0 <= j < without_key(s, key).len() && without_key(s, key)[j] == x;
                if j < w.len() {
                    assert(w[j] == x);
                    assert(w.contains(x));
                    let i = choose|i: int| 0 <= i < t.len() && t[i] == x;
                    assert(s[i] == x);
                } else {
                    assert(s[s.len() - 1] == x);
                }
            }
        }
        if s.no_duplicates() {
            assert(t.no_duplicates());
            if s.last() != key {
                assert(!w.contains(s.last())) by {
                    if w.contains(s.last()) {
                        let i = choose|i: int| 0 <= i < t.len() && t[i] == s.last();
                        assert(s[i] == s[s.len() - 1]);
                    }
                }
                assert(without_key(s, key) == w.push(s.last()));
                assert forall|i: int, j: int|
                    0 <= i < j < w.push(s.last()).len() implies w.push(s.last())[i] != w.push(
                    s.last(),
                )[j] by {
                    if j == w.len() {
                        assert(w[i] == w.push(s.last())[i]);
                        assert(w.contains(w[i]));
                    }
                }
            }
        }
    }
}

/// Changing one process in ways that leave its standing alone keeps everything.
proof fn lemma_same_standing(s: KernelView, t: KernelView, pid: Pid, q: ProcView)
    requires
        sched_ok(s),
        s.procs.contains_key(pid),
        t.procs == s.procs.insert(pid, q),
        t.ready == s.ready,
        t.reaps == s.reaps,
        t.current == s.current,
        t.next_pid == s.next_pid,
        q.state == s.procs[pid].state,
        q.state is Zombie || q.address_space is Some,
        q.stop_notify_pending ==> s.procs[pid].stop_notify_pending,
    ensures
        sched_ok(t),
{
    assert forall|p: Pid| #[trigger] t.procs.contains_key(p) implies proc_sound(t, p) && p
        < t.next_pid by {
        assert(s.procs.contains_key(p));
    }
    assert forall|p: Pid| #[trigger]
        t.procs.contains_key(p) && t.procs[p].state == ProcState::Ready implies t.ready.contains(
        p,
    ) by {
        assert(s.procs.contains_key(p));
    }
}

/// Moving a process that is not queued to another state in which it is not queued keeps
/// everything.
proof fn lemma_unqueued(s: KernelView, t: KernelView, pid: Pid, q: ProcView)
    requires
        sched_ok(s),
        s.procs.contains_key(pid),
        s.procs[pid].state != ProcState::Ready,
        t.procs == s.procs.insert(pid, q),
        t.ready == s.ready,
        t.reaps == s.reaps,
        t.current == s.current,
        t.next_pid == s.next_pid,
        q.state != ProcState::Ready,
        q.state == ProcState::Running ==> pid == s.current,
        s.procs[pid].state is Zombie ==> q.state is Zombie,
        q.state is Zombie || q.address_space is Some,
        q.stop_notify_pending ==> q.state is Stopped || q.state is Zombie,
    ensures
        sched_ok(t),
{
    assert(!s.ready.contains(pid)) by {
        if s.ready.contains(pid) {
            let i = choose|i: int| 0 <= i < s.ready.len() && s.ready[i] == pid;
            assert(s.procs[s.ready[i]].state == ProcState::Ready);
        }
    }
    assert forall|i: int| 0 <= i < t.ready.len() implies t.procs.contains_key(#[trigger] t.ready[i])
        && t.procs[t.ready[i]].state == ProcState::Ready by {
        assert(s.ready[i] != pid);
    }
    assert forall|p: Pid| #[trigger] t.procs.contains_key(p) implies proc_sound(t, p) && p
        < t.next_pid by {
        assert(s.procs.contains_key(p));
    }
    assert forall|p: Pid| #[trigger]
        t.procs.contains_key(p) && t.procs[p].state == ProcState::Ready implies t.ready.contains(
        p,
    ) by {
        assert(s.procs.contains_key(p));
    }
}

/// Making a process that is not queued ready, and queueing it, keeps everything.
proof fn lemma_queue_up(s: KernelView, t: KernelView, pid: Pid, q: ProcView)
    requires
        sched_ok(s),
        s.procs.contains_key(pid),
        s.procs[pid].state != ProcState::Ready,
        !(s.procs[pid].state is Zombie),
        t.procs == s.procs.insert(pid, q),
        t.ready == s.ready.push(pid),
        t.reaps == s.reaps,
        t.current == s.current,
        t.next_pid == s.next_pid,
        q.state == ProcState::Ready,
        q.address_space is Some,
        !q.stop_notify_pending,
    ensures
        sched_ok(t),
{
    assert(!s.ready.contains(pid)) by {
        if s.ready.contains(pid) {
            let i = choose|i: int| 0 <= i < s.ready.len() && s.ready[i] == pid;
            assert(s.procs[s.ready[i]].state == ProcState::Ready);
        }
    }
    assert(t.ready.no_duplicates()) by {
        assert forall|i: int, j: int| 0 <= i < j < t.ready.len() implies t.ready[i] != t.ready[j] by {
            if j == s.ready.len() {
                assert(s.ready.contains(s.ready[i]));
            }
        }
    }
    assert forall|i: int| 0 <= i < t.ready.len() implies t.procs.contains_key(#[trigger] t.ready[i])
        && t.procs[t.ready[i]].state == ProcState::Ready by {
        if i < s.ready.len() {
            assert(s.procs.contains_key(s.ready[i]));
        }
    }
    assert forall|p: Pid| #[trigger] t.procs.contains_key(p) implies proc_sound(t, p) && p
        < t.next_pid by {
        assert(s.procs.contains_key(p));
    }
    assert forall|p: Pid| #[trigger]
        t.procs.contains_key(p) && t.procs[p].state == ProcState::Ready implies t.ready.contains(
        p,
    ) by {
        assert(s.procs.contains_key(p));
        if p == pid {
            assert(t.ready[s.ready.len() as int] == p);
        } else {
            let i = choose|i: int| 0 <= i < s.ready.len() && s.ready[i] == p;
            assert(t.ready[i] == p);
        }
    }
}

/// Taking a process out of the queue and out of readiness keeps everything.
proof fn lemma_unqueue(s: KernelView, t: KernelView, pid: Pid, q: ProcView)
    requires
        sched_ok(s),
        s.procs.contains_key(pid),
        t.procs == s.procs.insert(pid, q),
        t.ready == queue_without(s.ready, pid),
        t.reaps == s.reaps,
        t.current == s.current,
        t.next_pid == s.next_pid,
        q.state is Zombie || (q.state is Stopped && !(s.procs[pid].state is Zombie)),
        q.state is Zombie || q.address_space is Some,
    ensures
        sched_ok(t),
{
    lemma_without(s.ready, pid);
    assert forall|i: int| 0 <= i < t.ready.len() implies t.procs.contains_key(#[trigger] t.ready[i])
        && t.procs[t.ready[i]].state == ProcState::Ready by {
        assert(t.ready.contains(t.ready[i]));
        let j = choose|j: int| 0 <= j < s.ready.len() && s.ready[j] == t.ready[i];
        assert(s.procs.contains_key(s.ready[j]));
    }
    assert forall|p: Pid| #[trigger] t.procs.contains_key(p) implies proc_sound(t, p) && p
        < t.next_pid by {
        assert(s.procs.contains_key(p));
    }
    assert forall|p: Pid| #[trigger]
        t.procs.contains_key(p) && t.procs[p].state == ProcState::Ready implies t.ready.contains(
        p,
    ) by {
        assert(s.procs.contains_key(p));
    }
}

/// Waking a waiting parent keeps everything.
pub proof fn law_parent_woken(s: KernelView, child: Pid)
    requires
        sched_ok(s),
    ensures
        sched_ok(parent_woken(s, child)),
{
    let t = parent_woken(s, child);
    if t != s {
        let pp = s.procs[child].parent->0;
        assert(s.procs.contains_key(pp) && proc_sound(s, pp));
        lemma_queue_up(s, t, pp, ProcView { state: ProcState::Ready, ..s.procs[pp] });
    }
}

/// Ending a wait on a signal that ends it keeps everything, whichever kind of wait it is.
pub proof fn law_woken(s: KernelView, pid: Pid, sig: u64)
    requires
        sched_ok(s),
    ensures
        sched_ok(woken_if(s, pid, paused(s.procs[pid], sig))),
        sched_ok(woken_if(s, pid, sigwaiting(s.procs[pid], sig))),
        sched_ok(woken_if(s, pid, sleeping(s.procs[pid], sig))),
        sched_ok(woken_if(s, pid, mq_waiting(s.procs[pid], sig))),
        sched_ok(woken_if(s, pid, futex_waiting(s.procs[pid], sig))),
{
    if s.procs.contains_key(pid) && s.procs[pid].state is Blocked {
        assert(proc_sound(s, pid));
        let q = ProcView { state: ProcState::Ready, ..s.procs[pid] };
        lemma_queue_up(s, made_ready(s, pid), pid, q);
    }
}

/// Waking those who wait on a futex keeps everything, and who is in the table.
pub proof fn law_futex_woken(s: KernelView, pids: Seq<Pid>, tgid: Pid, addr: u64, max: u64)
    requires
        sched_ok(s),
        forall|i: int| 0 <= i < pids.len() ==> s.procs.contains_key(#[trigger] pids[i]),
    ensures
        sched_ok(futex_woken_from(s, pids, tgid, addr, max).0),
        futex_woken_from(s, pids, tgid, addr, max).0.procs.dom() == s.procs.dom(),
    decreases pids.len(),
{
    if pids.len() > 0 {
        let before = pids.drop_last();
        assert forall|i: int| 0 <= i < before.len() implies s.procs.contains_key(
            #[trigger] before[i],
        ) by {
            assert(before[i] == pids[i]);
        }
        law_futex_woken(s, before, tgid, addr, max);
        let (a, n) = futex_woken_from(s, before, tgid, addr, max);
        let pid = pids.last();
        assert(s.procs.contains_key(pids[pids.len() - 1]));
        assert(a.procs.dom().contains(pid));
        assert(a.procs.contains_key(pid) && proc_sound(a, pid));
        if n < max && futex_waiter(a.procs[pid], tgid, addr) {
            let q = ProcView { state: ProcState::Ready, ..a.procs[pid] };
            lemma_queue_up(a, made_ready(a, pid), pid, q);
            assert(made_ready(a, pid).procs.dom() =~= a.procs.dom());
        }
    }
}

/// A change of one process that leaves its state, its memory and the notice of a stop alone keeps
/// everything.
pub proof fn law_own_fields(s: KernelView, pid: Pid, q: ProcView)
    requires
        sched_ok(s),
        s.procs.contains_key(pid),
        q.state == s.procs[pid].state,
        q.address_space == s.procs[pid].address_space,
        q.stop_notify_pending == s.procs[pid].stop_notify_pending,
    ensures
        sched_ok(with_proc(s, pid, q)),
{
    assert(proc_sound(s, pid));
    lemma_same_standing(s, with_proc(s, pid, q), pid, q);
}

/// A new program in the place of the old one keeps everything.
pub proof fn law_replaced(
    s: KernelView,
    pid: Pid,
    image: ExecImage,
    path: Seq<u8>,
    argv: Seq<Seq<u8>>,
)
    requires
        sched_ok(s),
        s.procs.contains_key(pid),
    ensures
        sched_ok(
            without_regions(
                with_proc(s, pid, replaced(s.procs[pid], image, path, argv)),
                pid,
            ),
        ),
{
    let q = replaced(s.procs[pid], image, path, argv);
    assert(proc_sound(s, pid));
    lemma_same_standing(s, with_proc(s, pid, q), pid, q);
    law_regions_released(with_proc(s, pid, q), pid);
}

/// Letting go of mappings keeps everything.
pub proof fn law_regions_released(s: KernelView, pid: Pid)
    requires
        sched_ok(s),
    ensures
        sched_ok(without_regions(s, pid)),
{
    if s.procs.contains_key(pid) {
        assert(proc_sound(s, pid));
        lemma_same_standing(
            s,
            without_regions(s, pid),
            pid,
            ProcView { mmap_file_regions: Seq::empty(), ..s.procs[pid] },
        );
    }
}

/// The end of a process keeps everything.
pub proof fn law_terminated(s: KernelView, pid: Pid, code: i32)
    requires
        sched_ok(s),
    ensures
        sched_ok(terminated(s, pid, code)),
{
    let s1 = KernelView { exits: s.exits.push(pid), ..s };
    assert(sched_ok(s1)) by {
        assert forall|p: Pid| #[trigger] s1.procs.contains_key(p) implies proc_sound(s1, p) && p
            < s1.next_pid by {
            assert(s.procs.contains_key(p) && proc_sound(s, p));
        }
    }
    law_regions_released(s1, pid);
    let a = without_regions(s1, pid);
    if a.procs.contains_key(pid) && !(a.procs[pid].state is Zombie) {
        let b = KernelView {
            ready: queue_without(a.ready, pid),
            ..with_state(a, pid, ProcState::Zombie(code))
        };
        lemma_unqueue(a, b, pid, ProcView { state: ProcState::Zombie(code), ..a.procs[pid] });
        law_parent_woken(b, pid);
    }
}

/// Stopping a process keeps everything.
pub proof fn law_stopped(s: KernelView, pid: Pid, sig: u64)
    requires
        sched_ok(s),
        s.procs.contains_key(pid),
        !(s.procs[pid].state is Zombie),
    ensures
        sched_ok(stopped(s, pid, sig)),
{
    let p = s.procs[pid];
    assert(proc_sound(s, pid));
    let q = ProcView {
        state: ProcState::Stopped(sig),
        stop_notify_pending: true,
        pending_signals: p.pending_signals & !bit_of(SIGCONT),
        ..p
    };
    let b = KernelView {
        ready: if p.state == ProcState::Ready {
            queue_without(s.ready, pid)
        } else {
            s.ready
        },
        ..with_proc(s, pid, q)
    };
    if p.state == ProcState::Ready {
        lemma_unqueue(s, b, pid, q);
    } else {
        lemma_unqueued(s, b, pid, q);
    }
    law_parent_woken(b, pid);
}

/// A process that stops itself keeps everything.
pub proof fn law_self_stopped(s: KernelView, pid: Pid, sig: u64)
    requires
        sched_ok(s),
        s.procs.contains_key(pid),
        s.procs[pid].state == ProcState::Running,
    ensures
        sched_ok(self_stopped(s, pid, sig)),
{
    assert(proc_sound(s, pid));
    let q = ProcView {
        state: ProcState::Stopped(sig),
        stop_notify_pending: true,
        ..s.procs[pid]
    };
    lemma_unqueued(s, with_proc(s, pid, q), pid, q);
    law_parent_woken(with_proc(s, pid, q), pid);
}

/// Resuming a stopped process keeps everything.
pub proof fn law_continued(s: KernelView, pid: Pid, sig: u64)
    requires
        sched_ok(s),
    ensures
        sched_ok(cont_first(s, pid, sig)),
{
    if sig == SIGCONT && s.procs.contains_key(pid) && s.procs[pid].state is Stopped {
        let t = cont_first(s, pid, sig);
        let a = parent_woken(s, pid);
        assert(proc_sound(s, pid));
        law_parent_woken(s, pid);
        assert(a.procs[pid] == s.procs[pid]);
        assert(proc_sound(a, pid));
        let q = t.procs[pid];
        assert(t.procs =~= a.procs.insert(pid, q));
        assert(t.ready =~= a.ready.push(pid));
        lemma_queue_up(a, t, pid, q);
    }
}

/// A stopped process always resumes on `SIGCONT`: it is ready and last in the queue, and neither
/// the stop nor a pending stop is left.
pub proof fn law_cont_resumes(s: KernelView, pid: Pid)
    requires
        s.procs.contains_key(pid),
        s.procs[pid].state is Stopped,
    ensures
        ({
            let t = cont_first(s, pid, SIGCONT);
            &&& t.procs[pid].state == ProcState::Ready
            &&& t.ready.last() == pid
            &&& !t.procs[pid].stop_notify_pending && t.procs[pid].cont_notify_pending
            &&& !has_sig(t.procs[pid].pending_signals, SIGSTOP)
        }),
{
    crate::process::signals::lemma_masks();
}

/// A pending signal keeps everything.
pub proof fn law_posted(s: KernelView, pid: Pid, sig: u64, info: QueuedSigInfo)
    requires
        sched_ok(s),
        s.procs.contains_key(pid),
    ensures
        sched_ok(posted(s, pid, sig, info)),
{
    assert(proc_sound(s, pid));
    let q = pended(s.procs[pid], sig, info);
    let a = with_proc(s, pid, q);
    lemma_same_standing(s, a, pid, q);
    if interruptible(q, sig) {
        lemma_queue_up(
            a,
            posted(s, pid, sig, info),
            pid,
            ProcView { state: ProcState::Ready, ..q },
        );
    }
}

/// Whatever a signal does to a process keeps everything, and leaves the others alive.
pub proof fn law_signalled(s: KernelView, pid: Pid, sig: u64, info: QueuedSigInfo)
    requires
        sched_ok(s),
        s.procs.contains_key(pid),
        !(s.procs[pid].state is Zombie),
    ensures
        sched_ok(signalled(s, pid, sig, info)),
        forall|p: Pid| #[trigger]
            s.procs.contains_key(p) ==> signalled(s, pid, sig, info).procs.contains_key(p) && (p
                != pid && !(s.procs[p].state is Zombie) ==> !(signalled(
                s,
                pid,
                sig,
                info,
            ).procs[p].state is Zombie)),
{
    law_terminated(s, pid, (128 + sig) as i32);
    law_stopped(s, pid, sig);
    law_posted(s, pid, sig, info);
}

/// Resuming the stopped members of a group keeps everything.
proof fn lemma_each_continued(s: KernelView, list: Seq<Pid>, sig: u64)
    requires
        sched_ok(s),
    ensures
        sched_ok(each_continued(s, list, sig)),
        each_continued(s, list, sig).procs.dom() == s.procs.dom(),
        forall|p: Pid| #[trigger]
            s.procs.contains_key(p) && !(s.procs[p].state is Zombie) ==> !(each_continued(
                s,
                list,
                sig,
            ).procs[p].state is Zombie),
    decreases list.len(),
{
    if list.len() > 0 {
        lemma_each_continued(s, list.drop_last(), sig);
        let a = each_continued(s, list.drop_last(), sig);
        law_continued(a, list.last(), sig);
        assert(cont_first(a, list.last(), sig).procs.dom() =~= a.procs.dom());
    }
}

/// Signalling the members of a group one by one keeps everything.
proof fn lemma_each_signalled(s: KernelView, list: Seq<Pid>, sig: u64)
    requires
        sched_ok(s),
        list.no_duplicates(),
        forall|i: int|
            0 <= i < list.len() ==> s.procs.contains_key(#[trigger] list[i]) && !(
            s.procs[list[i]].state is Zombie),
    ensures
        sched_ok(each_signalled(s, list, sig)),
        forall|p: Pid| #[trigger]
            s.procs.contains_key(p) ==> each_signalled(s, list, sig).procs.contains_key(p) && (
            !list.contains(p) && !(s.procs[p].state is Zombie) ==> !(each_signalled(
                s,
                list,
                sig,
            ).procs[p].state is Zombie)),
    decreases list.len(),
{
    if list.len() > 0 {
        let t = list.drop_last();
        assert forall|i: int| 0 <= i < t.len() implies s.procs.contains_key(#[trigger] t[i]) && !(
        s.procs[t[i]].state is Zombie) by {
            assert(t[i] == list[i]);
        }
        lemma_each_signalled(s, t, sig);
        let a = each_signalled(s, t, sig);
        let last = list[list.len() - 1];
        assert(!t.contains(last)) by {
            if t.contains(last) {
                let i = choose|i: int| 0 <= i < t.len() && t[i] == last;
                assert(list[i] == last);
            }
        }
        assert(s.procs.contains_key(last));
        let info = QueuedSigInfo { code: crate::process::SI_USER, pid: 0, uid: 0, value: 0 };
        law_signalled(a, last, sig, info);
        assert forall|p: Pid| #[trigger] s.procs.contains_key(p) implies each_signalled(
            s,
            list,
            sig,
        ).procs.contains_key(p) && (!list.contains(p) && !(s.procs[p].state is Zombie) ==> !(
        each_signalled(s, list, sig).procs[p].state is Zombie)) by {
            assert(a.procs.contains_key(p));
            if !list.contains(p) {
                assert(p != last) by {
                    assert(list.contains(last)) by {
                        assert(list[list.len() - 1] == last);
                    }
                }
                if t.contains(p) {
                    let i = choose|i: int| 0 <= i < t.len() && t[i] == p;
                    assert(list[i] == p);
                }
            }
        }
    }
}

/// A list filtered keeps its order, its elements pass, and none occurs twice.
pub proof fn lemma_filtered(s: Seq<Pid>, test: spec_fn(Pid) -> bool)
    requires
        s.no_duplicates(),
    ensures
        s.filter(test).no_duplicates(),
        forall|i: int|
            0 <= i < s.filter(test).len() ==> test(#[trigger] s.filter(test)[i]) && s.contains(
                s.filter(test)[i],
            ),
    decreases s.len(),
{
    reveal(Seq::filter);
    if s.len() > 0 {
        let t = s.drop_last();
        lemma_filtered(t, test);
        let f = t.filter(test);
        assert forall|i: int| 0 <= i < s.filter(test).len() implies test(
            #[trigger] s.filter(test)[i],
        ) && s.contains(s.filter(test)[i]) by {
            if i < f.len() {
                assert(s.filter(test)[i] == f[i]);
                assert(t.contains(f[i]));
                let j = choose|j: int| 0 <= j < t.len() && t[j] == f[i];
                assert(s[j] == f[i]);
            } else {
                assert(s[s.len() - 1] == s.last());
            }
        }
        if test(s.last()) {
            assert forall|i: int, j: int|
                0 <= i < j < f.push(s.last()).len() implies f.push(s.last())[i] != f.push(
                s.last(),
            )[j] by {
                if j == f.len() {
                    assert(t.contains(f[i]));
                    let m = choose|m: int| 0 <= m < t.len() && t[m] == f[i];
                    assert(s[m] != s[s.len() - 1]);
                }
            }
        }
    }
}

/// The list of pids names exactly the processes, each once.
pub open spec fn pids_ok(s: KernelView) -> bool {
    &&& s.pids.no_duplicates()
    &&& forall|p: Pid| #[trigger] s.pids.contains(p) <==> s.procs.contains_key(p)
}

/// A signal to a whole group keeps everything.
pub proof fn law_group_signalled(s: KernelView, pgid: Pid, sig: u64)
    requires
        sched_ok(s),
        pids_ok(s),
    ensures
        sched_ok(group_signalled(s, pgid, sig)),
{
    let list = members(s, pgid);
    let test = group_test(s.procs, pgid);
    lemma_filtered(s.pids, test);
    lemma_each_continued(s, list, sig);
    let a = each_continued(s, list, sig);
    assert forall|i: int| 0 <= i < list.len() implies a.procs.contains_key(#[trigger] list[i]) && !(
    a.procs[list[i]].state is Zombie) by {
        assert(test(list[i]));
        assert(s.procs.contains_key(list[i]));
        assert(a.procs.dom().contains(list[i]));
    }
    lemma_each_signalled(a, list, sig);
}

/// `kill` keeps everything.
pub proof fn law_killed(s: KernelView, caller: Pid, target: i64, sig: i64)
    requires
        sched_ok(s),
        pids_ok(s),
        s.procs.contains_key(caller),
    ensures
        sched_ok(killed(s, caller, target, sig)),
{
    let t = target as u64;
    let n = sig as u64;
    let info = QueuedSigInfo {
        code: crate::process::SI_USER,
        pid: caller,
        uid: crate::process::identity::uid_of(s, s.current),
        value: 0,
    };
    if kill_answer(s, caller, target, sig) is Err || sig == 0 {
    } else if target <= 0 {
        law_group_signalled(s, kill_group(s, caller, target), n);
    } else if t == caller {
        assert(proc_sound(s, caller));
        let q = pended(s.procs[caller], n, info);
        lemma_same_standing(s, with_proc(s, caller, q), caller, q);
    } else if !(s.procs[t].state is Zombie) {
        law_continued(s, t, n);
        law_signalled(cont_first(s, t, n), t, n, info);
    }
}

/// `sigqueue` keeps everything.
pub proof fn law_sigqueued(s: KernelView, caller: Pid, target: i64, sig: i64, value: u64)
    requires
        sched_ok(s),
        s.procs.contains_key(caller),
    ensures
        sched_ok(sigqueued(s, caller, target, sig, value)),
{
    let t = target as u64;
    let n = sig as u64;
    let info = QueuedSigInfo {
        code: crate::process::SI_QUEUE,
        pid: caller,
        uid: crate::process::identity::uid_of(s, s.current),
        value,
    };
    if sig != 0 && target > 0 && s.procs.contains_key(t) {
        assert(proc_sound(s, t));
        let q = pended(s.procs[t], n, info);
        lemma_same_standing(s, with_proc(s, t, q), t, q);
        if !(s.procs[t].state is Zombie) {
            law_continued(s, t, n);
            law_signalled(cont_first(s, t, n), t, n, info);
        }
    }
}

/// A new process keeps everything.
pub proof fn law_born(s: KernelView, parent: Option<Pid>, child: ProcView)
    requires
        sched_ok(s),
        s.next_pid < u64::MAX,
        !s.procs.contains_key(s.next_pid),
        child.state == ProcState::Ready,
        child.address_space is Some,
        !child.stop_notify_pending,
    ensures
        sched_ok(born(s, parent, child)),
{
    let t = born(s, parent, child);
    let pid = s.next_pid;
    assert forall|p: Pid| #[trigger] t.procs.contains_key(p) implies proc_sound(t, p) && p
        < t.next_pid by {
        if p != pid {
            assert(s.procs.contains_key(p) && proc_sound(s, p));
        }
    }
    assert(!s.ready.contains(pid)) by {
        if s.ready.contains(pid) {
            let i = choose|i: int| 0 <= i < s.ready.len() && s.ready[i] == pid;
            assert(s.procs.contains_key(s.ready[i]));
        }
    }
    assert(t.ready.no_duplicates()) by {
        assert forall|i: int, j: int| 0 <= i < j < t.ready.len() implies t.ready[i] != t.ready[j] by {
            if j == s.ready.len() {
                assert(s.ready.contains(s.ready[i]));
            }
        }
    }
    assert forall|i: int| 0 <= i < t.ready.len() implies t.procs.contains_key(#[trigger] t.ready[i])
        && t.procs[t.ready[i]].state == ProcState::Ready by {
        if i < s.ready.len() {
            assert(s.procs.contains_key(s.ready[i]));
        }
    }
    assert forall|p: Pid| #[trigger]
        t.procs.contains_key(p) && t.procs[p].state == ProcState::Ready implies t.ready.contains(
        p,
    ) by {
        if p == pid {
            assert(t.ready[s.ready.len() as int] == p);
        } else {
            assert(s.procs.contains_key(p));
            let i = choose|i: int| 0 <= i < s.ready.len() && s.ready[i] == p;
            assert(t.ready[i] == p);
        }
    }
    assert forall|i: int| 0 <= i < t.reaps.len() implies (#[trigger] t.reaps[i]).0 < t.next_pid && (
    t.procs.contains_key(t.reaps[i].0) ==> t.procs[t.reaps[i].0].state is Zombie) by {
        assert(s.reaps[i].0 < s.next_pid);
    }
}

/// A process that blocks, having run, keeps everything.
pub proof fn law_blocked(s: KernelView, pid: Pid, reason: BlockReason)
    requires
        sched_ok(s),
        s.procs.contains_key(pid),
        s.procs[pid].state == ProcState::Running,
    ensures
        sched_ok(blocked_on(s, pid, reason)),
{
    assert(proc_sound(s, pid));
    lemma_unqueued(
        s,
        blocked_on(s, pid, reason),
        pid,
        ProcView { state: ProcState::Blocked(reason), ..s.procs[pid] },
    );
}

/// Burying an ended child keeps everything.
proof fn lemma_buried(s: KernelView, caller: Pid, c: Pid)
    requires
        sched_ok(s),
        s.procs.contains_key(caller),
        s.procs.contains_key(c),
        s.procs[c].state is Zombie,
        caller != c,
    ensures
        sched_ok(buried(s, caller, c)),
{
    let t = buried(s, caller, c);
    assert forall|p: Pid| #[trigger] t.procs.contains_key(p) implies proc_sound(t, p) && p
        < t.next_pid by {
        assert(s.procs.contains_key(p) && proc_sound(s, p));
    }
    assert forall|i: int| 0 <= i < t.ready.len() implies t.procs.contains_key(#[trigger] t.ready[i])
        && t.procs[t.ready[i]].state == ProcState::Ready by {
        assert(s.procs.contains_key(s.ready[i]));
    }
    assert forall|p: Pid| #[trigger]
        t.procs.contains_key(p) && t.procs[p].state == ProcState::Ready implies t.ready.contains(
        p,
    ) by {
        assert(s.procs.contains_key(p));
    }
}

/// Waiting for a child keeps everything.
pub proof fn law_waited(
    s: KernelView,
    caller: Pid,
    target: i64,
    options: u64,
    t: KernelView,
    r: Wait,
)
    requires
        sched_ok(s),
        s.procs.contains_key(caller),
        s.procs[caller].state == ProcState::Running,
        wait_outcome(s, caller, target, options, t, r),
    ensures
        sched_ok(t),
{
    let list = crate::process::lifecycle::candidates(s, caller, target);
    assert(proc_sound(s, caller));
    if list.len() == 0 {
    } else if !no_report(s, list, 0) {
        let i = choose|i: int| #[trigger]
            first_report(s, list, 0, i) && t == buried(s, caller, list[i]);
        assert(reportable(s, list[i], 0));
        lemma_buried(s, caller, list[i]);
    } else if options & crate::process::lifecycle::WUNTRACED != 0 && !no_report(s, list, 1) {
        let i = choose|i: int| #[trigger]
            first_report(s, list, 1, i) && t == stop_seen(s, list[i]);
        assert(reportable(s, list[i], 1));
        assert(proc_sound(s, list[i]));
        lemma_same_standing(s, t, list[i], t.procs[list[i]]);
    } else if options & crate::process::lifecycle::WCONTINUED != 0 && !no_report(s, list, 2) {
        let i = choose|i: int| #[trigger]
            first_report(s, list, 2, i) && t == cont_seen(s, list[i]);
        assert(reportable(s, list[i], 2));
        assert(proc_sound(s, list[i]));
        lemma_same_standing(s, t, list[i], t.procs[list[i]]);
    } else if options & crate::process::lifecycle::WNOHANG != 0 {
    } else {
        law_blocked(s, caller, BlockReason::WaitingForChild(wait_target(target)));
    }
}

/// Cleaning up one ended process keeps everything.
proof fn lemma_reap_one(s: KernelView, pid: Pid, kind: ReapKind)
    requires
        sched_ok(s),
        s.procs.contains_key(pid) ==> s.procs[pid].state is Zombie,
    ensures
        sched_ok(reap_one(s, pid, kind)),
        reap_one(s, pid, kind).reaps == s.reaps,
        reap_one(s, pid, kind).current == s.current,
        forall|p: Pid| #[trigger]
            s.procs.contains_key(p) && p != pid ==> reap_one(s, pid, kind).procs.contains_key(p)
                && reap_one(s, pid, kind).procs[p] == s.procs[p],
        forall|p: Pid| #[trigger]
            reap_one(s, pid, kind).procs.contains_key(p) ==> s.procs.contains_key(p) && reap_one(
                s,
                pid,
                kind,
            ).procs[p].state == s.procs[p].state,
{
    let t = reap_one(s, pid, kind);
    assert forall|p: Pid| #[trigger] t.procs.contains_key(p) implies proc_sound(t, p) && p
        < t.next_pid by {
        assert(s.procs.contains_key(p) && proc_sound(s, p));
    }
    assert forall|i: int| 0 <= i < t.ready.len() implies t.procs.contains_key(#[trigger] t.ready[i])
        && t.procs[t.ready[i]].state == ProcState::Ready by {
        assert(s.procs.contains_key(s.ready[i]));
    }
    assert forall|p: Pid| #[trigger]
        t.procs.contains_key(p) && t.procs[p].state == ProcState::Ready implies t.ready.contains(
        p,
    ) by {
        assert(s.procs.contains_key(p));
    }
}

/// Cleaning up the ended processes keeps everything, and spares the running one.
proof fn lemma_reap_each(s: KernelView, list: Seq<(Pid, ReapKind)>)
    requires
        sched_ok(s),
        forall|i: int|
            0 <= i < list.len() ==> (s.procs.contains_key((#[trigger] list[i]).0)
                ==> s.procs[list[i].0].state is Zombie),
    ensures
        sched_ok(reap_each(s, list)),
        reap_each(s, list).reaps == s.reaps,
        reap_each(s, list).current == s.current,
        s.procs.contains_key(s.current) ==> reap_each(s, list).procs.contains_key(s.current)
            && reap_each(s, list).procs[s.current] == s.procs[s.current],
        forall|p: Pid| #[trigger]
            reap_each(s, list).procs.contains_key(p) ==> s.procs.contains_key(p) && reap_each(
                s,
                list,
            ).procs[p].state == s.procs[p].state,
    decreases list.len(),
{
    if list.len() > 0 {
        let t = list.drop_last();
        assert forall|i: int|
            0 <= i < t.len() && s.procs.contains_key((#[trigger] t[i]).0) implies s.procs[t[i].0].state is Zombie by {
            assert(t[i] == list[i]);
        }
        lemma_reap_each(s, t);
        let a = reap_each(s, t);
        let e = list.last();
        assert(list[list.len() - 1] == e);
        if e.0 != s.current {
            if a.procs.contains_key(e.0) {
                assert(s.procs.contains_key(e.0));
            }
            lemma_reap_one(a, e.0, e.1);
        }
    }
}

/// The pending clean-ups keep everything, and spare the running process.
pub proof fn law_reaped(s: KernelView)
    requires
        sched_ok(s),
    ensures
        sched_ok(reaped(s)),
        reaped(s).current == s.current,
        s.procs.contains_key(s.current) ==> reaped(s).procs.contains_key(s.current)
            && reaped(s).procs[s.current] == s.procs[s.current],
{
    lemma_reap_each(s, s.reaps);
    let a = reap_each(s, s.reaps);
    let t = reaped(s);
    let keep = |e: (Pid, ReapKind)| e.0 == s.current;
    assert forall|i: int| 0 <= i < t.reaps.len() implies (#[trigger] t.reaps[i]).0 < t.next_pid && (
    t.procs.contains_key(t.reaps[i].0) ==> t.procs[t.reaps[i].0].state is Zombie) by {
        lemma_kept_reaps(s.reaps, keep);
        assert(s.reaps.contains(t.reaps[i]));
        let j = choose|j: int| 0 <= j < a.reaps.len() && a.reaps[j] == t.reaps[i];
        assert(a.reaps[j].0 < a.next_pid);
    }
    assert forall|p: Pid| #[trigger] t.procs.contains_key(p) implies proc_sound(t, p) && p
        < t.next_pid by {
        assert(a.procs.contains_key(p) && proc_sound(a, p));
    }
    assert(queue_ok(t)) by {
        assert(queue_ok(a));
        assert forall|p: Pid| #[trigger]
            t.procs.contains_key(p) && t.procs[p].state == ProcState::Ready implies t.ready.contains(
            p,
        ) by {
            assert(a.procs.contains_key(p));
        }
    }
}

proof fn lemma_kept_reaps(s: Seq<(Pid, ReapKind)>, keep: spec_fn((Pid, ReapKind)) -> bool)
    ensures
        forall|i: int| 0 <= i < s.filter(keep).len() ==> s.contains(#[trigger] s.filter(keep)[i]),
    decreases s.len(),
{
    reveal(Seq::filter);
    if s.len() > 0 {
        let t = s.drop_last();
        lemma_kept_reaps(t, keep);
        assert forall|i: int| 0 <= i < s.filter(keep).len() implies s.contains(
            #[trigger] s.filter(keep)[i],
        ) by {
            let f = t.filter(keep);
            if i < f.len() {
                assert(t.contains(f[i]));
                let j = choose|j: int| 0 <= j < t.len() && t[j] == f[i];
                assert(s[j] == f[i]);
            } else {
                assert(s[s.len() - 1] == s.last());
            }
        }
    }
}

/// A running process that queues up again keeps everything.
pub proof fn law_requeued(s: KernelView)
    requires
        sched_ok(s),
        s.current != 0 ==> s.procs.contains_key(s.current) && s.procs[s.current].state
            != ProcState::Ready,
    ensures
        sched_ok(requeued(s)),
{
    if still_runs(s) {
        let pid = s.current;
        assert(proc_sound(s, pid));
        lemma_queue_up(
            s,
            requeued(s),
            pid,
            ProcView { state: ProcState::Ready, ..s.procs[pid] },
        );
    }
}

/// `schedule` can be called whenever everything holds and the running process has not been queued
/// behind its back.
pub proof fn law_schedule_ready(s: KernelView)
    requires
        sched_ok(s),
        s.current != 0 ==> s.procs.contains_key(s.current) && s.procs[s.current].state
            != ProcState::Ready,
    ensures
        s.current != 0 ==> reaped(s).procs.contains_key(s.current),
        forall|i: int|
            0 <= i < requeued(reaped(s)).ready.len() ==> runnable(
                reaped(s),
                #[trigger] requeued(reaped(s)).ready[i],
            ),
{
    law_reaped(s);
    let a = reaped(s);
    law_requeued(a);
    let t = requeued(a);
    assert forall|i: int| 0 <= i < t.ready.len() implies runnable(a, #[trigger] t.ready[i]) by {
        assert(t.procs.contains_key(t.ready[i]));
        assert(a.procs.contains_key(t.ready[i]));
        assert(proc_sound(a, t.ready[i]));
    }
}

/// Handing the processor over keeps everything.
pub proof fn law_picked(s: KernelView, t: KernelView, action: SchedAction)
    requires
        sched_ok(s),
        forall|p: Pid| #[trigger] s.procs.contains_key(p) ==> s.procs[p].state != ProcState::Running,
        pick_outcome(s, t, action),
    ensures
        sched_ok(t),
        s.ready.len() > 0 ==> t.procs.contains_key(t.current) && t.procs[t.current].state
            == ProcState::Running,
{
    if s.ready.len() > 0 {
        let i = choose|i: int| #[trigger] is_pick(s, i) && t == resumed_at(s, i);
        let pid = s.ready[i];
        assert(s.procs.contains_key(s.ready[i]));
        assert(proc_sound(s, pid));
        assert(t.ready == s.ready.remove(i));
        assert forall|p: Pid| #[trigger] t.procs.contains_key(p) implies proc_sound(t, p) && p
            < t.next_pid by {
            assert(s.procs.contains_key(p) && proc_sound(s, p));
        }
        assert(t.ready.no_duplicates());
        assert forall|j: int| 0 <= j < t.ready.len() implies t.procs.contains_key(
            #[trigger] t.ready[j],
        ) && t.procs[t.ready[j]].state == ProcState::Ready by {
            let m = if j < i {
                j
            } else {
                j + 1
            };
            assert(s.ready[m] == t.ready[j]);
            assert(s.ready[m] != s.ready[i]);
            assert(s.procs.contains_key(s.ready[m]));
        }
        assert forall|p: Pid| #[trigger]
            t.procs.contains_key(p) && t.procs[p].state == ProcState::Ready implies t.ready.contains(
            p,
        ) by {
            assert(s.procs.contains_key(p));
            assert(p != pid);
            let m = choose|m: int| 0 <= m < s.ready.len() && s.ready[m] == p;
            if m < i {
                assert(t.ready[m] == p);
            } else {
                assert(t.ready[m - 1] == p);
            }
        }
    }
}

/// The first switch keeps everything, and the first process runs.
pub proof fn law_started(s: KernelView, pid: Pid)
    requires
        sched_ok(s),
        forall|p: Pid| #[trigger] s.procs.contains_key(p) ==> s.procs[p].state != ProcState::Running,
        s.procs.contains_key(pid),
        s.procs[pid].state == ProcState::Ready,
    ensures
        sched_ok(started(s, pid)),
        started(s, pid).procs[pid].state == ProcState::Running,
        started(s, pid).current == pid,
{
    let t = started(s, pid);
    lemma_without(s.ready, pid);
    assert(proc_sound(s, pid));
    assert forall|p: Pid| #[trigger] t.procs.contains_key(p) implies proc_sound(t, p) && p
        < t.next_pid by {
        assert(s.procs.contains_key(p) && proc_sound(s, p));
    }
    assert forall|j: int| 0 <= j < t.ready.len() implies t.procs.contains_key(#[trigger] t.ready[j])
        && t.procs[t.ready[j]].state == ProcState::Ready by {
        assert(t.ready.contains(t.ready[j]));
        assert(s.ready.contains(t.ready[j]));
        let m = choose|m: int| 0 <= m < s.ready.len() && s.ready[m] == t.ready[j];
        assert(s.procs.contains_key(s.ready[m]));
    }
    assert forall|p: Pid| #[trigger]
        t.procs.contains_key(p) && t.procs[p].state == ProcState::Ready implies t.ready.contains(
        p,
    ) by {
        assert(s.procs.contains_key(p));
    }
}

/// Giving up the processor keeps everything, and whoever has it then runs.
pub proof fn law_scheduled(s: KernelView, t: KernelView, action: SchedAction)
    requires
        sched_ok(s),
        s.current != 0 ==> s.procs.contains_key(s.current) && s.procs[s.current].state
            != ProcState::Ready,
        !s.procs.contains_key(0),
        pick_outcome(requeued(reaped(s)), t, action),
    ensures
        sched_ok(t),
        action != SchedAction::Idle ==> t.procs.contains_key(t.current)
            && t.procs[t.current].state == ProcState::Running,
{
    law_reaped(s);
    let a = reaped(s);
    law_requeued(a);
    let b = requeued(a);
    lemma_reap_each(s, s.reaps);
    assert forall|p: Pid| #[trigger] b.procs.contains_key(p) implies b.procs[p].state
        != ProcState::Running by {
        assert(a.procs.contains_key(p) && proc_sound(a, p));
        assert(s.procs.contains_key(p));
    }
    law_picked(b, t, action);
}

/// A kernel lists its processes, each once.
pub proof fn law_pids(k: &Kernel)
    requires
        k.wf(),
    ensures
        pids_ok(k@),
{
    k.procs.lemma_order();
}

/// Nobody who is ready outranks the one who gets the processor.
pub proof fn law_highest_first(s: KernelView, i: int, j: int)
    requires
        is_pick(s, i),
        0 <= j < s.ready.len(),
    ensures
        crate::process::scheduler::priority_of(s.procs, s.ready[j])
            <= crate::process::scheduler::priority_of(s.procs, s.ready[i]),
        crate::process::scheduler::priority_of(s.procs, s.ready[j])
            == crate::process::scheduler::priority_of(s.procs, s.ready[i]) ==> i <= j,
{
}

/// A new kernel meets all of this.
pub proof fn law_empty()
    ensures
        sched_ok(crate::process::empty_kernel()),
{
}

// ---------------------------------------------------------------------------------------------
// Signals
// ---------------------------------------------------------------------------------------------
/// No request for a mask can add `SIGKILL` or `SIGSTOP` to it.
pub proof fn law_unblockable(old_mask: u64, how: u64, requested: u64)
    ensures
        has_sig(masked(old_mask, how, requested), SIGKILL) ==> has_sig(old_mask, SIGKILL) && how
            < SIG_SETMASK,
        has_sig(masked(old_mask, how, requested), SIGSTOP) ==> has_sig(old_mask, SIGSTOP) && how
            < SIG_SETMASK,
        !has_sig(requested & !unblockable(), SIGKILL),
        !has_sig(requested & !unblockable(), SIGSTOP),
{
    crate::process::signals::lemma_masks();
}

/// Blocking a set and then unblocking it leaves nothing of it held back.
pub proof fn law_block_unblock(old_mask: u64, set: u64, sig: u64)
    requires
        1 <= sig <= 64,
    ensures
        has_sig(masked(masked(old_mask, SIG_BLOCK, set), 1, set), sig) <==> has_sig(old_mask, sig)
            && !has_sig(set, sig),
{
    crate::process::signals::lemma_masks();
}

/// Leaving a handler undoes entering it.
pub proof fn law_handler_round_trip(s: KernelView, pid: Pid, saved: SyscallFrame, mask: u64)
    requires
        s.procs.contains_key(pid),
    ensures
        ({
            let t = entered(s, pid, saved, mask);
            &&& t.procs[pid].signal_stack.last().saved == saved
            &&& left(t, pid) == s
        }),
{
    let t = entered(s, pid, saved, mask);
    assert(t.procs[pid].signal_stack.drop_last() =~= s.procs[pid].signal_stack);
    assert(left(t, pid).procs =~= s.procs);
}

/// While a handler runs, every signal that its mask adds is held back.
pub proof fn law_handler_holds_back(s: KernelView, pid: Pid, saved: SyscallFrame, mask: u64, sig: u64)
    requires
        s.procs.contains_key(pid),
        1 <= sig <= 64,
        has_sig(mask, sig) || has_sig(s.procs[pid].blocked_signals, sig),
    ensures
        !deliverable(entered(s, pid, saved, mask).procs[pid], sig),
{
    crate::process::signals::lemma_masks();
}

/// Two instances of a real-time signal come out in the order they went in, and a standard signal
/// keeps only the later one.
pub proof fn law_queued_in_order(p: ProcView, sig: u64, a: QueuedSigInfo, b: QueuedSigInfo)
    requires
        proc_ok(p),
        crate::process::signals::sendable(sig as int),
        !has_sig(p.pending_signals, sig),
    ensures
        ({
            let q = pended(pended(p, sig, a), sig, b);
            if sig >= SIGRTMIN {
                &&& front_info(q, sig) == a
                &&& has_sig(taken(q, sig).pending_signals, sig)
                &&& front_info(taken(q, sig), sig) == b
                &&& !has_sig(taken(taken(q, sig), sig).pending_signals, sig)
            } else {
                &&& front_info(q, sig) == b
                &&& !has_sig(taken(q, sig).pending_signals, sig)
            }
        }),
{
    crate::process::signals::lemma_masks();
    if sig >= SIGRTMIN {
        assert(p.rt_queue[sig - SIGRTMIN].len() == 0);
    }
}

/// Taking back a signal that was just queued on a process without it leaves nothing pending.
pub proof fn law_pend_take(p: ProcView, sig: u64, info: QueuedSigInfo)
    requires
        proc_ok(p),
        crate::process::signals::sendable(sig as int),
        !has_sig(p.pending_signals, sig),
    ensures
        front_info(pended(p, sig, info), sig) == info,
        forall|t: u64|
            1 <= t <= 64 ==> (#[trigger] has_sig(
                taken(pended(p, sig, info), sig).pending_signals,
                t,
            ) <==> has_sig(p.pending_signals, t)),
{
    crate::process::signals::lemma_masks();
    if sig >= SIGRTMIN {
        assert(p.rt_queue[sig - SIGRTMIN].len() == 0);
    }
}

/// An ignored signal changes nothing.
pub proof fn law_ignored(s: KernelView, pid: Pid, sig: u64, info: QueuedSigInfo)
    requires
        s.procs[pid].sigactions[sig as int].handler == 1,
    ensures
        signalled(s, pid, sig, info) == s,
{
}

// ---------------------------------------------------------------------------------------------
// Life and death
// ---------------------------------------------------------------------------------------------
/// A parent that waits for a child learns the code that the child ended with.
pub proof fn law_exit_reported(
    s: KernelView,
    parent: Pid,
    child: Pid,
    code: i32,
    options: u64,
    t: KernelView,
    r: Wait,
)
    requires
        s.procs.contains_key(parent),
        s.procs.contains_key(child),
        parent != child,
        child <= i64::MAX,
        !(s.procs[child].state is Zombie),
        s.procs[parent].children.contains(child),
        wait_outcome(terminated(s, child, code), parent, child as i64, options, t, r),
    ensures
        r == (Wait::Reported {
            pid: child,
            status: code,
            freed: s.procs[child].address_space,
        }),
        !t.procs.contains_key(child),
        !t.procs[parent].children.contains(child),
{
    let a = terminated(s, child, code);
    let test = crate::process::lifecycle::awaited(child as i64);
    let kids = a.procs[parent].children;
    assert(kids == s.procs[parent].children);
    let list = kids.filter(test);
    lemma_filter_passing(kids, test);
    assert(a.procs[child].state == ProcState::Zombie(code));
    assert forall|j: int| 0 <= j < list.len() implies #[trigger] list[j] == child by {
        assert(test(list[j]));
    }
    assert(list.contains(child));
    assert(list.len() > 0);
    assert(reportable(a, list[0], 0));
    assert(!no_report(a, list, 0));
    lemma_without(kids, child);
}

/// Filtering keeps exactly what passes.
pub proof fn lemma_filter_passing(s: Seq<Pid>, test: spec_fn(Pid) -> bool)
    ensures
        forall|i: int| 0 <= i < s.filter(test).len() ==> test(#[trigger] s.filter(test)[i]),
        forall|x: Pid| #[trigger] s.contains(x) && test(x) ==> s.filter(test).contains(x),
    decreases s.len(),
{
    reveal(Seq::filter);
    if s.len() > 0 {
        let t = s.drop_last();
        lemma_filter_passing(t, test);
        let f = t.filter(test);
        assert forall|i: int| 0 <= i < s.filter(test).len() implies test(
            #[trigger] s.filter(test)[i],
        ) by {
            if i < f.len() {
                assert(s.filter(test)[i] == f[i]);
            }
        }
        assert forall|x: Pid| #[trigger] s.contains(x) && test(x) implies s.filter(test).contains(
            x,
        ) by {
            let i = choose|i: int| 0 <= i < s.len() && s[i] == x;
            if i < t.len() {
                assert(t[i] == x);
                assert(t.contains(x));
                let j = choose|j: int| 0 <= j < f.len() && f[j] == x;
                assert(s.filter(test)[j] == x);
            } else {
                assert(s.filter(test)[f.len() as int] == x);
            }
        }
    }
}

/// A fork gives the child its parent's identity, dispositions and limits, and nothing pending.
pub proof fn law_fork_inherits(p: ProcView, pid: Pid, space: u64, top: u64, rsp: u64)
    ensures
        ({
            let c = forked(p, pid, space, top, rsp);
            &&& c.uid == p.uid && c.gid == p.gid && c.pgid == p.pgid && c.sid == p.sid
            &&& c.sigactions == p.sigactions && c.blocked_signals == p.blocked_signals
            &&& c.rlimits == p.rlimits && c.umask == p.umask && c.nice == p.nice
            &&& c.cwd == p.cwd && c.root_inode == p.root_inode && c.brk == p.brk
            &&& c.pending_signals == 0 && c.real_timer_deadline is None
            &&& c.parent == Some(p.pid)
        }),
{
}

/// A new program keeps the process's identity, its pending and held-back signals, its directories
/// and limits; what was ignored stays ignored and nothing stays caught.
pub proof fn law_exec_preserves(p: ProcView, image: ExecImage, path: Seq<u8>, argv: Seq<Seq<u8>>, sig: int)
    requires
        0 <= sig < 65,
        p.sigactions.len() == 65,
    ensures
        ({
            let q = replaced(p, image, path, argv);
            &&& q.pid == p.pid && q.uid == p.uid && q.gid == p.gid && q.pgid == p.pgid && q.sid
                == p.sid
            &&& q.pending_signals == p.pending_signals && q.blocked_signals == p.blocked_signals
            &&& q.cwd == p.cwd && q.root_inode == p.root_inode && q.rlimits == p.rlimits
            &&& q.real_timer_deadline == p.real_timer_deadline
            &&& p.sigactions[sig].handler <= 1 ==> q.sigactions[sig] == p.sigactions[sig]
            &&& q.sigactions[sig].handler <= 1
        }),
{
}

/// The status of a stopped child is the signal above a byte that no other status has.
pub proof fn law_stop_status(sig: u64)
    requires
        1 <= sig <= 64,
    ensures
        crate::process::lifecycle::stop_status(sig) == sig * 256 + 127,
{
    let n = sig as i32;
    assert(n == sig);
    assert(0x7fi32 | (n << 8) == n * 256 + 127) by (bit_vector)
        requires
            1 <= n <= 64,
    ;
}

} // verus!

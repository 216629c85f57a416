//! Which process runs next.
//!
//! The queue of ready processes is served by priority, and among equals in the order of arrival.
//! Switching stacks and address spaces is the caller's: `schedule` says which switch to make.

use vstd::prelude::*;
use std::collections::VecDeque;
use crate::ordmap::{lemma_without_absent, without_key};
use crate::process::{
    with_proc, with_state, Kernel, KernelView, Pid, ProcState, ProcView,
};

verus! {

broadcast use crate::process::group_views;

/// What is given back of a process that has ended.
#[derive(Clone, Copy, PartialEq, Eq, Structural, Debug)]
pub enum ReapKind {
    /// Its whole table entry.
    RemoveEntry,
    /// Only its memory; the entry stays for the parent to wait for.
    TeardownOnly,
}

/// The running process; `0` before the first one.
pub fn current_pid(k: &Kernel) -> (r: Pid)
    ensures
        r == k@.current,
{
    k.current
}

/// The thread group of process `pid`, or `pid` itself where there is no such process.
pub open spec fn tgid_of(s: KernelView, pid: Pid) -> Pid {
    if s.procs.contains_key(pid) {
        s.procs[pid].tgid
    } else {
        pid
    }
}

/// The thread group of the running process.
pub fn current_tgid(k: &Kernel) -> (r: Pid)
    requires
        k.wf(),
    ensures
        r == tgid_of(k@, k@.current),
{
    match k.procs.get(k.current) {
        Some(p) => p.tgid,
        None => k.current,
    }
}

/// Puts `pid` at the back of the queue.
pub fn enqueue_ready(ready: &mut VecDeque<Pid>, pid: Pid)
    ensures
        final(ready)@ == old(ready)@.push(pid),
{
    ready.push_back(pid);
}

/// `s` with `pid` at the back of the queue.
pub open spec fn enqueued(s: KernelView, pid: Pid) -> KernelView {
    KernelView { ready: s.ready.push(pid), ..s }
}

/// `s` with `pid` ready and at the back of the queue.
pub open spec fn made_ready(s: KernelView, pid: Pid) -> KernelView {
    enqueued(with_state(s, pid, ProcState::Ready), pid)
}

/// A queue without `pid`.
pub open spec fn queue_without(ready: Seq<Pid>, pid: Pid) -> Seq<Pid> {
    without_key(ready, pid)
}

/// Takes every occurrence of `pid` out of the queue; the others keep their order.
pub fn remove_ready(ready: &mut VecDeque<Pid>, pid: Pid)
    ensures
        final(ready)@ == queue_without(old(ready)@, pid),
{
    let mut kept: VecDeque<Pid> = VecDeque::new();
    let mut i: usize = 0;
    let ghost all = ready@;
    while i < ready.len()
        invariant
            ready@ == all,
            i <= all.len(),
            kept@ == queue_without(all.take(i as int), pid),
        decreases all.len() - i,
    {
        let p: Pid = ready[i];
        proof {
            reveal(Seq::filter);
            assert(all.take(i + 1).drop_last() =~= all.take(i as int));
        }
        if p != pid {
            kept.push_back(p);
        }
        i += 1;
    }
    assert(all.take(i as int) =~= all);
    *ready = kept;
}

/// The priority of process `pid`; `0` where there is no such process.
pub open spec fn priority_of(procs: Map<Pid, ProcView>, pid: Pid) -> i32 {
    if procs.contains_key(pid) {
        procs[pid].sched_priority
    } else {
        0
    }
}

fn priority(k: &Kernel, pid: Pid) -> (r: i32)
    requires
        k.wf(),
    ensures
        r == priority_of(k@.procs, pid),
{
    match k.procs.get(pid) {
        Some(p) => p.sched_priority,
        None => 0,
    }
}

/// Position `i` of the queue is next: nothing ahead of it matches its priority, nothing behind it
/// exceeds it.
pub open spec fn is_pick(s: KernelView, i: int) -> bool {
    &&& 0 <= i < s.ready.len()
    &&& forall|j: int|
        0 <= j < i ==> priority_of(s.procs, #[trigger] s.ready[j]) < priority_of(
            s.procs,
            s.ready[i],
        )
    &&& forall|j: int|
        i < j < s.ready.len() ==> priority_of(s.procs, #[trigger] s.ready[j]) <= priority_of(
            s.procs,
            s.ready[i],
        )
}

/// `s` without position `i` of the queue.
pub open spec fn dequeued(s: KernelView, i: int) -> KernelView {
    KernelView { ready: s.ready.remove(i), ..s }
}

/// Takes the process of the highest priority out of the queue, the earliest among equals.
pub fn dequeue_highest_priority(k: &mut Kernel) -> (r: Option<Pid>)
    requires
        old(k).wf(),
    ensures
        final(k).wf(),
        final(k).procs == old(k).procs,
        old(k)@.ready.len() == 0 ==> r is None && final(k)@ == old(k)@,
        old(k)@.ready.len() > 0 ==> exists|i: int| #[trigger]
            is_pick(old(k)@, i) && r == Some(old(k)@.ready[i]) && final(k)@ == dequeued(old(k)@, i),
{
    if k.ready.len() == 0 {
        return None;
    }
    let ghost before = k@;
    let first: Pid = k.ready[0];
    let mut best_idx: usize = 0;
    let mut best_priority: i32 = priority(k, first);
    let mut i: usize = 1;
    while i < k.ready.len()
        invariant
            k.wf(),
            k@ == before,
            1 <= i <= before.ready.len(),
            best_idx < i,
            best_priority == priority_of(before.procs, before.ready[best_idx as int]),
            forall|j: int|
                0 <= j < best_idx ==> priority_of(before.procs, #[trigger] before.ready[j])
                    < best_priority,
            forall|j: int|
                best_idx < j < i ==> priority_of(before.procs, #[trigger] before.ready[j])
                    <= best_priority,
        decreases before.ready.len() - i,
    {
        let pid: Pid = k.ready[i];
        let p: i32 = priority(k, pid);
        if p > best_priority {
            best_priority = p;
            best_idx = i;
        }
        i += 1;
    }
    assert(is_pick(before, best_idx as int));
    let picked = k.ready.remove(best_idx);
    assert(k@ =~= dequeued(before, best_idx as int));
    picked
}

/// Whether some ready process outranks `current_priority`.
pub fn ready_queue_has_higher_priority_than(k: &Kernel, current_priority: i32) -> (r: bool)
    requires
        k.wf(),
    ensures
        r <==> exists|i: int|
            0 <= i < k@.ready.len() && priority_of(k@.procs, #[trigger] k@.ready[i])
                > current_priority,
{
    let mut i: usize = 0;
    while i < k.ready.len()
        invariant
            k.wf(),
            i <= k@.ready.len(),
            forall|j: int|
                0 <= j < i ==> priority_of(k@.procs, #[trigger] k@.ready[j]) <= current_priority,
        decreases k@.ready.len() - i,
    {
        let pid: Pid = k.ready[i];
        if priority(k, pid) > current_priority {
            assert(priority_of(k@.procs, k@.ready[i as int]) > current_priority);
            return true;
        }
        i += 1;
    }
    false
}

/// Leaves process `pid` to be cleaned up at a later switch.
pub fn queue_thread_reap(k: &mut Kernel, pid: Pid, kind: ReapKind)
    requires
        old(k).wf(),
    ensures
        final(k).wf(),
        final(k)@ == (KernelView { reaps: old(k)@.reaps.push((pid, kind)), ..old(k)@ }),
{
    let ghost before = k@;
    k.reaps.push((pid, kind));
    assert(k@.procs == before.procs);
}

/// An optional address space as a list.
pub open spec fn spaces(a: Option<u64>) -> Seq<u64> {
    match a {
        Some(x) => seq![x],
        None => Seq::empty(),
    }
}

/// `s` without process `pid`.
pub open spec fn without_proc(s: KernelView, pid: Pid) -> KernelView {
    KernelView { procs: s.procs.remove(pid), pids: without_key(s.pids, pid), ..s }
}

/// `s` after process `pid` was cleaned up.
pub open spec fn reap_one(s: KernelView, pid: Pid, kind: ReapKind) -> KernelView {
    if !s.procs.contains_key(pid) {
        s
    } else {
        match kind {
            ReapKind::RemoveEntry => without_proc(s, pid),
            ReapKind::TeardownOnly => with_proc(
                s,
                pid,
                ProcView { address_space: None, ..s.procs[pid] },
            ),
        }
    }
}

/// The address space that cleaning up `pid` gives back.
pub open spec fn reap_space(s: KernelView, pid: Pid) -> Seq<u64> {
    if s.procs.contains_key(pid) {
        spaces(s.procs[pid].address_space)
    } else {
        Seq::empty()
    }
}

/// `s` after every process of `list` but the running one was cleaned up, in order.
pub open spec fn reap_each(s: KernelView, list: Seq<(Pid, ReapKind)>) -> KernelView
    decreases list.len(),
{
    if list.len() == 0 {
        s
    } else {
        let a = reap_each(s, list.drop_last());
        let e = list.last();
        if e.0 == s.current {
            a
        } else {
            reap_one(a, e.0, e.1)
        }
    }
}

/// The address spaces that `reap_each` gives back, in order.
pub open spec fn reap_spaces(s: KernelView, list: Seq<(Pid, ReapKind)>) -> Seq<u64>
    decreases list.len(),
{
    if list.len() == 0 {
        Seq::empty()
    } else {
        let f = reap_spaces(s, list.drop_last());
        let e = list.last();
        if e.0 == s.current {
            f
        } else {
            f + reap_space(reap_each(s, list.drop_last()), e.0)
        }
    }
}

/// `s` after the pending clean-ups, of which only the running process's own remain.
pub open spec fn reaped(s: KernelView) -> KernelView {
    KernelView {
        reaps: s.reaps.filter(|e: (Pid, ReapKind)| e.0 == s.current),
        ..reap_each(s, s.reaps)
    }
}

/// Cleans up the ended processes that are no longer running, and returns the address spaces to
/// free.
pub fn reap_pending_threads(k: &mut Kernel) -> (r: Vec<u64>)
    requires
        old(k).wf(),
    ensures
        final(k).wf(),
        final(k)@ == reaped(old(k)@),
        r@ == reap_spaces(old(k)@, old(k)@.reaps),
{
    let ghost before = k@;
    let ghost list = k@.reaps;
    let cur: Pid = k.current;
    let mut freed: Vec<u64> = Vec::new();
    let mut kept: Vec<(Pid, ReapKind)> = Vec::new();
    let mut i: usize = 0;
    while i < k.reaps.len()
        invariant
            k.wf(),
            k.current == cur,
            cur == before.current,
            list == before.reaps,
            k.reaps@ == list,
            i <= list.len(),
            k@ == reap_each(before, list.take(i as int)),
            freed@ == reap_spaces(before, list.take(i as int)),
            kept@ == list.take(i as int).filter(|e: (Pid, ReapKind)| e.0 == cur),
        decreases list.len() - i,
    {
        let (pid, kind): (Pid, ReapKind) = k.reaps[i];
        let ghost mid = k@;
        proof {
            reveal(Seq::filter);
            assert(list.take(i + 1).drop_last() =~= list.take(i as int));
            assert(list.take(i + 1).last() == (pid, kind));
            k.procs.lemma_order();
            if !mid.procs.contains_key(pid) {
                lemma_without_absent(mid.pids, pid);
            }
        }
        if pid == cur {
            kept.push((pid, kind));
        } else {
            let space: Option<u64> = match kind {
                ReapKind::RemoveEntry => match k.procs.remove(pid) {
                    Some(p) => p.address_space,
                    None => {
                        assert(k@.procs =~= mid.procs);
                        None
                    },
                },
                ReapKind::TeardownOnly => match k.procs.get_mut(pid) {
                    Some(p) => p.address_space.take(),
                    None => None,
                },
            };
            assert(k@ =~= reap_one(mid, pid, kind));
            if let Some(a) = space {
                freed.push(a);
            }
            assert(freed@ =~= reap_spaces(before, list.take(i + 1)));
        }
        i += 1;
    }
    assert(list.take(i as int) =~= list);
    k.reaps = kept;
    assert(k@ =~= reaped(before));
    assert(k@.procs == reap_each(before, list).procs);
    freed
}

/// The switch to make.
#[derive(Clone, Copy, PartialEq, Eq, Structural, Debug)]
pub struct SwitchTo {
    /// The process that leaves; `0` for none.
    pub from: Pid,
    pub to: Pid,
    pub address_space: u64,
    pub kernel_stack_top: u64,
    pub fs_base: u64,
    pub rsp: u64,
}

/// What the caller has to do next.
#[derive(Clone, Copy, PartialEq, Eq, Structural, Debug)]
pub enum SchedAction {
    /// Nothing can run: wait for an interrupt and call `pick_next`.
    Idle,
    /// The same process goes on.
    Continue,
    /// Another process takes over.
    Switch(SwitchTo),
}

/// `s` with `pid` running.
pub open spec fn activated(s: KernelView, pid: Pid) -> KernelView {
    KernelView { current: pid, ..with_state(s, pid, ProcState::Running) }
}

/// The switch from the running process to `pid`.
pub open spec fn switch_to(s: KernelView, pid: Pid) -> SwitchTo {
    let p = s.procs[pid];
    SwitchTo {
        from: s.current,
        to: pid,
        address_space: p.address_space->0,
        kernel_stack_top: p.kernel_stack_top,
        fs_base: p.fs_base,
        rsp: p.rsp,
    }
}

/// Process `pid` exists and still has its memory.
pub open spec fn runnable(s: KernelView, pid: Pid) -> bool {
    s.procs.contains_key(pid) && s.procs[pid].address_space is Some
}

/// Makes `pid` the running process.
fn activate_and_prepare(k: &mut Kernel, pid: Pid) -> (r: SwitchTo)
    requires
        old(k).wf(),
        runnable(old(k)@, pid),
    ensures
        final(k).wf(),
        final(k)@ == activated(old(k)@, pid),
        r == switch_to(old(k)@, pid),
{
    let ghost before = k@;
    let from: Pid = k.current;
    let mut r = SwitchTo {
        from,
        to: pid,
        address_space: 0,
        kernel_stack_top: 0,
        fs_base: 0,
        rsp: 0,
    };
    if let Some(p) = k.procs.get_mut(pid) {
        p.state = ProcState::Running;
        if let Some(a) = p.address_space {
            r.address_space = a;
        }
        r.kernel_stack_top = p.kernel_stack_top;
        r.fs_base = p.fs_base;
        r.rsp = p.rsp;
    }
    k.current = pid;
    assert(k@ =~= activated(before, pid));
    r
}

/// `s` with `pid` taken out of the queue to run first.
pub open spec fn started(s: KernelView, pid: Pid) -> KernelView {
    activated(KernelView { ready: queue_without(s.ready, pid), ..s }, pid)
}

/// The first switch of all, into `first_pid`, which leaves the queue for it.
pub fn start(k: &mut Kernel, first_pid: Pid) -> (r: SwitchTo)
    requires
        old(k).wf(),
        runnable(old(k)@, first_pid),
    ensures
        final(k).wf(),
        final(k)@ == started(old(k)@, first_pid),
        r == switch_to(old(k)@, first_pid),
{
    remove_ready(&mut k.ready, first_pid);
    activate_and_prepare(k, first_pid)
}

/// `s` after position `i` of the queue got the processor.
pub open spec fn resumed_at(s: KernelView, i: int) -> KernelView {
    let d = dequeued(s, i);
    let pid = s.ready[i];
    if s.current != 0 && pid == s.current {
        with_state(d, pid, ProcState::Running)
    } else {
        activated(d, pid)
    }
}

/// What the caller does when position `i` of the queue gets the processor.
pub open spec fn action_at(s: KernelView, i: int) -> SchedAction {
    let pid = s.ready[i];
    if s.current != 0 && pid == s.current {
        SchedAction::Continue
    } else {
        SchedAction::Switch(switch_to(s, pid))
    }
}

/// The outcome of handing the processor to the next ready process, if there is one.
pub open spec fn pick_outcome(s: KernelView, t: KernelView, action: SchedAction) -> bool {
    if s.ready.len() == 0 {
        action == SchedAction::Idle && t == s
    } else {
        exists|i: int| #[trigger]
            is_pick(s, i) && t == resumed_at(s, i) && action == action_at(s, i)
    }
}

/// Hands the processor to the next ready process, if there is one.
pub fn pick_next(k: &mut Kernel) -> (r: SchedAction)
    requires
        old(k).wf(),
        forall|i: int| 0 <= i < old(k)@.ready.len() ==> runnable(old(k)@, #[trigger] old(k)@.ready[i]),
    ensures
        final(k).wf(),
        pick_outcome(old(k)@, final(k)@, r),
{
    let ghost before = k@;
    let next: Pid = match dequeue_highest_priority(k) {
        Some(p) => p,
        None => {
            return SchedAction::Idle;
        },
    };
    let ghost i = choose|i: int| #[trigger]
        is_pick(before, i) && next == before.ready[i] && k@ == dequeued(before, i);
    assert(runnable(before, before.ready[i]));
    if k.current != 0 && next == k.current {
        if let Some(p) = k.procs.get_mut(next) {
            p.state = ProcState::Running;
        }
        assert(k@ =~= resumed_at(before, i));
        return SchedAction::Continue;
    }
    let to = activate_and_prepare(k, next);
    assert(k@ =~= resumed_at(before, i));
    SchedAction::Switch(to)
}

/// Whether the running process could go on running.
pub open spec fn still_runs(s: KernelView) -> bool {
    s.current != 0 && (s.procs[s.current].state == ProcState::Ready || s.procs[s.current].state
        == ProcState::Running)
}

/// `s` after a running process that could go on has queued up again.
pub open spec fn requeued(s: KernelView) -> KernelView {
    if still_runs(s) {
        made_ready(s, s.current)
    } else {
        s
    }
}

/// Gives up the processor: cleans up what has ended, queues the caller up again if it can still
/// run, and picks who runs next. The first answer lists the address spaces to free.
pub fn schedule(k: &mut Kernel) -> (r: (Vec<u64>, SchedAction))
    requires
        old(k).wf(),
        old(k)@.current != 0 ==> reaped(old(k)@).procs.contains_key(old(k)@.current),
        forall|i: int|
            0 <= i < requeued(reaped(old(k)@)).ready.len() ==> runnable(
                reaped(old(k)@),
                #[trigger] requeued(reaped(old(k)@)).ready[i],
            ),
    ensures
        final(k).wf(),
        r.0@ == reap_spaces(old(k)@, old(k)@.reaps),
        pick_outcome(requeued(reaped(old(k)@)), final(k)@, r.1),
{
    let freed = reap_pending_threads(k);
    let ghost mid = k@;
    let prev: Pid = k.current;
    if prev != 0 {
        let mut again: bool = false;
        if let Some(p) = k.procs.get_mut(prev) {
            if p.state == ProcState::Ready || p.state == ProcState::Running {
                p.state = ProcState::Ready;
                again = true;
            }
        }
        if again {
            enqueue_ready(&mut k.ready, prev);
        }
    }
    proof {
        lemma_reap_keeps_current(old(k)@, old(k)@.reaps);
    }
    assert(k@ =~= requeued(mid));
    let action = pick_next(k);
    (freed, action)
}

/// Cleaning up leaves it open who runs and who is queued.
proof fn lemma_reap_keeps_current(s: KernelView, list: Seq<(Pid, ReapKind)>)
    ensures
        reap_each(s, list).current == s.current,
        reap_each(s, list).ready == s.ready,
    decreases list.len(),
{
    if list.len() > 0 {
        lemma_reap_keeps_current(s, list.drop_last());
    }
}

} // verus!

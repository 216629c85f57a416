//! Who runs next: whoever has waited longest.

use vstd::prelude::*;

use crate::coop::{
    can_run, coop_ok, procs_ok, with_state, Coop, CoopView, Pid, ProcState, MMAP_REGION_BASE,
    MMAP_REGION_CEILING,
};
use crate::ordmap::{group_map_views, without_key};
use crate::process::laws::lemma_without;
use crate::process::scheduler::{remove_ready, SchedAction, SwitchTo};

verus! {

broadcast use group_map_views;

/// The process that runs.
pub fn current_pid(k: &Coop) -> (r: Pid)
    ensures
        r == k@.current,
{
    k.current
}

/// Puts a process at the end of the queue. One that is ready and was not queued keeps the kernel
/// consistent.
pub fn enqueue_ready(k: &mut Coop, pid: Pid)
    ensures
        final(k)@ == (CoopView { ready: old(k)@.ready.push(pid), ..old(k)@ }),
        old(k).wf() && old(k)@.procs.contains_key(pid) && old(k)@.procs[pid].state
            == ProcState::Ready && !old(k)@.ready.contains(pid) ==> final(k).wf(),
{
    let ghost s = k@;
    k.ready.push_back(pid);
    proof {
        let t = k@;
        if coop_ok(s) && s.procs.contains_key(pid) && s.procs[pid].state == ProcState::Ready
            && !s.ready.contains(pid) {
            lemma_pushed(s.ready, pid);
            assert forall|i: int| 0 <= i < t.ready.len() implies {
                let q = #[trigger] t.ready[i];
                &&& t.procs.contains_key(q)
                &&& can_run(t.procs[q].state)
                &&& q == t.current ==> t.procs[q].state == ProcState::Ready
            } by {
                if i < s.ready.len() {
                    assert(t.ready[i] == s.ready[i]);
                }
            }
        }
    }
}

/// A queue without duplicates has none after a newcomer joined.
pub proof fn lemma_pushed(q: Seq<Pid>, pid: Pid)
    requires
        q.no_duplicates(),
        !q.contains(pid),
    ensures
        q.push(pid).no_duplicates(),
{
    let t = q.push(pid);
    assert forall|i: int, j: int| 0 <= i < t.len() && 0 <= j < t.len() && i != j implies t[i]
        != t[j] by {
        if i < q.len() && j < q.len() {
            assert(q[i] != q[j]);
        } else if i < q.len() {
            assert(q.contains(q[i]));
        } else {
            assert(q.contains(q[j]));
        }
    }
}

/// The kernel with the process that runs at the end of the queue, where it can go on.
pub open spec fn requeued(s: CoopView) -> CoopView {
    if s.current != 0 && can_run(s.procs[s.current].state) {
        CoopView { ready: s.ready.push(s.current), ..s }
    } else {
        s
    }
}

/// The switch to process `pid`.
pub open spec fn switch_to(s: CoopView, pid: Pid) -> SwitchTo {
    let p = s.procs[pid];
    SwitchTo {
        from: s.current,
        to: pid,
        address_space: p.address_space,
        kernel_stack_top: p.kernel_stack_top,
        fs_base: p.fs_base,
        rsp: p.rsp,
    }
}

/// What is done when the queue is `s.ready`.
pub open spec fn next_action(s: CoopView) -> SchedAction {
    if s.ready.len() == 0 {
        SchedAction::Idle
    } else if s.ready[0] == s.current {
        SchedAction::Continue
    } else {
        SchedAction::Switch(switch_to(s, s.ready[0]))
    }
}

/// The kernel after that.
pub open spec fn picked(s: CoopView) -> CoopView {
    if s.ready.len() == 0 {
        s
    } else {
        CoopView {
            ready: s.ready.drop_first(),
            current: s.ready[0],
            ..with_state(s, s.ready[0], ProcState::Running)
        }
    }
}

/// The kernel is consistent but for the process that runs, which may be in the queue.
spec fn nearly_ok(s: CoopView) -> bool {
    &&& procs_ok(s.procs, s.next_pid)
    &&& s.next_pid >= 1
    &&& MMAP_REGION_BASE <= s.next_mmap <= MMAP_REGION_CEILING
    &&& s.next_mmap % 4096 == 0
    &&& s.ready.no_duplicates()
    &&& forall|i: int|
        0 <= i < s.ready.len() ==> s.procs.contains_key(#[trigger] s.ready[i]) && can_run(
            s.procs[s.ready[i]].state,
        )
}

fn pick(k: &mut Coop) -> (r: SchedAction)
    requires
        old(k).procs.wf(),
        nearly_ok(old(k)@),
    ensures
        final(k).wf(),
        r == next_action(old(k)@),
        final(k)@ == picked(old(k)@),
{
    let ghost s = k@;
    match k.ready.pop_front() {
        None => SchedAction::Idle,
        Some(pid) => {
            let from: Pid = k.current;
            let mut action = SchedAction::Continue;
            assert(s.ready[0] == pid);
            if let Some(p) = k.procs.get_mut(pid) {
                p.state = ProcState::Running;
                if pid != from {
                    action = SchedAction::Switch(
                        SwitchTo {
                            from,
                            to: pid,
                            address_space: p.address_space,
                            kernel_stack_top: p.kernel_stack_top,
                            fs_base: p.fs_base,
                            rsp: p.rsp,
                        },
                    );
                }
            }
            k.current = pid;
            proof {
                let t = k@;
                assert(s.procs.contains_key(pid));
                assert(t.ready =~= s.ready.drop_first());
                assert(t == picked(s));
                assert forall|i: int, j: int|
                    0 <= i < t.ready.len() && 0 <= j < t.ready.len() && i != j implies t.ready[i]
                    != t.ready[j] by {
                    assert(s.ready[i + 1] != s.ready[j + 1]);
                }
                assert forall|i: int| 0 <= i < t.ready.len() implies {
                    let q = #[trigger] t.ready[i];
                    &&& t.procs.contains_key(q)
                    &&& can_run(t.procs[q].state)
                    &&& q == t.current ==> t.procs[q].state == ProcState::Ready
                } by {
                    assert(t.ready[i] == s.ready[i + 1]);
                    assert(s.ready[i + 1] != s.ready[0]);
                }
                assert forall|q: Pid| #[trigger] t.procs.contains_key(q) implies t.procs[q].pid == q
                    && 1 <= q < t.next_pid by {
                    assert(s.procs.contains_key(q));
                }
            }
            action
        },
    }
}

/// Takes the next process from the queue. `schedule` does so itself; after `Idle`, this is called
/// when an interrupt came.
pub fn pick_next(k: &mut Coop) -> (r: SchedAction)
    requires
        old(k).wf(),
    ensures
        final(k).wf(),
        r == next_action(old(k)@),
        final(k)@ == picked(old(k)@),
{
    pick(k)
}

/// Gives up the processor. The caller goes to the end of the queue unless it waits or is over, and
/// whoever is first in the queue runs.
pub fn schedule(k: &mut Coop) -> (r: SchedAction)
    requires
        old(k).wf(),
        old(k)@.current != 0 ==> old(k)@.procs.contains_key(old(k)@.current)
            && !old(k)@.ready.contains(old(k)@.current),
    ensures
        final(k).wf(),
        r == next_action(requeued(old(k)@)),
        final(k)@ == picked(requeued(old(k)@)),
{
    let ghost s = k@;
    let prev: Pid = k.current;
    if prev != 0 {
        let mut again = false;
        if let Some(p) = k.procs.get(prev) {
            again = match p.state {
                ProcState::Ready => true,
                ProcState::Running => true,
                _ => false,
            };
        }
        if again {
            k.ready.push_back(prev);
        }
    }
    proof {
        let t = k@;
        assert(t == requeued(s));
        if t.ready.len() > s.ready.len() {
            lemma_pushed(s.ready, s.current);
        }
        assert forall|i: int| 0 <= i < t.ready.len() implies t.procs.contains_key(
            #[trigger] t.ready[i],
        ) && can_run(t.procs[t.ready[i]].state) by {
            if i < s.ready.len() {
                assert(t.ready[i] == s.ready[i]);
            }
        }
    }
    pick(k)
}

/// The kernel with `pid` taken out of the queue to run first.
pub open spec fn started(s: CoopView, pid: Pid) -> CoopView {
    CoopView {
        ready: without_key(s.ready, pid),
        current: pid,
        ..with_state(s, pid, ProcState::Running)
    }
}

/// The first switch, from the boot stack to `first_pid`, which leaves the queue for it.
pub fn start(k: &mut Coop, first_pid: Pid) -> (r: SwitchTo)
    requires
        old(k).wf(),
        old(k)@.procs.contains_key(first_pid),
    ensures
        final(k).wf(),
        r == switch_to(old(k)@, first_pid),
        final(k)@ == started(old(k)@, first_pid),
{
    let ghost s = k@;
    let mut r = SwitchTo {
        from: k.current,
        to: first_pid,
        address_space: 0,
        kernel_stack_top: 0,
        fs_base: 0,
        rsp: 0,
    };
    if let Some(p) = k.procs.get_mut(first_pid) {
        p.state = ProcState::Running;
        r.address_space = p.address_space;
        r.kernel_stack_top = p.kernel_stack_top;
        r.fs_base = p.fs_base;
        r.rsp = p.rsp;
    }
    k.current = first_pid;
    remove_ready(&mut k.ready, first_pid);
    proof {
        let t = k@;
        assert(t == started(s, first_pid));
        lemma_without(s.ready, first_pid);
        assert forall|i: int| 0 <= i < t.ready.len() implies {
            let q = #[trigger] t.ready[i];
            &&& t.procs.contains_key(q)
            &&& can_run(t.procs[q].state)
            &&& q == t.current ==> t.procs[q].state == ProcState::Ready
        } by {
            assert(t.ready.contains(t.ready[i]));
            assert(s.ready.contains(t.ready[i]));
            let m = s.ready.index_of(t.ready[i]);
            assert(s.ready[m] == t.ready[i]);
        }
        assert forall|q: Pid| #[trigger] t.procs.contains_key(q) implies t.procs[q].pid == q && 1
            <= q < t.next_pid by {
            assert(s.procs.contains_key(q));
        }
    }
    r
}

// ---------------------------------------------------------------------------------------------
// Laws
// ---------------------------------------------------------------------------------------------
/// The processor goes round: whoever stands at place `i` of the queue stands one place further up
/// after a switch, so nobody who can run is passed over.
pub proof fn law_round_robin(s: CoopView, i: int)
    requires
        0 < i < s.ready.len(),
    ensures
        picked(requeued(s)).ready[i - 1] == s.ready[i],
{
}

/// After a switch somebody runs, unless nobody can.
pub proof fn law_somebody_runs(s: CoopView)
    requires
        coop_ok(s),
        s.current != 0 ==> s.procs.contains_key(s.current),
    ensures
        ({
            let t = picked(requeued(s));
            requeued(s).ready.len() > 0 ==> t.procs.contains_key(t.current)
                && t.procs[t.current].state == ProcState::Running
        }),
{
    let a = requeued(s);
    if a.ready.len() > 0 {
        if s.ready.len() > 0 {
            assert(a.ready[0] == s.ready[0]);
            assert(s.procs.contains_key(s.ready[0]));
        }
    }
}

/// A process that waits or is over gets no turn: it is not in the queue.
pub proof fn law_blocked_not_queued(s: CoopView, pid: Pid)
    requires
        coop_ok(s),
        s.procs.contains_key(pid),
        !can_run(s.procs[pid].state),
    ensures
        !s.ready.contains(pid),
{
    if s.ready.contains(pid) {
        let i = s.ready.index_of(pid);
        assert(s.ready[i] == pid);
    }
}

} // verus!

//! How processes come, wait for each other, change their program and go.

use vstd::prelude::*;

use crate::errno::ECHILD;
use crate::exec::{base_of, cmdline_of};
use crate::process::{with_proc, BlockReason, KernelView, Pid, ProcState, ProcView, SIGCONT};
use crate::process::laws::{lemma_filter_passing, lemma_without};
use crate::process::lifecycle::{
    awaited, born, candidates, cwd_of, first_report, forked, no_report, replaced, reportable,
    root_of, self_stopped, spawned, stop_status, terminated, wait_outcome, with_cwd, with_root,
    ExecImage, SpawnImage, WCONTINUED, WNOHANG, WUNTRACED, Wait,
};
use crate::process::mm::without_regions;
use crate::process::scheduler::{
    is_pick, pick_outcome, reap_one, requeued, started, ReapKind, SchedAction,
};
use crate::process::signals::{cont_first, stopped};

verus! {

/// Whether `target` names child `c`: -1 names every child, another number the child with it.
pub open spec fn names(target: i64, c: Pid) -> bool {
    target == -1 || target as u64 == c
}

/// Whether process `p` is ready and will get its turn.
pub open spec fn has_turn(s: KernelView, p: Pid) -> bool {
    s.procs[p].state == ProcState::Ready && s.ready.contains(p)
}

/// No wake-up is lost: a process whose wait found nothing to report, and that still waits, is ready
/// and queued as soon as a child of its that it waits for ends, is stopped, stops itself or
/// resumes. `u` is any later state in which it waits as the call left it.
pub proof fn law_no_lost_wakeup(
    s: KernelView,
    caller: Pid,
    target: i64,
    options: u64,
    t: KernelView,
    u: KernelView,
    child: Pid,
    code: i32,
    sig: u64,
)
    requires
        wait_outcome(s, caller, target, options, t, Wait::Block),
        u.procs.contains_key(caller),
        u.procs[caller].state == t.procs[caller].state,
        u.procs.contains_key(child),
        u.procs[child].parent == Some(caller),
        child != caller,
        !(u.procs[child].state is Zombie),
        names(target, child),
    ensures
        has_turn(terminated(u, child, code), caller),
        has_turn(stopped(u, child, sig), caller),
        has_turn(self_stopped(u, child, sig), caller),
        u.procs[child].state is Stopped ==> has_turn(cont_first(u, child, SIGCONT), caller),
{
    let list = candidates(s, caller, target);
    assert(t.procs[caller].state is Blocked);
    assert(t.procs[caller].state->Blocked_0 is WaitingForChild);
    let a = terminated(u, child, code);
    assert(a.ready[a.ready.len() - 1] == caller);
    let b = stopped(u, child, sig);
    assert(b.ready[b.ready.len() - 1] == caller);
    let c = self_stopped(u, child, sig);
    assert(c.ready[c.ready.len() - 1] == caller);
    if u.procs[child].state is Stopped {
        let d = cont_first(u, child, SIGCONT);
        assert(d.ready[d.ready.len() - 2] == caller);
    }
}

/// A process that waits for one child is not woken by another, nor by a process that is no child
/// of its.
pub proof fn law_others_do_not_wake(u: KernelView, waiter: Pid, only: Pid, p: Pid, code: i32, sig: u64)
    requires
        u.procs.contains_key(waiter),
        u.procs[waiter].state == ProcState::Blocked(BlockReason::WaitingForChild(Some(only))),
        u.procs.contains_key(p),
        p != waiter,
        p != only || u.procs[p].parent != Some(waiter),
    ensures
        terminated(u, p, code).procs[waiter].state == u.procs[waiter].state,
        stopped(u, p, sig).procs[waiter].state == u.procs[waiter].state,
        self_stopped(u, p, sig).procs[waiter].state == u.procs[waiter].state,
        cont_first(u, p, SIGCONT).procs[waiter].state == u.procs[waiter].state,
{
}

/// Ending: a live process is over at once, with this status, out of the queue, with what it had
/// mapped released; one that has ended before keeps its status.
pub proof fn law_ends(s: KernelView, p: Pid, code: i32)
    requires
        s.procs.contains_key(p),
    ensures
        ({
            let t = terminated(s, p, code);
            &&& t.procs.contains_key(p)
            &&& !(s.procs[p].state is Zombie) ==> t.procs[p].state == ProcState::Zombie(code)
                && !t.ready.contains(p)
            &&& s.procs[p].state is Zombie ==> t.procs[p].state == s.procs[p].state
            &&& t.procs[p].mmap_file_regions.len() == 0
            &&& t.procs[p].parent == s.procs[p].parent && t.procs[p].address_space
                == s.procs[p].address_space && t.procs[p].children == s.procs[p].children
            &&& t.exits == s.exits.push(p)
            &&& t.current == s.current && t.next_pid == s.next_pid
            &&& forall|o: Pid|
                #![trigger t.procs[o]]
                o != p && s.procs.contains_key(o) ==> t.procs.contains_key(o) && (t.procs[o]
                    == s.procs[o] || (s.procs[o].state is Blocked && t.procs[o] == (ProcView {
                    state: ProcState::Ready,
                    ..s.procs[o]
                })))
        }),
{
    lemma_without(s.ready, p);
    let t = terminated(s, p, code);
    if !(s.procs[p].state is Zombie) {
        let w = crate::ordmap::without_key(s.ready, p);
        assert(!t.ready.contains(p)) by {
            if t.ready.contains(p) {
                let i = choose|i: int| 0 <= i < t.ready.len() && t.ready[i] == p;
                if i < w.len() {
                    assert(w[i] == p);
                    assert(w.contains(p));
                }
            }
        }
    }
}

// ---------------------------------------------------------------------------------------------
// Waiting
// ---------------------------------------------------------------------------------------------
/// An element of a filtered list comes from the list, and whatever passes before it in the list
/// comes before it in the filtered one.
proof fn lemma_filter_order(s: Seq<Pid>, test: spec_fn(Pid) -> bool, k: int)
    requires
        0 <= k < s.filter(test).len(),
    ensures
        exists|i: int|
            0 <= i < s.len() && s[i] == s.filter(test)[k] && #[trigger] passed_before(
                s,
                test,
                i,
                k,
            ),
    decreases s.len(),
{
    reveal(Seq::filter);
    let t = s.drop_last();
    let f = t.filter(test);
    if k < f.len() {
        lemma_filter_order(t, test, k);
        let i = choose|i: int|
            0 <= i < t.len() && t[i] == f[k] && #[trigger] passed_before(t, test, i, k);
        assert(s[i] == s.filter(test)[k]);
        assert(passed_before(s, test, i, k)) by {
            assert forall|j: int| 0 <= j < i && test(#[trigger] s[j]) implies exists|m: int|
                0 <= m < k && #[trigger] s.filter(test)[m] == s[j] by {
                assert(t[j] == s[j]);
                let m = choose|m: int| 0 <= m < k && #[trigger] f[m] == t[j];
                assert(s.filter(test)[m] == s[j]);
            }
        }
    } else {
        let i = s.len() - 1;
        assert(s.filter(test)[k] == s[i]);
        lemma_filter_passing(t, test);
        assert(passed_before(s, test, i, k)) by {
            assert forall|j: int| 0 <= j < i && test(#[trigger] s[j]) implies exists|m: int|
                0 <= m < k && #[trigger] s.filter(test)[m] == s[j] by {
                assert(t[j] == s[j]);
                assert(t.contains(s[j]));
                assert(f.contains(s[j]));
                let m = choose|m: int| 0 <= m < f.len() && f[m] == s[j];
                assert(s.filter(test)[m] == s[j]);
            }
        }
    }
}

/// Whatever passes before position `i` of a list is before position `k` of the filtered one.
spec fn passed_before(s: Seq<Pid>, test: spec_fn(Pid) -> bool, i: int, k: int) -> bool {
    forall|j: int|
        0 <= j < i && test(#[trigger] s[j]) ==> exists|m: int|
            0 <= m < k && #[trigger] s.filter(test)[m] == s[j]
}

/// A child of `caller` that `target` names.
pub open spec fn named_child(s: KernelView, caller: Pid, target: i64, c: Pid) -> bool {
    s.procs[caller].children.contains(c) && names(target, c)
}

proof fn lemma_candidates(s: KernelView, caller: Pid, target: i64)
    ensures
        forall|c: Pid| #[trigger]
            candidates(s, caller, target).contains(c) <==> named_child(s, caller, target, c),
{
    let kids = s.procs[caller].children;
    let test = awaited(target);
    lemma_filter_passing(kids, test);
    let list = candidates(s, caller, target);
    assert forall|c: Pid| #[trigger] list.contains(c) <==> named_child(s, caller, target, c) by {
        if list.contains(c) {
            let k = choose|k: int| 0 <= k < list.len() && list[k] == c;
            assert(test(list[k]));
            lemma_filter_order(kids, test, k);
        }
        if named_child(s, caller, target, c) {
            assert(test(c));
        }
    }
}

/// The child that is reported is the eldest of those with such a report.
proof fn lemma_eldest(s: KernelView, caller: Pid, target: i64, kind: int, k: int)
    requires
        first_report(s, candidates(s, caller, target), kind, k),
    ensures
        ({
            let kids = s.procs[caller].children;
            let c = candidates(s, caller, target)[k];
            &&& named_child(s, caller, target, c)
            &&& reportable(s, c, kind)
            &&& eldest(s, caller, target, kind, c)
        }),
{
    lemma_candidates(s, caller, target);
    let kids = s.procs[caller].children;
    let test = awaited(target);
    let list = candidates(s, caller, target);
    assert(list.contains(list[k]));
    lemma_filter_order(kids, test, k);
    let i = choose|i: int|
        0 <= i < kids.len() && kids[i] == list[k] && #[trigger] passed_before(kids, test, i, k);
    assert forall|j: int| 0 <= j < i && names(target, #[trigger] kids[j]) implies !reportable(
        s,
        kids[j],
        kind,
    ) by {
        assert(test(kids[j]));
        let m = choose|m: int| 0 <= m < k && #[trigger] list[m] == kids[j];
        assert(!reportable(s, list[m], kind));
    }
}

/// Nobody older than `c` among the children that `target` names has such a report.
pub open spec fn eldest(s: KernelView, caller: Pid, target: i64, kind: int, c: Pid) -> bool {
    let kids = s.procs[caller].children;
    exists|i: int|
        0 <= i < kids.len() && #[trigger] kids[i] == c && forall|j: int|
            0 <= j < i && names(target, #[trigger] kids[j]) ==> !reportable(s, kids[j], kind)
}

/// A child that has ended.
pub open spec fn ended(s: KernelView, c: Pid) -> bool {
    s.procs.contains_key(c) && s.procs[c].state is Zombie
}

proof fn lemma_reports(s: KernelView, list: Seq<Pid>, kind: int)
    ensures
        no_report(s, list, kind) <==> !exists|c: Pid| #[trigger]
            list.contains(c) && reportable(s, c, kind),
{
    if !no_report(s, list, kind) {
        let j = choose|j: int| 0 <= j < list.len() && reportable(s, #[trigger] list[j], kind);
        assert(list.contains(list[j]) && reportable(s, list[j], kind));
    }
    if exists|c: Pid| #[trigger] list.contains(c) && reportable(s, c, kind) {
        let c = choose|c: Pid| #[trigger] list.contains(c) && reportable(s, c, kind);
        let j = choose|j: int| 0 <= j < list.len() && list[j] == c;
        assert(reportable(s, list[j], kind));
    }
}

/// Waiting for nobody fails, and changes nothing.
pub proof fn law_wait_for_nobody(
    s: KernelView,
    caller: Pid,
    target: i64,
    options: u64,
    t: KernelView,
    r: Wait,
)
    requires
        wait_outcome(s, caller, target, options, t, r),
    ensures
        r == Wait::Failed(ECHILD) <==> !exists|c: Pid| #[trigger]
            named_child(s, caller, target, c),
        r == Wait::Failed(ECHILD) ==> t == s,
        r is Failed ==> r == Wait::Failed(ECHILD),
{
    lemma_candidates(s, caller, target);
    let list = candidates(s, caller, target);
    if list.len() > 0 {
        assert(list.contains(list[0]));
        assert(named_child(s, caller, target, list[0]));
    }
    if exists|c: Pid| #[trigger] named_child(s, caller, target, c) {
        let c = choose|c: Pid| #[trigger] named_child(s, caller, target, c);
        assert(list.contains(c));
    }
}

/// An ended child comes before everything else, the eldest first: its status is reported, its
/// memory given back, and it is gone from the table and from its parent's list. Everybody else
/// stays.
pub proof fn law_wait_ended(
    s: KernelView,
    caller: Pid,
    target: i64,
    options: u64,
    t: KernelView,
    r: Wait,
    z: Pid,
)
    requires
        wait_outcome(s, caller, target, options, t, r),
        s.procs.contains_key(caller),
        !(s.procs[caller].state is Zombie),
        named_child(s, caller, target, z),
        ended(s, z),
    ensures
        r is Reported,
        ({
            let c = r->pid;
            &&& named_child(s, caller, target, c) && ended(s, c)
            &&& eldest(s, caller, target, 0, c)
            &&& r->status == s.procs[c].state->Zombie_0
            &&& r->freed == s.procs[c].address_space
            &&& !t.procs.contains_key(c)
            &&& forall|k: Pid| #[trigger]
                t.procs[caller].children.contains(k) <==> s.procs[caller].children.contains(k) && k
                    != c
            &&& t.procs[caller].state == s.procs[caller].state
            &&& t.ready == s.ready && t.current == s.current
            &&& forall|o: Pid| o != c && o != caller ==> (#[trigger] t.procs.contains_key(o)
                == s.procs.contains_key(o)) && (s.procs.contains_key(o) ==> t.procs[o]
                == s.procs[o])
        }),
{
    let list = candidates(s, caller, target);
    lemma_candidates(s, caller, target);
    lemma_reports(s, list, 0);
    assert(list.contains(z) && reportable(s, z, 0));
    let k = choose|i: int| #[trigger]
        first_report(s, list, 0, i) && r == (Wait::Reported {
            pid: list[i],
            status: s.procs[list[i]].state->Zombie_0,
            freed: s.procs[list[i]].address_space,
        }) && t == crate::process::lifecycle::buried(s, caller, list[i]);
    lemma_eldest(s, caller, target, 0, k);
    lemma_without(s.procs[caller].children, list[k]);
}

/// With no ended child a stop that was not reported yet is, the eldest child's first, if the call
/// asks for stops; the child lives on and the stop is not reported again.
pub proof fn law_wait_stopped(
    s: KernelView,
    caller: Pid,
    target: i64,
    options: u64,
    t: KernelView,
    r: Wait,
    z: Pid,
)
    requires
        wait_outcome(s, caller, target, options, t, r),
        s.procs.contains_key(caller),
        named_child(s, caller, target, z),
        forall|c: Pid| #[trigger] named_child(s, caller, target, c) ==> !ended(s, c),
        s.procs.contains_key(z),
        s.procs[z].stop_notify_pending,
        options & WUNTRACED != 0,
    ensures
        r is Reported,
        ({
            let c = r->pid;
            &&& named_child(s, caller, target, c)
            &&& s.procs.contains_key(c) && s.procs[c].stop_notify_pending
            &&& eldest(s, caller, target, 1, c)
            &&& r->status == stop_status(s.procs[c].state->Stopped_0)
            &&& r->freed.is_none()
            &&& t == with_proc(s, c, ProcView { stop_notify_pending: false, ..s.procs[c] })
        }),
{
    let list = candidates(s, caller, target);
    lemma_candidates(s, caller, target);
    lemma_reports(s, list, 0);
    lemma_reports(s, list, 1);
    assert(list.contains(z) && reportable(s, z, 1));
    assert(no_report(s, list, 0)) by {
        if exists|c: Pid| #[trigger] list.contains(c) && reportable(s, c, 0) {
            let c = choose|c: Pid| #[trigger] list.contains(c) && reportable(s, c, 0);
            assert(named_child(s, caller, target, c));
            assert(ended(s, c));
        }
    }
    let k = choose|i: int| #[trigger]
        first_report(s, list, 1, i) && r == (Wait::Reported {
            pid: list[i],
            status: stop_status(s.procs[list[i]].state->Stopped_0),
            freed: None,
        }) && t == crate::process::lifecycle::stop_seen(s, list[i]);
    lemma_eldest(s, caller, target, 1, k);
}

/// With neither an ended child nor a stop to report, a resumption is, if the call asks for those.
pub proof fn law_wait_continued(
    s: KernelView,
    caller: Pid,
    target: i64,
    options: u64,
    t: KernelView,
    r: Wait,
    z: Pid,
)
    requires
        wait_outcome(s, caller, target, options, t, r),
        s.procs.contains_key(caller),
        named_child(s, caller, target, z),
        forall|c: Pid| #[trigger]
            named_child(s, caller, target, c) ==> !ended(s, c) && (options & WUNTRACED == 0 || !(
            s.procs.contains_key(c) && s.procs[c].stop_notify_pending)),
        s.procs.contains_key(z),
        s.procs[z].cont_notify_pending,
        options & WCONTINUED != 0,
    ensures
        r is Reported,
        ({
            let c = r->pid;
            &&& named_child(s, caller, target, c)
            &&& s.procs.contains_key(c) && s.procs[c].cont_notify_pending
            &&& eldest(s, caller, target, 2, c)
            &&& r->status == 0xffff
            &&& r->freed.is_none()
            &&& t == with_proc(s, c, ProcView { cont_notify_pending: false, ..s.procs[c] })
        }),
{
    let list = candidates(s, caller, target);
    lemma_candidates(s, caller, target);
    lemma_reports(s, list, 0);
    lemma_reports(s, list, 1);
    lemma_reports(s, list, 2);
    assert(list.contains(z) && reportable(s, z, 2));
    assert(no_report(s, list, 0)) by {
        if exists|c: Pid| #[trigger] list.contains(c) && reportable(s, c, 0) {
            let c = choose|c: Pid| #[trigger] list.contains(c) && reportable(s, c, 0);
            assert(named_child(s, caller, target, c));
            assert(ended(s, c));
        }
    }
    assert(options & WUNTRACED != 0 ==> no_report(s, list, 1)) by {
        if options & WUNTRACED != 0 && exists|c: Pid| #[trigger]
            list.contains(c) && reportable(s, c, 1) {
            let c = choose|c: Pid| #[trigger] list.contains(c) && reportable(s, c, 1);
            assert(named_child(s, caller, target, c));
        }
    }
    let k = choose|i: int| #[trigger]
        first_report(s, list, 2, i) && r == (Wait::Reported {
            pid: list[i],
            status: 0xffff,
            freed: None,
        }) && t == crate::process::lifecycle::cont_seen(s, list[i]);
    lemma_eldest(s, caller, target, 2, k);
}

/// With nothing to report a call that must not wait says so and changes nothing; any other waits
/// for exactly the children that it names.
pub proof fn law_wait_nothing(
    s: KernelView,
    caller: Pid,
    target: i64,
    options: u64,
    t: KernelView,
    r: Wait,
    z: Pid,
)
    requires
        wait_outcome(s, caller, target, options, t, r),
        s.procs.contains_key(caller),
        named_child(s, caller, target, z),
        forall|c: Pid| #[trigger]
            named_child(s, caller, target, c) ==> !ended(s, c) && (s.procs.contains_key(c) ==> (
            options & WUNTRACED == 0 || !s.procs[c].stop_notify_pending) && (options & WCONTINUED
                == 0 || !s.procs[c].cont_notify_pending)),
    ensures
        options & WNOHANG != 0 ==> r == Wait::Nothing && t == s,
        options & WNOHANG == 0 ==> r == Wait::Block && t == with_proc(
            s,
            caller,
            ProcView {
                state: ProcState::Blocked(
                    BlockReason::WaitingForChild(
                        if target == -1 {
                            None
                        } else {
                            Some(target as u64)
                        },
                    ),
                ),
                ..s.procs[caller]
            },
        ),
        WNOHANG == 1 && WUNTRACED == 2 && WCONTINUED == 8,
{
    let list = candidates(s, caller, target);
    lemma_candidates(s, caller, target);
    assert(list.contains(z));
    lemma_reports(s, list, 0);
    lemma_reports(s, list, 1);
    lemma_reports(s, list, 2);
    assert(no_report(s, list, 0)) by {
        if exists|c: Pid| #[trigger] list.contains(c) && reportable(s, c, 0) {
            let c = choose|c: Pid| #[trigger] list.contains(c) && reportable(s, c, 0);
            assert(named_child(s, caller, target, c));
            assert(ended(s, c));
        }
    }
    assert(options & WUNTRACED != 0 ==> no_report(s, list, 1)) by {
        if options & WUNTRACED != 0 && exists|c: Pid| #[trigger]
            list.contains(c) && reportable(s, c, 1) {
            let c = choose|c: Pid| #[trigger] list.contains(c) && reportable(s, c, 1);
            assert(named_child(s, caller, target, c));
        }
    }
    assert(options & WCONTINUED != 0 ==> no_report(s, list, 2)) by {
        if options & WCONTINUED != 0 && exists|c: Pid| #[trigger]
            list.contains(c) && reportable(s, c, 2) {
            let c = choose|c: Pid| #[trigger] list.contains(c) && reportable(s, c, 2);
            assert(named_child(s, caller, target, c));
        }
    }
}

// ---------------------------------------------------------------------------------------------
// Birth and change
// ---------------------------------------------------------------------------------------------
/// A new process gets the next number, which is not given out again, is last in the queue, and is
/// its parent's youngest child; everybody else is as before.
pub proof fn law_birth(s: KernelView, parent: Option<Pid>, child: ProcView)
    requires
        s.next_pid < u64::MAX,
        !s.procs.contains_key(s.next_pid),
    ensures
        ({
            let t = born(s, parent, child);
            let n = s.next_pid;
            &&& t.procs.contains_key(n) && t.procs[n] == child
            &&& t.next_pid == n + 1
            &&& t.ready == s.ready.push(n)
            &&& t.pids == s.pids.push(n)
            &&& t.current == s.current && t.mem == s.mem
            &&& forall|o: Pid| o != n ==> (#[trigger] t.procs.contains_key(o)
                == s.procs.contains_key(o))
            &&& forall|o: Pid|
                o != n && parent != Some(o) && s.procs.contains_key(o) ==> #[trigger] t.procs[o]
                    == s.procs[o]
            &&& parent matches Some(p) ==> (s.procs.contains_key(p) ==> t.procs[p] == (ProcView {
                children: s.procs[p].children.push(n),
                ..s.procs[p]
            }))
        }),
{
}

/// What a forked child has of its own: its numbers, its memory and kernel stack, and nothing yet
/// pending, armed, mapped, waited for or accounted.
pub proof fn law_fork_fresh(p: ProcView, pid: Pid, space: u64, top: u64, rsp: u64)
    ensures
        ({
            let c = forked(p, pid, space, top, rsp);
            &&& c.pid == pid && c.tgid == pid && c.parent == Some(p.pid)
            &&& c.children.len() == 0
            &&& c.state == ProcState::Ready
            &&& c.address_space == Some(space) && c.kernel_stack_top == top && c.rsp == rsp
            &&& c.pending_signals == 0
            &&& c.rt_queue.len() == 30 && forall|i: int|
                0 <= i < 30 ==> (#[trigger] c.rt_queue[i]).len() == 0
            &&& c.real_timer_deadline.is_none() && c.real_timer_interval_ticks == 0
            &&& c.posix_timers.len() == 8 && forall|i: int|
                0 <= i < 8 ==> (#[trigger] c.posix_timers[i]).is_none()
            &&& !c.stop_notify_pending && !c.cont_notify_pending
            &&& c.sigsuspend_restore_mask.is_none()
            &&& c.sysv_sem_undo.len() == 0 && c.sysv_shm_attach.len() == 0
            &&& c.mmap_file_regions.len() == 0
            &&& c.cpu_ticks == 0 && c.entry_point == 0 && c.user_stack_top == 0 && c.priority == 0
        }),
{
}

/// A process that stops itself is stopped by its signal, and that is there to be told once; what
/// else it has stays.
pub proof fn law_stops_itself(s: KernelView, pid: Pid, sig: u64)
    requires
        s.procs.contains_key(pid),
        s.procs[pid].parent != Some(pid),
    ensures
        self_stopped(s, pid, sig).procs[pid] == (ProcView {
            state: ProcState::Stopped(sig),
            stop_notify_pending: true,
            ..s.procs[pid]
        }),
        forall|o: Pid|
            o != pid && s.procs[pid].parent != Some(o) ==> #[trigger] self_stopped(
                s,
                pid,
                sig,
            ).procs[o] == s.procs[o],
{
}

/// What a forked child has from its parent.
pub proof fn law_fork_copies(p: ProcView, pid: Pid, space: u64, top: u64, rsp: u64)
    ensures
        ({
            let c = forked(p, pid, space, top, rsp);
            &&& c.uid == p.uid && c.gid == p.gid && c.pgid == p.pgid && c.sid == p.sid
            &&& c.sigactions == p.sigactions && c.blocked_signals == p.blocked_signals
            &&& c.signal_stack == p.signal_stack && c.altstack == p.altstack
            &&& c.brk == p.brk && c.fs_base == p.fs_base && c.fpu_state == p.fpu_state
            &&& c.cwd == p.cwd && c.root_inode == p.root_inode && c.umask == p.umask
            &&& c.comm == p.comm && c.cmdline == p.cmdline
            &&& c.rlimits == p.rlimits && c.nice == p.nice && c.sched_policy == p.sched_policy
                && c.sched_priority == p.sched_priority
        }),
{
}

/// What a process that is made from a program starts with.
pub proof fn law_spawned(pid: Pid, parent: Option<Pid>, image: SpawnImage)
    ensures
        ({
            let c = spawned(pid, parent, image);
            &&& c.pid == pid && c.tgid == pid && c.pgid == pid && c.sid == pid && c.parent == parent
            &&& c.state == ProcState::Ready
            &&& c.address_space == Some(image.address_space) && c.entry_point == image.entry
                && c.user_stack_top == image.initial_rsp && c.brk == image.brk
            &&& c.kernel_stack_top == image.kernel_stack_top && c.rsp == image.rsp && c.fpu_state
                == image.fpu_state@
            &&& c.uid == 0 && c.gid == 0 && c.umask == 0o22 && c.nice == 0
            &&& c.children.len() == 0
            &&& c.pending_signals == 0 && c.blocked_signals == 0 && c.signal_stack.len() == 0
            &&& c.sigactions.len() == 65 && forall|i: int|
                0 <= i < 65 ==> (#[trigger] c.sigactions[i]).handler == 0 && c.sigactions[i].flags
                    == 0 && c.sigactions[i].mask == 0 && c.sigactions[i].restorer == 0
            &&& c.altstack.sp == 0 && c.altstack.size == 0 && c.altstack.flags == 2
            &&& c.rt_queue.len() == 30 && forall|i: int|
                0 <= i < 30 ==> (#[trigger] c.rt_queue[i]).len() == 0
            &&& c.posix_timers.len() == 8 && forall|i: int|
                0 <= i < 8 ==> (#[trigger] c.posix_timers[i]).is_none()
            &&& c.fs_base == 0 && c.cwd == 0 && c.root_inode == 0 && c.cpu_ticks == 0 && c.priority
                == 0
            &&& c.sched_policy == 2 && c.sched_priority == 0
            &&& c.sysv_sem_undo.len() == 0 && c.sysv_shm_attach.len() == 0
            &&& c.sigsuspend_restore_mask.is_none() && c.real_timer_interval_ticks == 0
            &&& c.rlimits.len() == 16 && forall|i: int|
                0 <= i < 16 ==> #[trigger] c.rlimits[i] == (u64::MAX, u64::MAX)
            &&& c.mmap_file_regions.len() == 0 && c.real_timer_deadline.is_none()
            &&& !c.stop_notify_pending && !c.cont_notify_pending
        }),
{
}

/// What a new program changes about its process: its memory, where it starts and where its stack
/// and heap stand, its name and arguments; handlers, alternate stack, timers and thread base are
/// gone. Its mappings of files are released.
pub proof fn law_new_program(
    s: KernelView,
    pid: Pid,
    image: ExecImage,
    path: Seq<u8>,
    argv: Seq<Seq<u8>>,
    sig: int,
)
    requires
        s.procs.contains_key(pid),
        s.procs[pid].sigactions.len() == 65,
        0 <= sig < 65,
    ensures
        ({
            let p = s.procs[pid];
            let t = without_regions(with_proc(s, pid, replaced(p, image, path, argv)), pid);
            let q = t.procs[pid];
            &&& q.address_space == Some(image.address_space)
            &&& q.entry_point == image.entry && q.user_stack_top == image.initial_rsp && q.brk
                == image.brk
            &&& q.comm == base_of(path) && q.cmdline == cmdline_of(argv)
            &&& q.fs_base == 0
            &&& q.altstack.sp == 0 && q.altstack.size == 0 && q.altstack.flags == 2
            &&& q.posix_timers.len() == 8 && forall|i: int|
                0 <= i < 8 ==> (#[trigger] q.posix_timers[i]).is_none()
            &&& q.mmap_file_regions.len() == 0
            &&& q.sigactions.len() == 65
            &&& p.sigactions[sig].handler > 1 ==> q.sigactions[sig].handler == 0
                && q.sigactions[sig].flags == 0 && q.sigactions[sig].mask == 0
                && q.sigactions[sig].restorer == 0
            &&& p.sigactions[sig].handler <= 1 ==> q.sigactions[sig] == p.sigactions[sig]
            &&& q.pid == p.pid && q.tgid == p.tgid && q.parent == p.parent && q.children
                == p.children && q.state == p.state
            &&& q.kernel_stack_top == p.kernel_stack_top && q.rsp == p.rsp
            &&& q.uid == p.uid && q.gid == p.gid && q.pgid == p.pgid && q.sid == p.sid
            &&& q.pending_signals == p.pending_signals && q.blocked_signals == p.blocked_signals
                && q.pending_siginfo == p.pending_siginfo && q.rt_queue == p.rt_queue
            &&& q.cwd == p.cwd && q.root_inode == p.root_inode && q.umask == p.umask && q.rlimits
                == p.rlimits && q.nice == p.nice && q.sched_policy == p.sched_policy
                && q.sched_priority == p.sched_priority
            &&& q.real_timer_deadline == p.real_timer_deadline && q.real_timer_interval_ticks
                == p.real_timer_interval_ticks
            &&& t.ready == s.ready && t.current == s.current
            &&& forall|o: Pid| o != pid && s.procs.contains_key(o) ==> #[trigger] t.procs[o]
                == s.procs[o]
        }),
{
}

/// The directories of the running process are what they were last set to.
pub proof fn law_directories(s: KernelView, inode: u64)
    requires
        s.current == 0 || s.procs.contains_key(s.current),
    ensures
        cwd_of(with_cwd(s, inode)) == inode,
        root_of(with_root(s, inode)) == inode,
        root_of(with_cwd(s, inode)) == root_of(s),
        cwd_of(with_root(s, inode)) == cwd_of(s),
        forall|o: Pid|
            o != s.current && s.procs.contains_key(o) ==> #[trigger] with_cwd(s, inode).procs[o]
                == s.procs[o],
{
}

// ---------------------------------------------------------------------------------------------
// Whose turn it is
// ---------------------------------------------------------------------------------------------
/// The priority of a process in the queue.
pub open spec fn rank(s: KernelView, p: Pid) -> int {
    if s.procs.contains_key(p) {
        s.procs[p].sched_priority as int
    } else {
        0
    }
}

/// The processor goes to a process of the highest priority in the queue, to the one of those that
/// has waited longest; it leaves the queue and runs. Nobody gets it exactly where nobody waits.
pub proof fn law_turn(s: KernelView, t: KernelView, action: SchedAction)
    requires
        pick_outcome(s, t, action),
    ensures
        s.ready.len() == 0 ==> action == SchedAction::Idle && t == s,
        s.ready.len() > 0 ==> exists|i: int|
            {
                let p = s.ready[i];
                &&& 0 <= i < s.ready.len()
                &&& forall|j: int|
                    0 <= j < i ==> rank(s, #[trigger] s.ready[j]) < rank(s, s.ready[i])
                &&& forall|j: int|
                    i < j < s.ready.len() ==> rank(s, #[trigger] s.ready[j]) <= rank(s, s.ready[i])
                &&& t.current == p
                &&& t.procs[p] == (ProcView { state: ProcState::Running, ..s.procs[p] })
                &&& #[trigger] s.ready.remove(i) == t.ready
                &&& forall|o: Pid| o != p && s.procs.contains_key(o) ==> #[trigger] t.procs[o]
                    == s.procs[o]
                &&& p == s.current && s.current != 0 ==> action == SchedAction::Continue
                &&& p != s.current || s.current == 0 ==> (action matches SchedAction::Switch(w)
                    && w.to == p && w.from == s.current && w.address_space
                    == s.procs[p].address_space->Some_0 && w.kernel_stack_top
                    == s.procs[p].kernel_stack_top && w.fs_base == s.procs[p].fs_base && w.rsp
                    == s.procs[p].rsp)
            },
{
    if s.ready.len() > 0 {
        let i = choose|i: int| #[trigger]
            is_pick(s, i) && t == crate::process::scheduler::resumed_at(s, i) && action
                == crate::process::scheduler::action_at(s, i);
        let p = s.ready[i];
        assert(s.ready.remove(i) == t.ready);
        assert forall|j: int| 0 <= j < i implies rank(s, #[trigger] s.ready[j]) < rank(
            s,
            s.ready[i],
        ) by {}
        assert forall|j: int| i < j < s.ready.len() implies rank(s, #[trigger] s.ready[j]) <= rank(
            s,
            s.ready[i],
        ) by {}
    }
}

/// A running process that gives up the processor but could go on queues up behind everybody; one
/// that blocked, stopped or ended does not.
pub proof fn law_gives_up(s: KernelView)
    requires
        s.current != 0,
        s.procs.contains_key(s.current),
    ensures
        ({
            let t = requeued(s);
            let p = s.procs[s.current];
            let on = p.state == ProcState::Ready || p.state == ProcState::Running;
            &&& on ==> t.ready == s.ready.push(s.current) && t.procs[s.current] == (ProcView {
                state: ProcState::Ready,
                ..p
            })
            &&& !on ==> t == s
            &&& forall|o: Pid| o != s.current && s.procs.contains_key(o) ==> #[trigger] t.procs[o]
                == s.procs[o]
        }),
{
}

/// The first process to run is running, and out of the queue.
pub proof fn law_first(s: KernelView, p: Pid)
    requires
        s.procs.contains_key(p),
    ensures
        ({
            let t = started(s, p);
            &&& t.current == p && t.procs[p].state == ProcState::Running
            &&& !t.ready.contains(p)
            &&& forall|o: Pid| o != p ==> (#[trigger] t.ready.contains(o) <==> s.ready.contains(o))
        }),
{
    lemma_without(s.ready, p);
}

/// Cleaning up after a process that has ended: one kind takes it out of the table, the other only
/// takes its memory.
pub proof fn law_cleaned_up(s: KernelView, p: Pid)
    requires
        s.procs.contains_key(p),
    ensures
        !reap_one(s, p, ReapKind::RemoveEntry).procs.contains_key(p),
        reap_one(s, p, ReapKind::TeardownOnly).procs[p] == (ProcView {
            address_space: None,
            ..s.procs[p]
        }),
        forall|o: Pid, kind: ReapKind|
            #![trigger reap_one(s, p, kind).procs[o]]
            o != p && s.procs.contains_key(o) ==> reap_one(s, p, kind).procs[o] == s.procs[o],
        crate::process::scheduler::reap_space(s, p) == (match s.procs[p].address_space {
            Some(a) => seq![a],
            None => Seq::empty(),
        }),
{
}

} // verus!

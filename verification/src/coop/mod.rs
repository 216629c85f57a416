//! The cooperative kernel: processes that give up the processor of their own accord, with pipes
//! and a keyboard to wait for.

use std::collections::VecDeque;

use vstd::prelude::*;

use crate::ordmap::{group_map_views, views, OrdMap};

pub mod coop_rules;
pub mod lifecycle;
pub mod memory;
pub mod pipe;
pub mod scheduler;
pub mod stdin;

verus! {

broadcast use group_map_views;

pub type Pid = u64;

/// What a process is at.
#[derive(Clone, Copy, PartialEq, Eq, Debug, Structural)]
pub enum ProcState {
    Ready,
    Running,
    Blocked(BlockReason),
    /// Over, with this code, and not yet waited for.
    Zombie(i32),
}

/// What a process waits for.
#[derive(Clone, Copy, PartialEq, Eq, Debug, Structural)]
pub enum BlockReason {
    /// The end of a child: of this one, or of any.
    WaitingForChild(Option<Pid>),
    /// Bytes in this pipe, or its end.
    WaitingForPipeData(u64),
    /// A byte from the keyboard.
    WaitingForStdin,
}

/// One process.
pub struct Process {
    pub pid: Pid,
    pub parent: Option<Pid>,
    pub children: Vec<Pid>,
    pub state: ProcState,
    pub address_space: u64,
    pub kernel_stack_top: u64,
    /// Where its kernel stack stood when it was left.
    pub rsp: u64,
    pub entry_point: u64,
    /// Where its user stack stands when it starts.
    pub user_stack_top: u64,
    /// The end of its heap.
    pub brk: u64,
    pub fs_base: u64,
    pub priority: u8,
}

/// One process, as a value.
pub struct ProcView {
    pub pid: Pid,
    pub parent: Option<Pid>,
    pub children: Seq<Pid>,
    pub state: ProcState,
    pub address_space: u64,
    pub kernel_stack_top: u64,
    pub rsp: u64,
    pub entry_point: u64,
    pub user_stack_top: u64,
    pub brk: u64,
    pub fs_base: u64,
    pub priority: u8,
}

impl View for Process {
    type V = ProcView;

    open spec fn view(&self) -> ProcView {
        ProcView {
            pid: self.pid,
            parent: self.parent,
            children: self.children@,
            state: self.state,
            address_space: self.address_space,
            kernel_stack_top: self.kernel_stack_top,
            rsp: self.rsp,
            entry_point: self.entry_point,
            user_stack_top: self.user_stack_top,
            brk: self.brk,
            fs_base: self.fs_base,
            priority: self.priority,
        }
    }
}

/// The processes, the queue of those that can run, who runs (zero at boot), the next pid, and
/// where the next mapping goes.
pub struct Coop {
    pub procs: OrdMap<Process>,
    pub ready: VecDeque<Pid>,
    pub current: Pid,
    pub next_pid: Pid,
    pub next_mmap: u64,
}

/// The kernel, as a value.
pub struct CoopView {
    pub procs: Map<Pid, ProcView>,
    pub pids: Seq<Pid>,
    pub ready: Seq<Pid>,
    pub current: Pid,
    pub next_pid: Pid,
    pub next_mmap: u64,
}

impl View for Coop {
    type V = CoopView;

    open spec fn view(&self) -> CoopView {
        CoopView {
            procs: views(self.procs@),
            pids: self.procs.order(),
            ready: self.ready@,
            current: self.current,
            next_pid: self.next_pid,
            next_mmap: self.next_mmap,
        }
    }
}

/// The first address for mappings.
pub const MMAP_REGION_BASE: u64 = 0x2000_0000_0000;

/// The end of the addresses for mappings.
pub const MMAP_REGION_CEILING: u64 = 0x3000_0000_0000;

/// Whether a process can run.
pub open spec fn can_run(state: ProcState) -> bool {
    state == ProcState::Ready || state == ProcState::Running
}

/// Whether `pid` is the process that runs.
pub open spec fn runs(s: CoopView, pid: Pid) -> bool {
    s.current == pid && s.procs.contains_key(pid) && s.procs[pid].state == ProcState::Running
}

/// Every process is filed under its own pid, and none was handed out early.
pub open spec fn procs_ok(procs: Map<Pid, ProcView>, next_pid: Pid) -> bool {
    forall|pid: Pid|
        #![trigger procs.contains_key(pid)]
        #![trigger procs[pid]]
        procs.contains_key(pid) ==> procs[pid].pid == pid && 1 <= pid < next_pid
}

/// The queue holds processes that can run, each once, and not the one that runs.
pub open spec fn queue_ok(s: CoopView) -> bool {
    &&& s.ready.no_duplicates()
    &&& forall|i: int|
        0 <= i < s.ready.len() ==> {
            let pid = #[trigger] s.ready[i];
            &&& s.procs.contains_key(pid)
            &&& can_run(s.procs[pid].state)
            &&& pid == s.current ==> s.procs[pid].state == ProcState::Ready
        }
}

/// The kernel is consistent.
pub open spec fn coop_ok(s: CoopView) -> bool {
    &&& procs_ok(s.procs, s.next_pid)
    &&& queue_ok(s)
    &&& s.next_pid >= 1
    &&& MMAP_REGION_BASE <= s.next_mmap <= MMAP_REGION_CEILING
    &&& s.next_mmap % 4096 == 0
}

impl Coop {
    /// The table is well formed and its contents consistent.
    pub open spec fn wf(&self) -> bool {
        self.procs.wf() && coop_ok(self@)
    }

    /// No process.
    pub fn new() -> (r: Self)
        ensures
            r.wf(),
            r@.procs == Map::<Pid, ProcView>::empty(),
            r@.ready == Seq::<Pid>::empty(),
            r@.pids == Seq::<Pid>::empty(),
            r@.current == 0,
            r@.next_pid == 1,
            r@.next_mmap == MMAP_REGION_BASE,
    {
        Coop {
            procs: OrdMap::new(),
            ready: VecDeque::new(),
            current: 0,
            next_pid: 1,
            next_mmap: MMAP_REGION_BASE,
        }
    }
}

/// The kernel with another value of process `pid`.
pub open spec fn with_proc(s: CoopView, pid: Pid, p: ProcView) -> CoopView {
    CoopView { procs: s.procs.insert(pid, p), ..s }
}

/// The kernel with process `pid` in another state.
pub open spec fn with_state(s: CoopView, pid: Pid, state: ProcState) -> CoopView {
    with_proc(s, pid, ProcView { state, ..s.procs[pid] })
}

/// The kernel with process `pid` woken up.
pub open spec fn woken(s: CoopView, pid: Pid) -> CoopView {
    CoopView { ready: s.ready.push(pid), ..with_state(s, pid, ProcState::Ready) }
}

/// Waking a process that waits keeps the kernel consistent.
pub proof fn lemma_woken(s: CoopView, pid: Pid)
    requires
        coop_ok(s),
        s.procs.contains_key(pid),
        s.procs[pid].state is Blocked,
    ensures
        coop_ok(woken(s, pid)),
{
    let t = woken(s, pid);
    assert(!s.ready.contains(pid)) by {
        if s.ready.contains(pid) {
            let i = s.ready.index_of(pid);
            assert(s.ready[i] == pid);
        }
    }
    assert forall|i: int, j: int| 0 <= i < t.ready.len() && 0 <= j < t.ready.len() && i != j implies t.ready[i]
        != t.ready[j] by {
        if i < s.ready.len() && j < s.ready.len() {
            assert(s.ready[i] != s.ready[j]);
        } else if i < s.ready.len() {
            assert(s.ready.contains(s.ready[i]));
        } else {
            assert(s.ready.contains(s.ready[j]));
        }
    }
    assert forall|i: int| 0 <= i < t.ready.len() implies {
        let q = #[trigger] t.ready[i];
        &&& t.procs.contains_key(q)
        &&& can_run(t.procs[q].state)
        &&& q == t.current ==> t.procs[q].state == ProcState::Ready
    } by {
        if i < s.ready.len() {
            assert(t.ready[i] == s.ready[i]);
        }
    }
    assert forall|q: Pid| #[trigger] t.procs.contains_key(q) implies t.procs[q].pid == q && 1 <= q
        < t.next_pid by {
        assert(s.procs.contains_key(q));
    }
}

/// Changing the process that runs, but not its pid, and its state only to one that it cannot run
/// in or keeps, keeps the kernel consistent.
pub proof fn lemma_runner_changed(s: CoopView, pid: Pid, p: ProcView)
    requires
        coop_ok(s),
        runs(s, pid),
        p.pid == pid,
    ensures
        coop_ok(with_proc(s, pid, p)),
{
    let t = with_proc(s, pid, p);
    assert forall|i: int| 0 <= i < t.ready.len() implies {
        let q = #[trigger] t.ready[i];
        &&& t.procs.contains_key(q)
        &&& can_run(t.procs[q].state)
        &&& q == t.current ==> t.procs[q].state == ProcState::Ready
    } by {
        assert(t.ready[i] == s.ready[i]);
    }
    assert forall|q: Pid| #[trigger] t.procs.contains_key(q) implies t.procs[q].pid == q && 1 <= q
        < t.next_pid by {
        assert(s.procs.contains_key(q));
    }
}

/// Blocks the process that runs.
pub fn block(k: &mut Coop, pid: Pid, reason: BlockReason)
    requires
        old(k).wf(),
        runs(old(k)@, pid),
    ensures
        final(k).wf(),
        final(k)@ == with_state(old(k)@, pid, ProcState::Blocked(reason)),
{
    let ghost s = k@;
    proof {
        lemma_runner_changed(
            s,
            pid,
            ProcView { state: ProcState::Blocked(reason), ..s.procs[pid] },
        );
    }
    if let Some(p) = k.procs.get_mut(pid) {
        p.state = ProcState::Blocked(reason);
    }
    assert(k@ == with_state(s, pid, ProcState::Blocked(reason)));
}

/// Whether a process waits for `reason`.
pub open spec fn waits(s: CoopView, reason: BlockReason) -> spec_fn(Pid) -> bool {
    |pid: Pid| s.procs.contains_key(pid) && s.procs[pid].state == ProcState::Blocked(reason)
}

/// The kernel with the processes of `list` woken up in turn.
pub open spec fn all_woken(s: CoopView, list: Seq<Pid>) -> CoopView
    decreases list.len(),
{
    if list.len() == 0 {
        s
    } else {
        woken(all_woken(s, list.drop_last()), list.last())
    }
}

/// The kernel with everybody woken up who waits for `reason`, in the order of their pids.
pub open spec fn roused(s: CoopView, reason: BlockReason) -> CoopView {
    all_woken(s, s.pids.filter(waits(s, reason)))
}

/// Waking leaves alone whoever is not on the list, and the order of the table.
pub proof fn lemma_all_woken(s: CoopView, list: Seq<Pid>)
    requires
        forall|i: int| 0 <= i < list.len() ==> s.procs.contains_key(#[trigger] list[i]),
    ensures
        all_woken(s, list).procs.dom() == s.procs.dom(),
        all_woken(s, list).pids == s.pids,
        all_woken(s, list).current == s.current,
        all_woken(s, list).next_pid == s.next_pid,
        all_woken(s, list).next_mmap == s.next_mmap,
        all_woken(s, list).ready == s.ready + list,
        forall|pid: Pid|
            !list.contains(pid) ==> #[trigger] all_woken(s, list).procs[pid] == s.procs[pid],
        forall|pid: Pid|
            list.contains(pid) ==> #[trigger] all_woken(s, list).procs[pid] == (ProcView {
                state: ProcState::Ready,
                ..s.procs[pid]
            }),
    decreases list.len(),
{
    if list.len() > 0 {
        let t = list.drop_last();
        assert forall|i: int| 0 <= i < t.len() implies s.procs.contains_key(#[trigger] t[i]) by {
            assert(t[i] == list[i]);
        }
        lemma_all_woken(s, t);
        let a = all_woken(s, t);
        let last = list.last();
        assert(list[list.len() - 1] == last);
        assert(s.procs.contains_key(last));
        assert(a.procs.contains_key(last));
        assert(all_woken(s, list).procs.dom() =~= s.procs.dom());
        assert(all_woken(s, list).ready =~= s.ready + list);
        assert forall|pid: Pid| !list.contains(pid) implies #[trigger] all_woken(
            s,
            list,
        ).procs[pid] == s.procs[pid] by {
            assert(pid != last) by {
                assert(list.contains(last));
            }
            assert(!t.contains(pid)) by {
                if t.contains(pid) {
                    let i = t.index_of(pid);
                    assert(list[i] == pid);
                }
            }
        }
        assert forall|pid: Pid| list.contains(pid) implies #[trigger] all_woken(s, list).procs[pid]
            == (ProcView { state: ProcState::Ready, ..s.procs[pid] }) by {
            if pid != last {
                let i = list.index_of(pid);
                assert(t[i] == pid);
                assert(t.contains(pid));
            } else if t.contains(last) {
            }
        }
    } else {
        assert(all_woken(s, list).ready =~= s.ready + list);
    }
}

/// Wakes everybody up who waits for `reason`.
pub fn rouse(k: &mut Coop, reason: BlockReason)
    requires
        old(k).wf(),
    ensures
        final(k).wf(),
        final(k)@ == roused(old(k)@, reason),
{
    let ghost s = k@;
    let ghost order = s.pids;
    let ghost test = waits(s, reason);
    let mut i: usize = 0;
    proof {
        k.procs.lemma_order();
        reveal(Seq::filter);
        assert(order.take(0).filter(test) =~= Seq::<Pid>::empty());
    }
    while i < k.procs.len()
        invariant
            k.wf(),
            i <= order.len(),
            order == s.pids,
            test == waits(s, reason),
            k.procs.order() == order,
            k@ == all_woken(s, order.take(i as int).filter(test)),
            forall|j: int| 0 <= j < order.len() ==> s.procs.contains_key(#[trigger] order[j]),
            forall|j: int, l: int| 0 <= j < l < order.len() ==> order[j] < order[l],
        decreases order.len() - i,
    {
        let pid: Pid = k.procs.key_at(i);
        let ghost done = order.take(i as int).filter(test);
        let ghost a = k@;
        proof {
            lemma_filtered(order.take(i as int), test);
            assert forall|j: int| 0 <= j < done.len() implies s.procs.contains_key(
                #[trigger] done[j],
            ) by {
                assert(done.contains(done[j]));
                assert(order.take(i as int).contains(done[j]));
                let l = order.take(i as int).index_of(done[j]);
                assert(order[l] == done[j]);
            }
            lemma_all_woken(s, done);
            assert(!done.contains(pid)) by {
                if done.contains(pid) {
                    assert(order.take(i as int).contains(pid));
                    let l = order.take(i as int).index_of(pid);
                    assert(order[l] == order[i as int]);
                }
            }
            assert(a.procs[pid] == s.procs[pid]);
            reveal(Seq::filter);
            assert(order.take(i + 1).drop_last() =~= order.take(i as int));
            assert(order.take(i + 1).last() == pid);
        }
        let mut wake = false;
        if let Some(p) = k.procs.get(pid) {
            if p.state == ProcState::Blocked(reason) {
                wake = true;
            }
        }
        assert(wake == test(pid));
        if wake {
            proof {
                lemma_woken(a, pid);
            }
            if let Some(p) = k.procs.get_mut(pid) {
                p.state = ProcState::Ready;
            }
            k.ready.push_back(pid);
            assert(k@ == woken(a, pid));
            assert(done.push(pid).drop_last() =~= done);
            assert(k@ == all_woken(s, done.push(pid)));
        }
        i += 1;
    }
    assert(order.take(i as int) =~= order);
}

/// What a filter leaves was there and passes.
pub proof fn lemma_filtered(s: Seq<Pid>, test: spec_fn(Pid) -> bool)
    ensures
        forall|p: Pid| #[trigger] s.filter(test).contains(p) <==> s.contains(p) && test(p),
    decreases s.len(),
{
    reveal(Seq::filter);
    if s.len() > 0 {
        let t = s.drop_last();
        lemma_filtered(t, test);
        assert forall|p: Pid| #[trigger] s.filter(test).contains(p) <==> s.contains(p) && test(p) by {
            assert(s =~= t.push(s.last()));
            if s.contains(p) {
                let i = s.index_of(p);
                if i < t.len() {
                    assert(t[i] == p);
                    assert(t.contains(p));
                    if test(p) {
                        assert(t.filter(test).contains(p));
                        let j = t.filter(test).index_of(p);
                        assert(s.filter(test)[j] == p);
                    }
                } else if test(p) {
                    assert(s.filter(test).last() == p);
                }
            }
            if s.filter(test).contains(p) {
                let j = s.filter(test).index_of(p);
                if j < t.filter(test).len() {
                    assert(t.filter(test)[j] == p);
                    assert(t.filter(test).contains(p));
                    let i = t.index_of(p);
                    assert(s[i] == p);
                } else {
                    assert(p == s.last());
                    assert(s[s.len() - 1] == p);
                }
            }
        }
    }
}

} // verus!

//! How processes come, change and go.

use vstd::prelude::*;

use crate::bytes::copy_range;
use crate::coop::scheduler::{lemma_pushed, picked, requeued};
use crate::coop::{
    block, can_run, coop_ok, lemma_runner_changed, lemma_woken, runs, with_proc, with_state, woken,
    BlockReason, Coop, CoopView, Pid, ProcState, ProcView, Process,
};
use crate::errno::{ECHILD, ENOEXEC};
use crate::exec::strings;
use crate::ordmap::{group_map_views, without_key};
use crate::process::laws::lemma_without;
use crate::process::lifecycle::{ElfError, ExecError, ExecImage, SpawnError};

verus! {

broadcast use group_map_views;

// ---------------------------------------------------------------------------------------------
// Birth
// ---------------------------------------------------------------------------------------------
/// A loaded program with a stack for the kernel side of its process.
#[derive(Clone, Copy, PartialEq, Eq, Structural, Debug)]
pub struct ProgramImage {
    pub address_space: u64,
    pub entry: u64,
    pub initial_rsp: u64,
    /// The end of what was loaded.
    pub brk: u64,
    pub kernel_stack_top: u64,
    pub rsp: u64,
}

/// The kernel with a new process, which is a child of `parent` and can run.
pub open spec fn born(s: CoopView, parent: Option<Pid>, child: ProcView) -> CoopView {
    let pid = s.next_pid;
    let procs = match parent {
        Some(p) => if s.procs.contains_key(p) {
            s.procs.insert(
                p,
                ProcView { children: s.procs[p].children.push(pid), ..s.procs[p] },
            )
        } else {
            s.procs
        },
        None => s.procs,
    };
    CoopView {
        procs: procs.insert(pid, child),
        pids: s.pids.push(pid),
        ready: s.ready.push(pid),
        next_pid: (pid + 1) as Pid,
        ..s
    }
}

fn enrol(k: &mut Coop, parent: Option<Pid>, child: Process)
    requires
        old(k).wf(),
        old(k)@.next_pid < u64::MAX,
        child.pid == old(k)@.next_pid,
        child.state == ProcState::Ready,
    ensures
        final(k).wf(),
        final(k)@ == born(old(k)@, parent, child@),
{
    let ghost s = k@;
    let ghost c = child@;
    let pid: Pid = child.pid;
    proof {
        k.procs.lemma_order();
        assert forall|i: int| 0 <= i < s.pids.len() implies s.pids[i] < pid by {
            assert(s.procs.contains_key(s.pids[i]));
        }
    }
    if let Some(parent_pid) = parent {
        if let Some(p) = k.procs.get_mut(parent_pid) {
            p.children.push(pid);
        }
    }
    let ghost mid = k@;
    assert(mid.pids == s.pids);
    k.procs.insert(pid, child);
    k.next_pid = k.next_pid + 1;
    k.ready.push_back(pid);
    proof {
        let t = k@;
        assert(t.procs =~= born(s, parent, c).procs);
        assert(t.pids =~= born(s, parent, c).pids);
        assert(t == born(s, parent, c));
        assert(!s.ready.contains(pid)) by {
            if s.ready.contains(pid) {
                let i = s.ready.index_of(pid);
                assert(s.procs.contains_key(s.ready[i]));
            }
        }
        lemma_pushed(s.ready, pid);
        assert forall|i: int| 0 <= i < t.ready.len() implies {
            let q = #[trigger] t.ready[i];
            &&& t.procs.contains_key(q)
            &&& can_run(t.procs[q].state)
            &&& q == t.current ==> t.procs[q].state == ProcState::Ready
        } by {
            if i < s.ready.len() {
                assert(t.ready[i] == s.ready[i]);
                assert(s.procs.contains_key(s.ready[i]));
            }
        }
        assert forall|q: Pid| #[trigger] t.procs.contains_key(q) implies t.procs[q].pid == q && 1
            <= q < t.next_pid by {
            assert(q == pid || s.procs.contains_key(q));
        }
    }
}

/// A process that was just made from a program.
pub open spec fn spawned(pid: Pid, parent: Option<Pid>, image: ProgramImage) -> ProcView {
    ProcView {
        pid,
        parent,
        children: Seq::empty(),
        state: ProcState::Ready,
        address_space: image.address_space,
        kernel_stack_top: image.kernel_stack_top,
        rsp: image.rsp,
        entry_point: image.entry,
        user_stack_top: image.initial_rsp,
        brk: image.brk,
        fs_base: 0,
        priority: 0,
    }
}

/// Makes a process from a program that was loaded, or could not be.
pub fn spawn(k: &mut Coop, image: Result<ProgramImage, ElfError>, parent: Option<Pid>) -> (r: Result<
    Pid,
    SpawnError,
>)
    requires
        old(k).wf(),
        old(k)@.next_pid < u64::MAX,
    ensures
        final(k).wf(),
        match image {
            Err(e) => r == Err::<Pid, SpawnError>(SpawnError::Elf(e)) && final(k)@ == old(k)@,
            Ok(i) => {
                &&& r == Ok::<Pid, SpawnError>(old(k)@.next_pid)
                &&& final(k)@ == born(old(k)@, parent, spawned(old(k)@.next_pid, parent, i))
            },
        },
{
    let image: ProgramImage = match image {
        Ok(i) => i,
        Err(e) => {
            return Err(SpawnError::Elf(e));
        },
    };
    let pid: Pid = k.next_pid;
    let child = Process {
        pid,
        parent,
        children: Vec::new(),
        state: ProcState::Ready,
        address_space: image.address_space,
        kernel_stack_top: image.kernel_stack_top,
        rsp: image.rsp,
        entry_point: image.entry,
        user_stack_top: image.initial_rsp,
        brk: image.brk,
        fs_base: 0,
        priority: 0,
    };
    assert(child@ == spawned(pid, parent, image));
    enrol(k, parent, child);
    Ok(pid)
}

/// The child that a process splits off: a copy of its memory, the same heap end and thread base,
/// and nothing to start from, since it goes on where its parent is.
pub open spec fn forked(
    s: CoopView,
    parent: Pid,
    address_space: u64,
    kernel_stack_top: u64,
    rsp: u64,
) -> ProcView {
    ProcView {
        pid: s.next_pid,
        parent: Some(parent),
        children: Seq::empty(),
        state: ProcState::Ready,
        address_space,
        kernel_stack_top,
        rsp,
        entry_point: 0,
        user_stack_top: 0,
        brk: s.procs[parent].brk,
        fs_base: s.procs[parent].fs_base,
        priority: 0,
    }
}

/// Splits a child off the process that runs, with a copy of its memory that was made and a kernel
/// stack that was prepared.
pub fn do_fork_from_current(k: &mut Coop, address_space: u64, kernel_stack_top: u64, rsp: u64) -> (r:
    Result<u64, u64>)
    requires
        old(k).wf(),
        old(k)@.next_pid < u64::MAX,
        old(k)@.procs.contains_key(old(k)@.current),
    ensures
        final(k).wf(),
        r == Ok::<u64, u64>(old(k)@.next_pid),
        ({
            let s = old(k)@;
            final(k)@ == born(
                s,
                Some(s.current),
                forked(s, s.current, address_space, kernel_stack_top, rsp),
            )
        }),
{
    let ghost s = k@;
    let caller: Pid = k.current;
    let mut brk: u64 = 0;
    let mut fs_base: u64 = 0;
    if let Some(p) = k.procs.get(caller) {
        brk = p.brk;
        fs_base = p.fs_base;
    }
    let pid: Pid = k.next_pid;
    let child = Process {
        pid,
        parent: Some(caller),
        children: Vec::new(),
        state: ProcState::Ready,
        address_space,
        kernel_stack_top,
        rsp,
        entry_point: 0,
        user_stack_top: 0,
        brk,
        fs_base,
        priority: 0,
    };
    assert(child@ == forked(s, caller, address_space, kernel_stack_top, rsp));
    enrol(k, Some(caller), child);
    Ok(pid)
}

// ---------------------------------------------------------------------------------------------
// Another program
// ---------------------------------------------------------------------------------------------
/// The arguments that a program starts with: its path, then those given.
pub fn exec_argv(path: &[u8], extra: &Vec<Vec<u8>>) -> (r: Vec<Vec<u8>>)
    ensures
        strings(r@) == seq![path@] + strings(extra@),
{
    let mut argv: Vec<Vec<u8>> = Vec::new();
    let first = copy_range(path, 0, path.len());
    assert(first@ =~= path@);
    argv.push(first);
    let mut i: usize = 0;
    let ghost all = strings(extra@);
    assert(strings(argv@) =~= seq![path@] + all.take(0));
    while i < extra.len()
        invariant
            i <= extra@.len(),
            all == strings(extra@),
            strings(argv@) == seq![path@] + all.take(i as int),
        decreases extra@.len() - i,
    {
        let ghost before = argv@;
        let next = copy_range(extra[i].as_slice(), 0, extra[i].len());
        assert(next@ =~= extra@[i as int]@);
        argv.push(next);
        assert(strings(argv@) =~= strings(before).push(all[i as int]));
        assert(all.take(i + 1) =~= all.take(i as int).push(all[i as int]));
        i += 1;
        assert(strings(argv@) =~= seq![path@] + all.take(i as int));
    }
    assert(all.take(i as int) =~= all);
    argv
}

/// A process in which another program takes over.
pub open spec fn replaced(p: ProcView, image: ExecImage) -> ProcView {
    ProcView {
        address_space: image.address_space,
        user_stack_top: image.initial_rsp,
        entry_point: image.entry,
        brk: image.brk,
        fs_base: 0,
        ..p
    }
}

/// Lets another program take over in the process that runs. Where it could not be loaded, nothing
/// changes.
pub fn do_execve(k: &mut Coop, caller_pid: Pid, image: Result<ExecImage, ExecError>) -> (r: Result<
    u64,
    u64,
>)
    requires
        old(k).wf(),
        runs(old(k)@, caller_pid),
    ensures
        final(k).wf(),
        match image {
            Ok(i) => {
                &&& r == Ok::<u64, u64>(0)
                &&& final(k)@ == with_proc(
                    old(k)@,
                    caller_pid,
                    replaced(old(k)@.procs[caller_pid], i),
                )
            },
            Err(ExecError::File(e)) => r == Err::<u64, u64>(e) && final(k)@ == old(k)@,
            Err(ExecError::Program(_)) => r == Err::<u64, u64>(ENOEXEC) && final(k)@ == old(k)@,
        },
{
    let ghost s = k@;
    match image {
        Err(ExecError::File(e)) => Err(e),
        Err(ExecError::Program(_)) => Err(ENOEXEC),
        Ok(i) => {
            proof {
                lemma_runner_changed(s, caller_pid, replaced(s.procs[caller_pid], i));
            }
            if let Some(me) = k.procs.get_mut(caller_pid) {
                me.address_space = i.address_space;
                me.user_stack_top = i.initial_rsp;
                me.entry_point = i.entry;
                me.brk = i.brk;
                me.fs_base = 0;
            }
            assert(k@ == with_proc(s, caller_pid, replaced(s.procs[caller_pid], i)));
            Ok(0)
        },
    }
}

/// Where the process that runs starts for the first time: its entry point and its stack.
pub fn first_entry(k: &Coop) -> (r: (u64, u64))
    requires
        k.wf(),
        k@.procs.contains_key(k@.current),
    ensures
        r.0 == k@.procs[k@.current].entry_point,
        r.1 == k@.procs[k@.current].user_stack_top,
{
    match k.procs.get(k.current) {
        Some(p) => (p.entry_point, p.user_stack_top),
        None => (0, 0),
    }
}

// ---------------------------------------------------------------------------------------------
// Death
// ---------------------------------------------------------------------------------------------
/// Whether a process in this state waits for the end of `child`.
pub open spec fn waits_for(state: ProcState, child: Pid) -> bool {
    state == ProcState::Blocked(BlockReason::WaitingForChild(None)) || state == ProcState::Blocked(
        BlockReason::WaitingForChild(Some(child)),
    )
}

/// The kernel after process `pid` ended: its parent is woken where it waits for that.
pub open spec fn exited(s: CoopView, pid: Pid, code: i32) -> CoopView {
    let t = with_state(s, pid, ProcState::Zombie(code));
    match s.procs[pid].parent {
        Some(p) => if t.procs.contains_key(p) && waits_for(t.procs[p].state, pid) {
            woken(t, p)
        } else {
            t
        },
        None => t,
    }
}

/// Ends the process that runs. The caller goes on to `schedule`, which does not come back to it.
pub fn do_exit(k: &mut Coop, caller_pid: Pid, code: i32)
    requires
        old(k).wf(),
        runs(old(k)@, caller_pid),
    ensures
        final(k).wf(),
        final(k)@ == exited(old(k)@, caller_pid, code),
{
    let ghost s = k@;
    proof {
        lemma_runner_changed(
            s,
            caller_pid,
            ProcView { state: ProcState::Zombie(code), ..s.procs[caller_pid] },
        );
    }
    let mut parent: Option<Pid> = None;
    if let Some(me) = k.procs.get_mut(caller_pid) {
        me.state = ProcState::Zombie(code);
        parent = me.parent;
    }
    let ghost t = k@;
    assert(t == with_state(s, caller_pid, ProcState::Zombie(code)));
    if let Some(parent_pid) = parent {
        let mut wake = false;
        if let Some(p) = k.procs.get(parent_pid) {
            wake = match p.state {
                ProcState::Blocked(BlockReason::WaitingForChild(target)) => match target {
                    None => true,
                    Some(t) => t == caller_pid,
                },
                _ => false,
            };
        }
        if wake {
            proof {
                lemma_woken(t, parent_pid);
            }
            if let Some(p) = k.procs.get_mut(parent_pid) {
                p.state = ProcState::Ready;
            }
            k.ready.push_back(parent_pid);
            assert(k@ == woken(t, parent_pid));
        }
    }
}

/// Whether a wait for `target` is for process `pid`: -1 stands for any.
pub open spec fn is_target(target: i64, pid: Pid) -> bool {
    target == -1 || (target >= 0 && target == pid) || (target < -1 && target + 0x1_0000_0000_0000_0000
        == pid)
}

/// Whether process `pid` is over and not yet waited for.
pub open spec fn is_zombie(s: CoopView, pid: Pid) -> bool {
    s.procs.contains_key(pid) && s.procs[pid].state is Zombie
}

/// Whether child number `i` is the first that a wait for `target` finds over.
pub open spec fn first_over(s: CoopView, children: Seq<Pid>, target: i64, i: int) -> bool {
    &&& 0 <= i < children.len()
    &&& is_target(target, children[i])
    &&& is_zombie(s, children[i])
    &&& forall|j: int|
        0 <= j < i ==> !(is_target(target, #[trigger] children[j]) && is_zombie(s, children[j]))
}

/// Whether a wait for `target` finds no child over.
pub open spec fn none_over(s: CoopView, children: Seq<Pid>, target: i64) -> bool {
    forall|j: int|
        0 <= j < children.len() ==> !(is_target(target, #[trigger] children[j]) && is_zombie(
            s,
            children[j],
        ))
}

/// Whether a wait for `target` is for any of the children.
pub open spec fn any_target(children: Seq<Pid>, target: i64) -> bool {
    exists|j: int| 0 <= j < children.len() && is_target(target, #[trigger] children[j])
}

/// The kernel after `caller` was told of the end of `child`.
pub open spec fn buried(s: CoopView, caller: Pid, child: Pid) -> CoopView {
    let procs = s.procs.remove(child);
    CoopView {
        procs: procs.insert(
            caller,
            ProcView {
                children: without_key(s.procs[caller].children, child),
                ..s.procs[caller]
            },
        ),
        pids: without_key(s.pids, child),
        ..s
    }
}

/// What a wait comes to.
#[derive(Clone, Copy, PartialEq, Eq, Structural, Debug)]
pub enum WaitStep {
    Failed(u64),
    /// This child ended with this code.
    Reaped { pid: Pid, code: i32 },
    /// The caller now waits: `schedule`, and try again when it is back.
    Block,
}

/// The child that a wait is for, where it is for one.
pub open spec fn target_pid(target: i64) -> Option<Pid> {
    if target == -1 {
        None
    } else if target >= 0 {
        Some(target as Pid)
    } else {
        Some((target + 0x1_0000_0000_0000_0000) as Pid)
    }
}

fn pid_of(target: i64) -> (r: Option<Pid>)
    ensures
        r == target_pid(target),
{
    if target == -1 {
        None
    } else if target >= 0 {
        Some(target as u64)
    } else {
        Some((target as i128 + 0x1_0000_0000_0000_0000) as u64)
    }
}

/// Whether the kernel after a wait, and what it came to, are what they should be.
pub open spec fn wait_outcome(s: CoopView, t: CoopView, caller: Pid, target: i64, r: WaitStep) -> bool {
    let children = s.procs[caller].children;
    if !any_target(children, target) {
        r == WaitStep::Failed(ECHILD) && t == s
    } else if none_over(s, children, target) {
        &&& r == WaitStep::Block
        &&& t == with_state(
            s,
            caller,
            ProcState::Blocked(BlockReason::WaitingForChild(target_pid(target))),
        )
    } else {
        exists|i: int|
            {
                &&& #[trigger] first_over(s, children, target, i)
                &&& r == (WaitStep::Reaped {
                    pid: children[i],
                    code: s.procs[children[i]].state->Zombie_0,
                })
                &&& t == buried(s, caller, children[i])
            }
    }
}

fn without(list: &Vec<Pid>, pid: Pid) -> (r: Vec<Pid>)
    ensures
        r@ == without_key(list@, pid),
{
    let mut out: Vec<Pid> = Vec::new();
    let mut i: usize = 0;
    let ghost all = list@;
    proof {
        reveal(Seq::filter);
        assert(without_key(all.take(0), pid) =~= Seq::<Pid>::empty());
    }
    while i < list.len()
        invariant
            all == list@,
            i <= all.len(),
            out@ == without_key(all.take(i as int), pid),
        decreases all.len() - i,
    {
        proof {
            reveal(Seq::filter);
            assert(all.take(i + 1).drop_last() =~= all.take(i as int));
        }
        if list[i] != pid {
            out.push(list[i]);
        }
        i += 1;
    }
    assert(all.take(i as int) =~= all);
    out
}

/// Waits for the end of a child of the process that runs: of child `target_pid`, or of any where
/// that is -1.
pub fn do_wait4(k: &mut Coop, caller_pid: Pid, target_pid: i64) -> (r: WaitStep)
    requires
        old(k).wf(),
        runs(old(k)@, caller_pid),
    ensures
        final(k).wf(),
        wait_outcome(old(k)@, final(k)@, caller_pid, target_pid, r),
{
    let ghost s = k@;
    let ghost children = s.procs[caller_pid].children;
    let target: Option<Pid> = pid_of(target_pid);
    let mut any = false;
    let mut found: Option<(Pid, i32)> = None;
    let ghost mut at: int = 0;
    if let Some(me) = k.procs.get(caller_pid) {
        let mut i: usize = 0;
        while i < me.children.len() && found.is_none()
            invariant
                k.wf(),
                k@ == s,
                me.children@ == children,
                i <= children.len(),
                target == self::target_pid(target_pid),
                any == exists|j: int|
                    0 <= j < i && is_target(target_pid, #[trigger] children[j]),
                found is None ==> forall|j: int|
                    0 <= j < i ==> !(is_target(target_pid, #[trigger] children[j]) && is_zombie(
                        s,
                        children[j],
                    )),
                found matches Some(f) ==> {
                    &&& any
                    &&& first_over(s, children, target_pid, at)
                    &&& f.0 == children[at]
                    &&& s.procs[children[at]].state == ProcState::Zombie(f.1)
                },
            decreases children.len() - i,
        {
            let c: Pid = me.children[i];
            let hit = match target {
                None => true,
                Some(t) => t == c,
            };
            assert(hit == is_target(target_pid, children[i as int]));
            if hit {
                any = true;
                if let Some(p) = k.procs.get(c) {
                    if let ProcState::Zombie(code) = p.state {
                        found = Some((c, code));
                        proof {
                            at = i as int;
                        }
                    }
                }
            }
            i += 1;
        }
        assert(found is None ==> i == children.len());
    }
    assert(found is None ==> none_over(s, children, target_pid));
    assert(any == any_target(children, target_pid) || found is Some);
    if !any {
        return WaitStep::Failed(ECHILD);
    }
    match found {
        Some((child, code)) => {
            proof {
                assert(first_over(s, children, target_pid, at));
                assert(child != caller_pid);
            }
            let _ = k.procs.remove(child);
            if let Some(me) = k.procs.get_mut(caller_pid) {
                me.children = without(&me.children, child);
            }
            proof {
                let t = k@;
                assert(t == buried(s, caller_pid, child));
                assert forall|i: int| 0 <= i < t.ready.len() implies {
                    let q = #[trigger] t.ready[i];
                    &&& t.procs.contains_key(q)
                    &&& can_run(t.procs[q].state)
                    &&& q == t.current ==> t.procs[q].state == ProcState::Ready
                } by {
                    assert(t.ready[i] == s.ready[i]);
                    assert(s.procs.contains_key(s.ready[i]));
                    assert(can_run(s.procs[s.ready[i]].state));
                    assert(s.ready[i] != child);
                }
                assert forall|q: Pid| #[trigger] t.procs.contains_key(q) implies t.procs[q].pid == q
                    && 1 <= q < t.next_pid by {
                    assert(s.procs.contains_key(q));
                }
            }
            WaitStep::Reaped { pid: child, code }
        },
        None => {
            block(k, caller_pid, BlockReason::WaitingForChild(target));
            WaitStep::Block
        },
    }
}

/// The pid of the process that runs.
pub fn do_getpid(k: &Coop) -> (r: u64)
    ensures
        r == k@.current,
{
    k.current
}

/// The parent of the process that runs; 0 where it has none.
pub fn do_getppid(k: &Coop) -> (r: u64)
    requires
        k.wf(),
    ensures
        r == (if k@.procs.contains_key(k@.current) {
            match k@.procs[k@.current].parent {
                Some(p) => p,
                None => 0,
            }
        } else {
            0
        }),
{
    match k.procs.get(k.current) {
        Some(p) => match p.parent {
            Some(q) => q,
            None => 0,
        },
        None => 0,
    }
}

// ---------------------------------------------------------------------------------------------
// Laws
// ---------------------------------------------------------------------------------------------
/// The end of a child that its parent waits for lets the parent run and find it: the next wait
/// reports the child with the code that it ended with.
pub proof fn law_exit_reported(s: CoopView, child: Pid, parent: Pid, code: i32, target: i64)
    requires
        coop_ok(s),
        runs(s, child),
        s.procs[child].parent == Some(parent),
        s.procs.contains_key(parent),
        s.procs[parent].state == ProcState::Blocked(
            BlockReason::WaitingForChild(target_pid(target)),
        ),
        s.procs[parent].children.contains(child),
        is_target(target, child),
    ensures
        ({
            let t = exited(s, child, code);
            &&& t.procs[parent].state == ProcState::Ready
            &&& t.ready.last() == parent
            &&& t.procs[parent].children == s.procs[parent].children
            &&& t.procs[child].state == ProcState::Zombie(code)
            &&& any_target(t.procs[parent].children, target)
            &&& !none_over(t, t.procs[parent].children, target)
        }),
{
    let t = exited(s, child, code);
    let children = s.procs[parent].children;
    let i = children.index_of(child);
    assert(is_target(target, children[i]));
    assert(is_zombie(t, children[i]));
}

/// A process that ended gets no turn again.
pub proof fn law_exit_final(s: CoopView, pid: Pid, code: i32)
    requires
        coop_ok(s),
        runs(s, pid),
        s.procs[pid].parent != Some(pid),
    ensures
        ({
            let t = exited(s, pid, code);
            &&& !requeued(t).ready.contains(pid)
            &&& requeued(t).ready.len() > 0 ==> picked(requeued(t)).current != pid
        }),
{
    let t = exited(s, pid, code);
    assert(!s.ready.contains(pid)) by {
        if s.ready.contains(pid) {
            let i = s.ready.index_of(pid);
            assert(s.ready[i] == pid);
        }
    }
    assert(!t.ready.contains(pid)) by {
        if t.ready.contains(pid) {
            let i = t.ready.index_of(pid);
            if i < s.ready.len() {
                assert(s.ready[i] == pid);
                assert(s.ready.contains(pid));
            }
        }
    }
    assert(requeued(t) == t);
    if t.ready.len() > 0 {
        assert(t.ready.contains(t.ready[0]));
    }
}

/// A child that was reported is gone: no wait reports it again.
pub proof fn law_reported_once(s: CoopView, caller: Pid, child: Pid)
    requires
        s.procs.contains_key(caller),
        caller != child,
    ensures
        !buried(s, caller, child).procs.contains_key(child),
        !buried(s, caller, child).procs[caller].children.contains(child),
{
    lemma_without(s.procs[caller].children, child);
}

/// A process that splits off has its parent's heap end and thread base, knows its parent, and is
/// known to it.
pub proof fn law_fork_inherits(s: CoopView, address_space: u64, kernel_stack_top: u64, rsp: u64)
    requires
        coop_ok(s),
        s.procs.contains_key(s.current),
        s.next_pid < u64::MAX,
    ensures
        ({
            let t = born(
                s,
                Some(s.current),
                forked(s, s.current, address_space, kernel_stack_top, rsp),
            );
            let child = t.procs[s.next_pid];
            &&& t.procs[s.current].children.last() == s.next_pid
            &&& child.parent == Some(s.current)
            &&& child.brk == t.procs[s.current].brk
            &&& child.fs_base == t.procs[s.current].fs_base
            &&& t.ready.last() == s.next_pid
        }),
{
}

} // verus!

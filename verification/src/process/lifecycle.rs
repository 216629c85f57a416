//! Birth, image changes, death and burial of processes.

use vstd::prelude::*;
use crate::errno::{ECHILD, EINVAL, ENOEXEC};
use crate::exec::{
    base_of, basename, build_cmdline, cmdline_of, exec_argv, final_argv, strings, ExecPath,
};
use crate::process::mm::{cleanup_mmap_file_regions_for_exit, without_regions};
use crate::process::scheduler::{enqueue_ready, made_ready, queue_without, remove_ready, without_proc};
use crate::process::limits::SCHED_RR_DEFAULT;
use crate::process::{
    default_action, has_sig, no_altstack, no_siginfo, proc_ok, queues, with_proc, with_state,
    AltStack, BlockReason, Kernel, KernelView, Pid, ProcState, ProcView, Process, QueuedSigInfo,
    SigAction, RT_SIGNAL_COUNT, SIGRTMAX, SIGRTMIN, SS_DISABLE,
};

verus! {

broadcast use crate::process::group_views;

/// Whether a process in this state waits for `child`.
pub open spec fn waits_for(state: ProcState, child: Pid) -> bool {
    state matches ProcState::Blocked(BlockReason::WaitingForChild(t)) && (t is None || t == Some(
        child,
    ))
}

/// `s` after the parent of `child`, if it waits for it, was made ready.
pub open spec fn parent_woken(s: KernelView, child: Pid) -> KernelView {
    if s.procs.contains_key(child) && s.procs[child].parent is Some && s.procs.contains_key(
        s.procs[child].parent->0,
    ) && waits_for(s.procs[s.procs[child].parent->0].state, child) {
        made_ready(s, s.procs[child].parent->0)
    } else {
        s
    }
}

/// Makes the parent of `child_pid` ready if it waits for it.
pub fn wake_parent_if_waiting(k: &mut Kernel, child_pid: Pid)
    requires
        old(k).wf(),
    ensures
        final(k).wf(),
        final(k)@ == parent_woken(old(k)@, child_pid),
{
    let ghost before = k@;
    let parent_pid: Pid = match k.procs.get(child_pid) {
        Some(p) => match p.parent {
            Some(pp) => pp,
            None => {
                return ;
            },
        },
        None => {
            return ;
        },
    };
    let mut wake: bool = false;
    if let Some(parent) = k.procs.get_mut(parent_pid) {
        if let ProcState::Blocked(BlockReason::WaitingForChild(t)) = parent.state {
            wake = match t {
                None => true,
                Some(c) => c == child_pid,
            };
            if wake {
                parent.state = ProcState::Ready;
            }
        }
    }
    if wake {
        enqueue_ready(&mut k.ready, parent_pid);
    }
    assert(k@ =~= parent_woken(before, child_pid));
}

/// `s` after process `pid` has ended with `code`: what it held is to be released, and unless it
/// had ended before it leaves the queue, stays for its parent, and a waiting parent is made ready.
pub open spec fn terminated(s: KernelView, pid: Pid, code: i32) -> KernelView {
    let a = without_regions(KernelView { exits: s.exits.push(pid), ..s }, pid);
    if !a.procs.contains_key(pid) || a.procs[pid].state is Zombie {
        a
    } else {
        parent_woken(
            KernelView {
                ready: queue_without(a.ready, pid),
                ..with_state(a, pid, ProcState::Zombie(code))
            },
            pid,
        )
    }
}

/// Ends process `pid` with `code`.
pub fn terminate_process(k: &mut Kernel, pid: Pid, code: i32)
    requires
        old(k).wf(),
    ensures
        final(k).wf(),
        final(k)@ == terminated(old(k)@, pid, code),
{
    let ghost before = k@;
    k.exits.push(pid);
    assert(k@.procs == before.procs);
    assert(k@ =~= (KernelView { exits: before.exits.push(pid), ..before }));
    cleanup_mmap_file_regions_for_exit(k, pid);
    let ghost mid = k@;
    match k.procs.get_mut(pid) {
        Some(me) => {
            if let ProcState::Zombie(_) = me.state {
                assert(k@ =~= mid);
                return ;
            }
            me.state = ProcState::Zombie(code);
        },
        None => {
            return ;
        },
    }
    remove_ready(&mut k.ready, pid);
    assert(k@ =~= (KernelView {
        ready: queue_without(mid.ready, pid),
        ..with_state(mid, pid, ProcState::Zombie(code))
    }));
    wake_parent_if_waiting(k, pid);
}

/// Ends the caller, which then gives up the processor.
pub fn do_exit(k: &mut Kernel, caller_pid: Pid, code: i32)
    requires
        old(k).wf(),
    ensures
        final(k).wf(),
        final(k)@ == terminated(old(k)@, caller_pid, code),
{
    terminate_process(k, caller_pid, code);
}

/// `s` after process `pid` has stopped itself.
pub open spec fn self_stopped(s: KernelView, pid: Pid, sig: u64) -> KernelView {
    parent_woken(
        with_proc(
            s,
            pid,
            ProcView {
                state: ProcState::Stopped(sig),
                stop_notify_pending: true,
                ..s.procs[pid]
            },
        ),
        pid,
    )
}

/// Stops the caller, which then gives up the processor.
pub fn do_stop_self(k: &mut Kernel, pid: Pid, signum: u64)
    requires
        old(k).wf(),
        old(k)@.procs.contains_key(pid),
    ensures
        final(k).wf(),
        final(k)@ == self_stopped(old(k)@, pid, signum),
{
    let ghost before = k@;
    if let Some(me) = k.procs.get_mut(pid) {
        me.state = ProcState::Stopped(signum);
        me.stop_notify_pending = true;
    }
    assert(k@ =~= with_proc(
        before,
        pid,
        ProcView {
            state: ProcState::Stopped(signum),
            stop_notify_pending: true,
            ..before.procs[pid]
        },
    ));
    wake_parent_if_waiting(k, pid);
}

// ---------------------------------------------------------------------------------------------
// Birth
// ---------------------------------------------------------------------------------------------
/// Why a program image could not be made.
#[derive(Clone, Copy, PartialEq, Eq, Structural, Debug)]
pub enum ElfError {
    /// The file is no program.
    Malformed,
    /// The program could not be loaded.
    LoadFailed,
}

/// Why a process could not be made.
#[derive(Clone, Copy, PartialEq, Eq, Structural, Debug)]
pub enum SpawnError {
    Elf(ElfError),
}

/// A loaded program with a stack for the kernel side of its process.
#[derive(Clone, Copy)]
pub struct SpawnImage {
    pub address_space: u64,
    pub entry: u64,
    pub initial_rsp: u64,
    /// The end of what was loaded.
    pub brk: u64,
    pub kernel_stack_top: u64,
    pub rsp: u64,
    pub fpu_state: [u8; 512],
}

/// As many empty queues as there are real-time signals.
pub open spec fn empty_queues() -> Seq<Seq<QueuedSigInfo>> {
    Seq::new(RT_SIGNAL_COUNT as nat, |i: int| Seq::empty())
}

fn new_queues() -> (r: Vec<Vec<QueuedSigInfo>>)
    ensures
        queues(r@) == empty_queues(),
{
    let mut q: Vec<Vec<QueuedSigInfo>> = Vec::new();
    while q.len() < RT_SIGNAL_COUNT
        invariant
            q@.len() <= RT_SIGNAL_COUNT,
            forall|i: int| 0 <= i < q@.len() ==> (#[trigger] q@[i])@ == Seq::<QueuedSigInfo>::empty(),
        decreases RT_SIGNAL_COUNT - q@.len(),
    {
        q.push(Vec::new());
    }
    assert(queues(q@) =~= empty_queues());
    q
}

/// The name of the first process.
pub open spec fn init_comm() -> Seq<u8> {
    seq![104u8, 117, 115, 104]
}

/// The one argument of the first process.
pub open spec fn init_arg() -> Seq<u8> {
    seq![40u8, 105, 110, 105, 116, 41]
}

/// `PATH=/bin`
pub open spec fn init_path() -> Seq<u8> {
    seq![80u8, 65, 84, 72, 61, 47, 98, 105, 110]
}

/// `TERM=linux`
pub open spec fn init_term() -> Seq<u8> {
    seq![84u8, 69, 82, 77, 61, 108, 105, 110, 117, 120]
}

/// `PS1=\[\e[1;32m\]\u@\h\[\e[0m\]:\[\e[1;34m\]\w\[\e[0m\]\$ `
pub open spec fn init_prompt() -> Seq<u8> {
    seq![80u8, 83, 49, 61, 92, 91, 92, 101, 91, 49, 59, 51, 50, 109, 92, 93, 92, 117, 64, 92, 104, 92, 91, 92, 101, 91, 48, 109, 92, 93, 58, 92, 91, 92, 101, 91, 49, 59, 51, 52, 109, 92, 93, 92, 119, 92, 91, 92, 101, 91, 48, 109, 92, 93, 92, 36, 32]
}

/// The environment that the first program starts with.
pub fn init_environment() -> (r: Vec<Vec<u8>>)
    ensures
        strings(r@) == seq![init_path(), init_term(), init_prompt()],
{
    let path: Vec<u8> = vec![80u8, 65, 84, 72, 61, 47, 98, 105, 110];
    assert(path@ =~= init_path());
    let term: Vec<u8> = vec![84u8, 69, 82, 77, 61, 108, 105, 110, 117, 120];
    assert(term@ =~= init_term());
    let prompt: Vec<u8> = vec![80u8, 83, 49, 61, 92, 91, 92, 101, 91, 49, 59, 51, 50, 109, 92, 93, 92, 117, 64, 92, 104, 92, 91, 92, 101, 91, 48, 109, 92, 93, 58, 92, 91, 92, 101, 91, 49, 59, 51, 52, 109, 92, 93, 92, 119, 92, 91, 92, 101, 91, 48, 109, 92, 93, 92, 36, 32];
    assert(prompt@ =~= init_prompt());
    let r: Vec<Vec<u8>> = vec![path, term, prompt];
    assert(strings(r@) =~= seq![init_path(), init_term(), init_prompt()]);
    r
}

/// A fresh process from a loaded program: its own group and session, root, everything else at its
/// default.
pub open spec fn spawned(pid: Pid, parent: Option<Pid>, image: SpawnImage) -> ProcView {
    ProcView {
        pid,
        tgid: pid,
        parent,
        children: Seq::empty(),
        state: ProcState::Ready,
        address_space: Some(image.address_space),
        kernel_stack_top: image.kernel_stack_top,
        rsp: image.rsp,
        entry_point: image.entry,
        user_stack_top: image.initial_rsp,
        brk: image.brk,
        fs_base: 0,
        cwd: 0,
        root_inode: 0,
        pending_signals: 0,
        blocked_signals: 0,
        sigactions: Seq::new(65, |i: int| default_action()),
        signal_stack: Seq::empty(),
        altstack: no_altstack(),
        priority: 0,
        pgid: pid,
        sid: pid,
        comm: init_comm(),
        cmdline: init_arg().push(0),
        real_timer_deadline: None,
        real_timer_interval_ticks: 0,
        posix_timers: Seq::new(8, |i: int| None),
        uid: 0,
        gid: 0,
        rlimits: Seq::new(16, |i: int| (u64::MAX, u64::MAX)),
        nice: 0,
        sched_policy: SCHED_RR_DEFAULT,
        sched_priority: 0,
        umask: 18,
        stop_notify_pending: false,
        cont_notify_pending: false,
        sigsuspend_restore_mask: None,
        sysv_sem_undo: Seq::empty(),
        sysv_shm_attach: Seq::empty(),
        mmap_file_regions: Seq::empty(),
        pending_siginfo: Seq::new(32, |i: int| no_siginfo()),
        rt_queue: empty_queues(),
        fpu_state: image.fpu_state@,
        cpu_ticks: 0,
    }
}

/// No signal is pending where the mask is zero and the queues are empty.
proof fn lemma_no_signals(p: ProcView)
    requires
        p.pending_signals == 0,
        p.rt_queue == empty_queues(),
    ensures
        crate::process::signals_ok(p),
{
    crate::process::signals::lemma_masks();
    assert forall|s: u64| SIGRTMIN <= s <= SIGRTMAX implies (#[trigger] has_sig(
        p.pending_signals,
        s,
    ) <==> p.rt_queue[s - SIGRTMIN].len() > 0) by {
        assert(!has_sig(0, s));
    }
}

/// `s` with `child` filed under the next pid, listed with its parent if it has one, and queued.
pub open spec fn born(s: KernelView, parent: Option<Pid>, child: ProcView) -> KernelView {
    let pid = s.next_pid;
    let listed = match parent {
        Some(pp) => if s.procs.contains_key(pp) {
            let p = s.procs[pp];
            s.procs.insert(pp, ProcView { children: p.children.push(pid), ..p })
        } else {
            s.procs
        },
        None => s.procs,
    };
    KernelView {
        procs: listed.insert(pid, child),
        pids: s.pids.push(pid),
        ready: s.ready.push(pid),
        next_pid: (pid + 1) as u64,
        ..s
    }
}

/// Files a new process under the next pid.
fn enrol(k: &mut Kernel, parent: Option<Pid>, child: Process)
    requires
        old(k).wf(),
        old(k)@.next_pid < u64::MAX,
        child@.pid == old(k)@.next_pid,
        proc_ok(child@),
    ensures
        final(k).wf(),
        final(k)@ == born(old(k)@, parent, child@),
{
    let ghost before = k@;
    let pid: Pid = k.next_pid;
    k.next_pid = pid + 1;
    proof {
        k.procs.lemma_order();
        assert forall|i: int| 0 <= i < k.procs.order().len() implies #[trigger] k.procs.order()[i]
            < pid by {
            assert(before.procs.contains_key(k.procs.order()[i]));
        }
    }
    if let Some(pp) = parent {
        if let Some(p) = k.procs.get_mut(pp) {
            p.children.push(pid);
        }
    }
    k.procs.insert(pid, child);
    enqueue_ready(&mut k.ready, pid);
    assert(k@ =~= born(before, parent, child@));
    assert forall|q: Pid| #[trigger] k@.procs.contains_key(q) implies proc_ok(k@.procs[q])
        && k@.procs[q].pid == q && 1 <= q < k@.next_pid by {
        if q != pid {
            assert(before.procs.contains_key(q));
        }
    }
}

/// Makes a process out of a loaded program and gives it the console. The caller copies the
/// descriptors of pid 0 to it.
pub fn spawn(k: &mut Kernel, image: Result<SpawnImage, ElfError>, parent: Option<Pid>) -> (r: Result<
    Pid,
    SpawnError,
>)
    requires
        old(k).wf(),
        old(k)@.next_pid < u64::MAX,
    ensures
        final(k).wf(),
        match image {
            Err(e) => r == Err::<Pid, SpawnError>(SpawnError::Elf(e)) && final(k)@ == old(k)@,
            Ok(i) => {
                let pid = old(k)@.next_pid;
                &&& r == Ok::<Pid, SpawnError>(pid)
                &&& final(k)@ == (KernelView {
                    controlling_session: pid,
                    ..born(old(k)@, parent, spawned(pid, parent, i))
                })
            },
        },
{
    let image = match image {
        Ok(i) => i,
        Err(e) => {
            return Err(SpawnError::Elf(e));
        },
    };
    let pid: Pid = k.next_pid;
    let comm: Vec<u8> = vec![104u8, 117, 115, 104];
    let cmdline: Vec<u8> = vec![40u8, 105, 110, 105, 116, 41, 0];
    assert(comm@ =~= init_comm());
    assert(cmdline@ =~= init_arg().push(0));
    let child = Process {
        pid,
        tgid: pid,
        parent,
        children: Vec::new(),
        state: ProcState::Ready,
        address_space: Some(image.address_space),
        kernel_stack_top: image.kernel_stack_top,
        rsp: image.rsp,
        entry_point: image.entry,
        user_stack_top: image.initial_rsp,
        brk: image.brk,
        fs_base: 0,
        cwd: 0,
        root_inode: 0,
        pending_signals: 0,
        blocked_signals: 0,
        sigactions: [SigAction { handler: 0, flags: 0, restorer: 0, mask: 0 };65],
        signal_stack: Vec::new(),
        altstack: AltStack { sp: 0, flags: SS_DISABLE, size: 0 },
        priority: 0,
        pgid: pid,
        sid: pid,
        comm,
        cmdline,
        real_timer_deadline: None,
        real_timer_interval_ticks: 0,
        posix_timers: [None;8],
        uid: 0,
        gid: 0,
        rlimits: [(u64::MAX, u64::MAX);16],
        nice: 0,
        sched_policy: SCHED_RR_DEFAULT,
        sched_priority: 0,
        umask: 18,
        stop_notify_pending: false,
        cont_notify_pending: false,
        sigsuspend_restore_mask: None,
        sysv_sem_undo: Vec::new(),
        sysv_shm_attach: Vec::new(),
        mmap_file_regions: Vec::new(),
        pending_siginfo: [QueuedSigInfo { code: 0, pid: 0, uid: 0, value: 0 };32],
        rt_queue: new_queues(),
        fpu_state: image.fpu_state,
        cpu_ticks: 0,
    };
    assert(child@ =~= spawned(pid, parent, image));
    proof {
        lemma_no_signals(child@);
    }
    let ghost before = k@;
    enrol(k, parent, child);
    let ghost mid = k@;
    k.controlling_session = pid;
    assert(k@.procs == mid.procs);
    Ok(pid)
}

/// The child that a fork makes: it shares its parent's identity, dispositions, mask, handlers in
/// progress, limits, directories and program, but no pending signals, timers, mappings of files or
/// accounts.
pub open spec fn forked(
    p: ProcView,
    pid: Pid,
    address_space: u64,
    kernel_stack_top: u64,
    rsp: u64,
) -> ProcView {
    ProcView {
        pid,
        tgid: pid,
        parent: Some(p.pid),
        children: Seq::empty(),
        state: ProcState::Ready,
        address_space: Some(address_space),
        kernel_stack_top,
        rsp,
        entry_point: 0,
        user_stack_top: 0,
        pending_signals: 0,
        priority: 0,
        real_timer_deadline: None,
        real_timer_interval_ticks: 0,
        posix_timers: Seq::new(8, |i: int| None),
        stop_notify_pending: false,
        cont_notify_pending: false,
        sigsuspend_restore_mask: None,
        sysv_sem_undo: Seq::empty(),
        sysv_shm_attach: Seq::empty(),
        mmap_file_regions: Seq::empty(),
        pending_siginfo: Seq::new(32, |i: int| no_siginfo()),
        rt_queue: empty_queues(),
        cpu_ticks: 0,
        ..p
    }
}

/// Forks the running process into an address space that was copied from its own, and returns the
/// child. The caller copies its descriptors to the child.
pub fn do_fork_from_current(k: &mut Kernel, address_space: u64, kernel_stack_top: u64, rsp: u64) -> (r:
    Result<u64, u64>)
    requires
        old(k).wf(),
        old(k)@.procs.contains_key(old(k)@.current),
        old(k)@.next_pid < u64::MAX,
    ensures
        final(k).wf(),
        r == Ok::<u64, u64>(old(k)@.next_pid),
        final(k)@ == born(
            old(k)@,
            Some(old(k)@.current),
            forked(
                old(k)@.procs[old(k)@.current],
                old(k)@.next_pid,
                address_space,
                kernel_stack_top,
                rsp,
            ),
        ),
{
    let ghost before = k@;
    let caller: Pid = k.current;
    let pid: Pid = k.next_pid;
    match k.procs.get(caller) {
        Some(p) => {
            let child = Process {
                pid,
                tgid: pid,
                parent: Some(caller),
                children: Vec::new(),
                state: ProcState::Ready,
                address_space: Some(address_space),
                kernel_stack_top,
                rsp,
                entry_point: 0,
                user_stack_top: 0,
                brk: p.brk,
                fs_base: p.fs_base,
                cwd: p.cwd,
                root_inode: p.root_inode,
                pending_signals: 0,
                blocked_signals: p.blocked_signals,
                sigactions: p.sigactions,
                signal_stack: p.signal_stack.clone(),
                altstack: p.altstack,
                priority: 0,
                pgid: p.pgid,
                sid: p.sid,
                comm: p.comm.clone(),
                cmdline: p.cmdline.clone(),
                real_timer_deadline: None,
                real_timer_interval_ticks: 0,
                posix_timers: [None;8],
                uid: p.uid,
                gid: p.gid,
                rlimits: p.rlimits,
                nice: p.nice,
                sched_policy: p.sched_policy,
                sched_priority: p.sched_priority,
                umask: p.umask,
                stop_notify_pending: false,
                cont_notify_pending: false,
                sigsuspend_restore_mask: None,
                sysv_sem_undo: Vec::new(),
                sysv_shm_attach: Vec::new(),
                mmap_file_regions: Vec::new(),
                pending_siginfo: [QueuedSigInfo { code: 0, pid: 0, uid: 0, value: 0 };32],
                rt_queue: new_queues(),
                fpu_state: p.fpu_state,
                cpu_ticks: 0,
            };
            assert(child.signal_stack@ =~= p.signal_stack@);
            assert(child.comm@ =~= p.comm@);
            assert(child.cmdline@ =~= p.cmdline@);
            assert(child@ =~= forked(p@, pid, address_space, kernel_stack_top, rsp));
            proof {
                lemma_no_signals(child@);
            }
            enrol(k, Some(caller), child);
        },
        None => {},
    }
    Ok(pid)
}

// ---------------------------------------------------------------------------------------------
// Images
// ---------------------------------------------------------------------------------------------
/// Why another program cannot take over.
#[derive(Clone, Copy, PartialEq, Eq, Structural, Debug)]
pub enum ExecError {
    /// A file could not be opened or read.
    File(u64),
    /// What was read is no program, or could not be loaded.
    Program(ElfError),
}

/// A program that was loaded to take the place of another.
#[derive(Clone, Copy, PartialEq, Eq, Structural, Debug)]
pub struct ExecImage {
    pub address_space: u64,
    /// Where it starts.
    pub entry: u64,
    pub initial_rsp: u64,
    /// The end of what was loaded.
    pub brk: u64,
}

/// A caught signal goes back to its default; ignored ones stay ignored.
pub open spec fn reset_action(a: SigAction) -> SigAction {
    if a.handler > 1 {
        default_action()
    } else {
        a
    }
}

/// `p` after a new program took its place.
pub open spec fn replaced(p: ProcView, image: ExecImage, effective: Seq<u8>, argv: Seq<Seq<u8>>) -> ProcView {
    ProcView {
        address_space: Some(image.address_space),
        user_stack_top: image.initial_rsp,
        entry_point: image.entry,
        brk: image.brk,
        comm: base_of(effective),
        cmdline: cmdline_of(argv),
        fs_base: 0,
        sigactions: Seq::new(65, |i: int| reset_action(p.sigactions[i])),
        altstack: no_altstack(),
        posix_timers: Seq::new(8, |i: int| None),
        ..p
    }
}

fn reset_actions(p: &mut Process)
    requires
        proc_ok(old(p)@),
    ensures
        final(p)@ == (ProcView {
            sigactions: Seq::new(65, |i: int| reset_action(old(p)@.sigactions[i])),
            ..old(p)@
        }),
{
    let ghost before = p@;
    let mut i: usize = 0;
    while i < 65
        invariant
            i <= 65,
            p.sigactions@.len() == 65,
            p@ == (ProcView { sigactions: p@.sigactions, ..before }),
            forall|j: int|
                0 <= j < i ==> p@.sigactions[j] == reset_action(before.sigactions[j]),
            forall|j: int| i <= j < 65 ==> p@.sigactions[j] == before.sigactions[j],
        decreases 65 - i,
    {
        if p.sigactions[i].handler > 1 {
            p.sigactions[i] = SigAction { handler: 0, flags: 0, restorer: 0, mask: 0 };
        }
        i += 1;
    }
    assert(p@ =~= (ProcView {
        sigactions: Seq::new(65, |i: int| reset_action(before.sigactions[i])),
        ..before
    }));
}

/// Puts a loaded program in the place of the caller's, and returns the address space to free. Where
/// it could not be loaded, nothing changes. The
/// caller then releases its shared memory and closes the descriptors marked for that.
pub fn do_execve(
    k: &mut Kernel,
    caller_pid: Pid,
    path: &ExecPath,
    given: &Vec<Vec<u8>>,
    image: Result<ExecImage, ExecError>,
) -> (r: Result<Option<u64>, u64>)
    requires
        old(k).wf(),
        old(k)@.procs.contains_key(caller_pid),
    ensures
        final(k).wf(),
        match image {
            Ok(i) => {
                &&& r == Ok::<Option<u64>, u64>(old(k)@.procs[caller_pid].address_space)
                &&& final(k)@ == without_regions(
                    with_proc(
                        old(k)@,
                        caller_pid,
                        replaced(
                            old(k)@.procs[caller_pid],
                            i,
                            path@.effective,
                            final_argv(path@, strings(given@)),
                        ),
                    ),
                    caller_pid,
                )
            },
            Err(ExecError::File(e)) => r == Err::<Option<u64>, u64>(e) && final(k)@ == old(k)@,
            Err(ExecError::Program(_)) => {
                &&& r == Err::<Option<u64>, u64>(ENOEXEC)
                &&& final(k)@ == old(k)@
            },
        },
{
    let image: ExecImage = match image {
        Ok(i) => i,
        Err(ExecError::File(e)) => {
            return Err(e);
        },
        Err(ExecError::Program(_)) => {
            return Err(ENOEXEC);
        },
    };
    let ghost before = k@;
    let argv = exec_argv(path, given);
    let mut freed: Option<u64> = None;
    if let Some(me) = k.procs.get_mut(caller_pid) {
        let ghost was = me@;
        freed = me.address_space;
        me.address_space = Some(image.address_space);
        me.user_stack_top = image.initial_rsp;
        me.entry_point = image.entry;
        me.brk = image.brk;
        me.comm = basename(path.effective.as_slice());
        me.cmdline = build_cmdline(&argv);
        me.fs_base = 0;
        reset_actions(me);
        me.altstack = AltStack { sp: 0, flags: SS_DISABLE, size: 0 };
        me.posix_timers = [None;8];
        assert(me@ =~= replaced(
            was,
            image,
            path@.effective,
            final_argv(path@, strings(given@)),
        ));
    }
    assert(k@ =~= with_proc(
        before,
        caller_pid,
        replaced(
            before.procs[caller_pid],
            image,
            path@.effective,
            final_argv(path@, strings(given@)),
        ),
    ));
    cleanup_mmap_file_regions_for_exit(k, caller_pid);
    Ok(freed)
}

/// Where a process that never ran starts, and with which stack.
pub fn first_entry(k: &Kernel) -> (r: (u64, u64))
    requires
        k.wf(),
        k@.procs.contains_key(k@.current),
    ensures
        r == (k@.procs[k@.current].entry_point, k@.procs[k@.current].user_stack_top),
{
    match k.procs.get(k.current) {
        Some(p) => (p.entry_point, p.user_stack_top),
        None => (0, 0),
    }
}

/// Where a user stack of `pages` pages that ends at `stack_top` begins.
pub fn user_stack_bottom(stack_top: u64, pages: u64) -> (r: u64)
    requires
        pages * 4096 <= stack_top,
    ensures
        r == stack_top - pages * 4096,
{
    stack_top - pages * 4096
}

/// The pages of a user stack of `pages` pages that ends at `stack_top`, lowest first: each is
/// mapped, present, writable and open to the user.
pub fn map_user_stack(stack_top: u64, pages: u64) -> (r: Vec<u64>)
    requires
        stack_top % 4096 == 0,
        pages * 4096 <= stack_top,
    ensures
        r@ == Seq::new(pages as nat, |i: int| (stack_top - pages * 4096 + i * 4096) as u64),
{
    let bottom: u64 = user_stack_bottom(stack_top, pages);
    let mut r: Vec<u64> = Vec::new();
    let mut page: u64 = bottom;
    let ghost mut n: int = 0;
    while page < stack_top
        invariant
            bottom == stack_top - pages * 4096,
            0 <= n <= pages,
            page == bottom + n * 4096,
            page <= stack_top,
            r@ == Seq::new(n as nat, |i: int| (bottom + i * 4096) as u64),
        decreases stack_top - page,
    {
        r.push(page);
        page = page + 4096;
        proof {
            n = n + 1;
        }
        assert(r@ =~= Seq::new(n as nat, |i: int| (bottom + i * 4096) as u64));
    }
    assert(r@ =~= Seq::new(
        pages as nat,
        |i: int| (stack_top - pages * 4096 + i * 4096) as u64,
    ));
    r
}

// ---------------------------------------------------------------------------------------------
// Waiting for children
// ---------------------------------------------------------------------------------------------
/// Answer at once.
pub const WNOHANG: u64 = 1;
/// Report stopped children too.
pub const WUNTRACED: u64 = 2;
/// Report resumed children too.
pub const WCONTINUED: u64 = 8;

/// How a wait for a child went on.
#[derive(Clone, Copy, PartialEq, Eq, Structural, Debug)]
pub enum Wait {
    /// It failed.
    Failed(u64),
    /// Nothing to report yet.
    Nothing,
    /// This child has this status; the address space, if any, is to be freed.
    Reported { pid: Pid, status: i32, freed: Option<u64> },
    /// The caller now blocks; the call is to be made again when it next runs.
    Block,
}

/// The test for being a child that is waited for.
pub open spec fn awaited(target: i64) -> spec_fn(Pid) -> bool {
    |pid: Pid| target == -1 || target as u64 == pid
}

/// The children that are waited for, in order of birth.
pub open spec fn candidates(s: KernelView, caller: Pid, target: i64) -> Seq<Pid> {
    s.procs[caller].children.filter(awaited(target))
}

/// Child `c` has ended.
pub open spec fn is_zombie(s: KernelView, c: Pid) -> bool {
    s.procs.contains_key(c) && s.procs[c].state is Zombie
}

/// Child `c` was stopped and that was not reported yet.
pub open spec fn has_stopped(s: KernelView, c: Pid) -> bool {
    s.procs.contains_key(c) && s.procs[c].stop_notify_pending
}

/// Child `c` was resumed and that was not reported yet.
pub open spec fn has_continued(s: KernelView, c: Pid) -> bool {
    s.procs.contains_key(c) && s.procs[c].cont_notify_pending
}

/// The status of a stopped child.
pub open spec fn stop_status(sig: u64) -> i32 {
    0x7f | ((sig as i32) << 8)
}

/// The kinds of report, in order of precedence.
pub open spec fn reportable(s: KernelView, c: Pid, kind: int) -> bool {
    if kind == 0 {
        is_zombie(s, c)
    } else if kind == 1 {
        has_stopped(s, c)
    } else {
        has_continued(s, c)
    }
}

/// Position `i` of `list` is the first with a report of this kind.
pub open spec fn first_report(s: KernelView, list: Seq<Pid>, kind: int, i: int) -> bool {
    &&& 0 <= i < list.len()
    &&& reportable(s, list[i], kind)
    &&& forall|j: int| 0 <= j < i ==> !reportable(s, #[trigger] list[j], kind)
}

/// No child of `list` has a report of this kind.
pub open spec fn no_report(s: KernelView, list: Seq<Pid>, kind: int) -> bool {
    forall|j: int| 0 <= j < list.len() ==> !reportable(s, #[trigger] list[j], kind)
}

/// `s` after the ended child `c` of `caller` was buried.
pub open spec fn buried(s: KernelView, caller: Pid, c: Pid) -> KernelView {
    let t = without_proc(s, c);
    let p = t.procs[caller];
    with_proc(t, caller, ProcView { children: queue_without(p.children, c), ..p })
}

/// `s` after the stop of `c` was reported.
pub open spec fn stop_seen(s: KernelView, c: Pid) -> KernelView {
    with_proc(s, c, ProcView { stop_notify_pending: false, ..s.procs[c] })
}

/// `s` after the resumption of `c` was reported.
pub open spec fn cont_seen(s: KernelView, c: Pid) -> KernelView {
    with_proc(s, c, ProcView { cont_notify_pending: false, ..s.procs[c] })
}

/// The child a target names, if it names one.
pub open spec fn wait_target(target: i64) -> Option<Pid> {
    if target == -1 {
        None
    } else {
        Some(target as u64)
    }
}

/// What waiting for a child does: an ended child comes first, then a stopped one, then a resumed
/// one, where the options ask for those.
pub open spec fn wait_outcome(
    s: KernelView,
    caller: Pid,
    target: i64,
    options: u64,
    t: KernelView,
    r: Wait,
) -> bool {
    let list = candidates(s, caller, target);
    let stops = options & WUNTRACED != 0;
    let conts = options & WCONTINUED != 0;
    if list.len() == 0 {
        r == Wait::Failed(ECHILD) && t == s
    } else if !no_report(s, list, 0) {
        exists|i: int| #[trigger]
            first_report(s, list, 0, i) && r == (Wait::Reported {
                pid: list[i],
                status: s.procs[list[i]].state->Zombie_0,
                freed: s.procs[list[i]].address_space,
            }) && t == buried(s, caller, list[i])
    } else if stops && !no_report(s, list, 1) {
        exists|i: int| #[trigger]
            first_report(s, list, 1, i) && r == (Wait::Reported {
                pid: list[i],
                status: stop_status(s.procs[list[i]].state->Stopped_0),
                freed: None,
            }) && t == stop_seen(s, list[i])
    } else if conts && !no_report(s, list, 2) {
        exists|i: int| #[trigger]
            first_report(s, list, 2, i) && r == (Wait::Reported {
                pid: list[i],
                status: 0xffff,
                freed: None,
            }) && t == cont_seen(s, list[i])
    } else if options & WNOHANG != 0 {
        r == Wait::Nothing && t == s
    } else {
        r == Wait::Block && t == with_state(
            s,
            caller,
            ProcState::Blocked(BlockReason::WaitingForChild(wait_target(target))),
        )
    }
}

fn find_report(k: &Kernel, list: &Vec<Pid>, kind: u8) -> (r: Option<usize>)
    requires
        k.wf(),
        kind <= 2,
    ensures
        match r {
            Some(i) => first_report(k@, list@, kind as int, i as int) && !no_report(
                k@,
                list@,
                kind as int,
            ),
            None => no_report(k@, list@, kind as int),
        },
{
    let mut i: usize = 0;
    while i < list.len()
        invariant
            k.wf(),
            kind <= 2,
            i <= list@.len(),
            forall|j: int| 0 <= j < i ==> !reportable(k@, #[trigger] list@[j], kind as int),
        decreases list@.len() - i,
    {
        let c: Pid = list[i];
        let hit: bool = match k.procs.get(c) {
            Some(p) => if kind == 0 {
                match p.state {
                    ProcState::Zombie(_) => true,
                    _ => false,
                }
            } else if kind == 1 {
                p.stop_notify_pending
            } else {
                p.cont_notify_pending
            },
            None => false,
        };
        assert(hit == reportable(k@, list@[i as int], kind as int));
        if hit {
            return Some(i);
        }
        i += 1;
    }
    None
}

fn waited_children(children: &Vec<Pid>, target: i64) -> (r: Vec<Pid>)
    ensures
        r@ == children@.filter(awaited(target)),
{
    let mut out: Vec<Pid> = Vec::new();
    let ghost all = children@;
    let mut i: usize = 0;
    while i < children.len()
        invariant
            all == children@,
            i <= all.len(),
            out@ == all.take(i as int).filter(awaited(target)),
        decreases all.len() - i,
    {
        let c: Pid = children[i];
        proof {
            reveal(Seq::filter);
            assert(all.take(i + 1).drop_last() =~= all.take(i as int));
        }
        if target == -1 || #[verifier::truncate] (target as u64) == c {
            out.push(c);
        }
        i += 1;
    }
    assert(all.take(i as int) =~= all);
    out
}

fn drop_child(children: &mut Vec<Pid>, child: Pid)
    ensures
        final(children)@ == queue_without(old(children)@, child),
{
    let mut out: Vec<Pid> = Vec::new();
    let ghost all = children@;
    let mut i: usize = 0;
    while i < children.len()
        invariant
            all == children@,
            i <= all.len(),
            out@ == queue_without(all.take(i as int), child),
        decreases all.len() - i,
    {
        let c: Pid = children[i];
        proof {
            reveal(Seq::filter);
            assert(all.take(i + 1).drop_last() =~= all.take(i as int));
        }
        if c != child {
            out.push(c);
        }
        i += 1;
    }
    assert(all.take(i as int) =~= all);
    *children = out;
}

/// Waits for a child: any where `target_pid` is -1, else that one.
pub fn do_wait4(k: &mut Kernel, caller_pid: Pid, target_pid: i64, options: u64) -> (r: Wait)
    requires
        old(k).wf(),
        old(k)@.procs.contains_key(caller_pid),
        !(old(k)@.procs[caller_pid].state is Zombie),
        forall|c: Pid| #[trigger]
            has_stopped(old(k)@, c) ==> old(k)@.procs[c].state is Stopped
                || old(k)@.procs[c].state is Zombie,
    ensures
        final(k).wf(),
        wait_outcome(old(k)@, caller_pid, target_pid, options, final(k)@, r),
{
    let ghost before = k@;
    let list: Vec<Pid> = match k.procs.get(caller_pid) {
        Some(p) => waited_children(&p.children, target_pid),
        None => Vec::new(),
    };
    let ghost kids = candidates(before, caller_pid, target_pid);
    if list.len() == 0 {
        return Wait::Failed(ECHILD);
    }
    if let Some(i) = find_report(k, &list, 0) {
        let c: Pid = list[i];
        let mut status: i32 = 0;
        let mut freed: Option<u64> = None;
        if let Some(p) = k.procs.remove(c) {
            freed = p.address_space;
            if let ProcState::Zombie(code) = p.state {
                status = code;
            }
        }
        assert(is_zombie(before, c));
        if let Some(p) = k.procs.get_mut(caller_pid) {
            drop_child(&mut p.children, c);
        }
        assert(k@ =~= buried(before, caller_pid, c));
        assert(first_report(before, kids, 0, i as int));
        return Wait::Reported { pid: c, status, freed };
    }
    if options & WUNTRACED != 0 {
        if let Some(i) = find_report(k, &list, 1) {
            let c: Pid = list[i];
            let mut status: i32 = 0;
            assert(reportable(before, kids[i as int], 1));
            assert(has_stopped(before, c));
            assert(!reportable(before, kids[i as int], 0));
            if let Some(p) = k.procs.get_mut(c) {
                if let ProcState::Stopped(sig) = p.state {
                    status = 0x7f | ((#[verifier::truncate] (sig as i32)) << 8);
                }
                p.stop_notify_pending = false;
            }
            assert(k@ =~= stop_seen(before, c));
            assert(first_report(before, kids, 1, i as int));
            return Wait::Reported { pid: c, status, freed: None };
        }
    }
    if options & WCONTINUED != 0 {
        if let Some(i) = find_report(k, &list, 2) {
            let c: Pid = list[i];
            assert(reportable(before, kids[i as int], 2));
            if let Some(p) = k.procs.get_mut(c) {
                p.cont_notify_pending = false;
            }
            assert(k@ =~= cont_seen(before, c));
            assert(first_report(before, kids, 2, i as int));
            return Wait::Reported { pid: c, status: 0xffff, freed: None };
        }
    }
    if options & WNOHANG != 0 {
        return Wait::Nothing;
    }
    let target: Option<Pid> = if target_pid == -1 {
        None
    } else {
        Some(#[verifier::truncate] (target_pid as u64))
    };
    if let Some(p) = k.procs.get_mut(caller_pid) {
        p.state = ProcState::Blocked(BlockReason::WaitingForChild(target));
    }
    assert(k@ =~= with_state(
        before,
        caller_pid,
        ProcState::Blocked(BlockReason::WaitingForChild(wait_target(target_pid))),
    ));
    Wait::Block
}

// ---------------------------------------------------------------------------------------------
// The rest
// ---------------------------------------------------------------------------------------------
pub const RB_AUTOBOOT: u64 = 0x0123_4567;
pub const RB_HALT_SYSTEM: u64 = 0xcdef_0123;
pub const RB_POWER_OFF: u64 = 0x4321_fedc;

/// How the machine is to go down.
#[derive(Clone, Copy, PartialEq, Eq, Structural, Debug)]
pub enum Shutdown {
    Restart,
    Halt,
    PowerOff,
}

/// How `cmd` asks the machine to go down.
pub fn do_reboot(cmd: u64) -> (r: Result<Shutdown, u64>)
    ensures
        r == if cmd == RB_AUTOBOOT {
            Ok::<Shutdown, u64>(Shutdown::Restart)
        } else if cmd == RB_HALT_SYSTEM {
            Ok(Shutdown::Halt)
        } else if cmd == RB_POWER_OFF {
            Ok(Shutdown::PowerOff)
        } else {
            Err(EINVAL)
        },
{
    if cmd == RB_AUTOBOOT {
        Ok(Shutdown::Restart)
    } else if cmd == RB_HALT_SYSTEM {
        Ok(Shutdown::Halt)
    } else if cmd == RB_POWER_OFF {
        Ok(Shutdown::PowerOff)
    } else {
        Err(EINVAL)
    }
}

/// The current directory of the running process; before the first one, the kernel's own.
pub open spec fn cwd_of(s: KernelView) -> u64 {
    if s.current == 0 {
        s.boot_cwd
    } else if s.procs.contains_key(s.current) {
        s.procs[s.current].cwd
    } else {
        0
    }
}

/// The current directory of the running process.
pub fn oxidebsd_get_cwd(k: &Kernel) -> (r: u64)
    requires
        k.wf(),
    ensures
        r == cwd_of(k@),
{
    if k.current == 0 {
        return k.boot_cwd;
    }
    match k.procs.get(k.current) {
        Some(p) => p.cwd,
        None => 0,
    }
}

/// `s` with another current directory.
pub open spec fn with_cwd(s: KernelView, inode: u64) -> KernelView {
    if s.current == 0 {
        KernelView { boot_cwd: inode, ..s }
    } else if s.procs.contains_key(s.current) {
        with_proc(s, s.current, ProcView { cwd: inode, ..s.procs[s.current] })
    } else {
        s
    }
}

/// Sets the current directory of the running process.
pub fn oxidebsd_set_cwd(k: &mut Kernel, inode: u64)
    requires
        old(k).wf(),
    ensures
        final(k).wf(),
        final(k)@ == with_cwd(old(k)@, inode),
{
    let ghost before = k@;
    if k.current == 0 {
        k.boot_cwd = inode;
        assert(k@.procs == before.procs);
        return ;
    }
    if let Some(p) = k.procs.get_mut(k.current) {
        p.cwd = inode;
    }
    assert(k@ =~= with_cwd(before, inode));
}

/// The root directory of the running process; before the first one, the kernel's own.
pub open spec fn root_of(s: KernelView) -> u64 {
    if s.current == 0 {
        s.boot_root
    } else if s.procs.contains_key(s.current) {
        s.procs[s.current].root_inode
    } else {
        0
    }
}

/// The root directory of the running process.
pub fn oxidebsd_get_root(k: &Kernel) -> (r: u64)
    requires
        k.wf(),
    ensures
        r == root_of(k@),
{
    if k.current == 0 {
        return k.boot_root;
    }
    match k.procs.get(k.current) {
        Some(p) => p.root_inode,
        None => 0,
    }
}

/// `s` with another root directory.
pub open spec fn with_root(s: KernelView, inode: u64) -> KernelView {
    if s.current == 0 {
        KernelView { boot_root: inode, ..s }
    } else if s.procs.contains_key(s.current) {
        with_proc(s, s.current, ProcView { root_inode: inode, ..s.procs[s.current] })
    } else {
        s
    }
}

/// Sets the root directory of the running process.
pub fn oxidebsd_set_root(k: &mut Kernel, inode: u64)
    requires
        old(k).wf(),
    ensures
        final(k).wf(),
        final(k)@ == with_root(old(k)@, inode),
{
    let ghost before = k@;
    if k.current == 0 {
        k.boot_root = inode;
        assert(k@.procs == before.procs);
        return ;
    }
    if let Some(p) = k.procs.get_mut(k.current) {
        p.root_inode = inode;
    }
    assert(k@ =~= with_root(before, inode));
}

} // verus!

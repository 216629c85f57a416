//! Processes: the process control block, the process table and the kernel state that the system
//! calls act on.
//!
//! `scheduler` owns when a process runs, `lifecycle` its birth, image changes and death, `signals`
//! what is sent to it and how it answers, `identity` its users and groups, `limits` its limits and
//! scheduling attributes, `timers` its sleeps and alarms, `mm` its mappings, `procfs` what `/proc`
//! shows of it and `fault_trampoline` the page that turns a fault into a system call.

use vstd::prelude::*;
use std::collections::VecDeque;
use crate::ordmap::OrdMap;
use crate::process::limits::known_policy;
use crate::process::mm::{regions_ok, MappingState, MappingView, MmapFileRegion};
use crate::process::scheduler::ReapKind;

pub mod fault_trampoline;
pub mod identity;
pub mod laws;
pub mod life_rules;
pub mod lifecycle;
pub mod limits;
pub mod mm;
pub mod mm_laws;
pub mod mm_rules;
pub mod procfs;
pub mod scheduler;
pub mod signal_rules;
pub mod signals;
pub mod text_rules;
pub mod time_rules;
pub mod timers;

verus! {

pub type Pid = u64;

/// Smallest kernel stack a process gets.
pub const KERNEL_STACK_SIZE_FLOOR: u64 = 131072;
/// Largest kernel stack a process gets.
pub const KERNEL_STACK_SIZE_CEILING: u64 = 524288;
/// Where every user stack ends.
pub const USER_STACK_TOP: u64 = 0x5000_0000_0000;
/// Fewest pages of user stack.
pub const USER_STACK_PAGES_FLOOR: u64 = 4;
/// Most pages of user stack.
pub const USER_STACK_PAGES_CEILING: u64 = 64;

/// `value` brought into `low..=high`.
pub open spec fn clamped(value: int, low: int, high: int) -> int {
    if value < low {
        low
    } else if value > high {
        high
    } else {
        value
    }
}

/// Bytes of kernel stack each process gets: a 256th of the usable memory, within fixed bounds.
pub fn kernel_stack_size(usable_ram_bytes: u64) -> (r: u64)
    ensures
        r == clamped(
            usable_ram_bytes as int / 256,
            KERNEL_STACK_SIZE_FLOOR as int,
            KERNEL_STACK_SIZE_CEILING as int,
        ),
{
    let scaled: u64 = usable_ram_bytes / 256;
    if scaled < KERNEL_STACK_SIZE_FLOOR {
        KERNEL_STACK_SIZE_FLOOR
    } else if scaled > KERNEL_STACK_SIZE_CEILING {
        KERNEL_STACK_SIZE_CEILING
    } else {
        scaled
    }
}

/// Pages of user stack each process gets: a 256th of the usable memory, within fixed bounds.
pub fn user_stack_pages(usable_ram_bytes: u64) -> (r: u64)
    ensures
        r == clamped(
            usable_ram_bytes as int / 1048576,
            USER_STACK_PAGES_FLOOR as int,
            USER_STACK_PAGES_CEILING as int,
        ),
{
    let scaled: u64 = usable_ram_bytes / 1048576;
    if scaled < USER_STACK_PAGES_FLOOR {
        USER_STACK_PAGES_FLOOR
    } else if scaled > USER_STACK_PAGES_CEILING {
        USER_STACK_PAGES_CEILING
    } else {
        scaled
    }
}

/// What a process is doing.
#[derive(Clone, Copy, PartialEq, Eq, Structural, Debug)]
pub enum ProcState {
    Ready,
    Running,
    Blocked(BlockReason),
    /// Ended, with the status its parent will read.
    Zombie(i32),
    /// Stopped by this signal.
    Stopped(u64),
}

/// What a blocked process waits for. A deadline of `u64::MAX` means none.
#[derive(Clone, Copy, PartialEq, Eq, Structural, Debug)]
pub enum BlockReason {
    /// Any child, or one given child.
    WaitingForChild(Option<Pid>),
    /// Bytes in this pipe.
    WaitingForPipeData(u64),
    /// Room in this pipe.
    WaitingForPipeSpace(u64),
    /// A byte from the keyboard.
    WaitingForStdin,
    /// This tick.
    Sleeping(u64),
    /// Any signal that it does not block.
    WaitingForSignal,
    /// A message in this queue, until a deadline.
    WaitingForMqData(u64, u64),
    /// Room in this queue, until a deadline.
    WaitingForMqSpace(u64, u64),
    /// Room in this System V queue.
    WaitingForSysvMsgSend(u64),
    /// A message in this System V queue.
    WaitingForSysvMsgRecv(u64),
    /// Set, semaphore, whether for zero, deadline.
    WaitingForSemOp(u64, u16, bool, u64),
    /// Any signal of a set, until a deadline.
    WaitingForSpecificSignal(u64, u64),
    /// Thread group, address, deadline.
    WaitingForFutex(u64, u64, u64),
}

pub const SIGHUP: u64 = 1;
pub const SIGINT: u64 = 2;
pub const SIGQUIT: u64 = 3;
pub const SIGILL: u64 = 4;
pub const SIGTRAP: u64 = 5;
pub const SIGABRT: u64 = 6;
pub const SIGBUS: u64 = 7;
pub const SIGFPE: u64 = 8;
pub const SIGKILL: u64 = 9;
pub const SIGUSR1: u64 = 10;
pub const SIGSEGV: u64 = 11;
pub const SIGUSR2: u64 = 12;
pub const SIGPIPE: u64 = 13;
pub const SIGALRM: u64 = 14;
pub const SIGTERM: u64 = 15;
pub const SIGCHLD: u64 = 17;
pub const SIGCONT: u64 = 18;
pub const SIGSTOP: u64 = 19;
pub const SIGTSTP: u64 = 20;
pub const SIGTTIN: u64 = 21;
pub const SIGTTOU: u64 = 22;
pub const SIGURG: u64 = 23;
pub const SIGXCPU: u64 = 24;
pub const SIGXFSZ: u64 = 25;
pub const SIGVTALRM: u64 = 26;
pub const SIGPROF: u64 = 27;
pub const SIGWINCH: u64 = 28;
pub const SIGIO: u64 = 29;
pub const SIGSYS: u64 = 31;
/// First real-time signal.
pub const SIGRTMIN: u64 = 35;
/// Last real-time signal.
pub const SIGRTMAX: u64 = 64;
/// How many real-time signals there are.
pub const RT_SIGNAL_COUNT: usize = 30;
/// How many instances of one real-time signal can wait.
pub const RT_QUEUE_CAP: usize = 16;

/// One signal's disposition: handler `0` is the default, `1` is to ignore, anything else is the
/// address of a handler.
#[derive(Clone, Copy, PartialEq, Eq, Structural, Debug)]
pub struct SigAction {
    pub handler: u64,
    pub flags: u64,
    pub restorer: u64,
    pub mask: u64,
}

/// The disposition every signal starts with.
pub open spec fn default_action() -> SigAction {
    SigAction { handler: 0, flags: 0, restorer: 0, mask: 0 }
}

impl Default for SigAction {
    fn default() -> (r: Self)
        ensures
            r == default_action(),
    {
        SigAction { handler: 0, flags: 0, restorer: 0, mask: 0 }
    }
}

/// Sent by `kill`.
pub const SI_USER: i32 = 0;
/// Sent by `sigqueue`.
pub const SI_QUEUE: i32 = -1;

/// Who sent a pending signal, and with what value.
#[derive(Clone, Copy, PartialEq, Eq, Structural, Debug)]
pub struct QueuedSigInfo {
    pub code: i32,
    pub pid: Pid,
    pub uid: u32,
    pub value: u64,
}

/// A sender record before anything was sent.
pub open spec fn no_siginfo() -> QueuedSigInfo {
    QueuedSigInfo { code: 0, pid: 0, uid: 0, value: 0 }
}

impl Default for QueuedSigInfo {
    fn default() -> (r: Self)
        ensures
            r == no_siginfo(),
    {
        QueuedSigInfo { code: 0, pid: 0, uid: 0, value: 0 }
    }
}

/// Reported when a handler runs on the alternate stack; cannot be set.
pub const SS_ONSTACK: i32 = 1;
/// No alternate stack.
pub const SS_DISABLE: i32 = 2;

/// Where the alternate signal stack is, if one was set.
#[derive(Clone, Copy, PartialEq, Eq, Structural, Debug)]
pub struct AltStack {
    pub sp: u64,
    pub flags: i32,
    pub size: u64,
}

/// No alternate stack established.
pub open spec fn no_altstack() -> AltStack {
    AltStack { sp: 0, flags: SS_DISABLE, size: 0 }
}

impl Default for AltStack {
    fn default() -> (r: Self)
        ensures
            r == no_altstack(),
    {
        AltStack { sp: 0, flags: SS_DISABLE, size: 0 }
    }
}

/// How many timers a process can have at once.
pub const MAX_POSIX_TIMERS: usize = 8;

/// One timer made by `timer_create`.
#[derive(Clone, Copy, PartialEq, Eq, Structural, Debug)]
pub struct PosixTimer {
    /// The clock that absolute times are given in.
    pub clockid: u64,
    /// The signal to raise, or `0` for none.
    pub signo: u64,
    /// The tick it fires at, if armed.
    pub deadline: Option<u64>,
    /// Ticks between firings, or `0` for a single one.
    pub interval_ticks: u64,
    /// Firings since the last one that was delivered.
    pub overrun: u32,
}

/// A handler runs without its own signal being blocked.
pub const SA_NODEFER: u64 = 0x4000_0000;
/// A handler takes the sender's record.
pub const SA_SIGINFO: u64 = 0x0000_0004;

/// The registers of an interrupted program.
#[derive(Clone, Copy, PartialEq, Eq, Structural, Debug)]
pub struct SyscallFrame {
    pub rax: u64,
    pub rbx: u64,
    pub rcx: u64,
    pub rdx: u64,
    pub rsi: u64,
    pub rdi: u64,
    pub rbp: u64,
    pub r8: u64,
    pub r9: u64,
    pub r10: u64,
    pub r11: u64,
    pub r12: u64,
    pub r13: u64,
    pub r14: u64,
    pub r15: u64,
    pub user_rsp: u64,
}

/// What `sigreturn` goes back to.
#[derive(Clone, Copy, PartialEq, Eq, Structural, Debug)]
pub struct SignalStackFrame {
    pub saved: SyscallFrame,
    pub blocked_before: u64,
}

/// A process control block.
pub struct Process {
    pub pid: Pid,
    /// The thread group, which is what `getpid` answers.
    pub tgid: Pid,
    pub parent: Option<Pid>,
    pub children: Vec<Pid>,
    pub state: ProcState,
    /// The root of its page tables; none once they were given back.
    pub address_space: Option<u64>,
    pub kernel_stack_top: u64,
    /// The saved kernel stack pointer.
    pub rsp: u64,
    pub entry_point: u64,
    /// The stack pointer that its program starts with.
    pub user_stack_top: u64,
    pub brk: u64,
    pub fs_base: u64,
    pub cwd: u64,
    pub root_inode: u64,
    /// Bit `n - 1` says that signal `n` waits to be delivered.
    pub pending_signals: u64,
    /// Bit `n - 1` says that signal `n` is held back.
    pub blocked_signals: u64,
    pub sigactions: [SigAction; 65],
    /// The handlers in progress, innermost last.
    pub signal_stack: Vec<SignalStackFrame>,
    pub altstack: AltStack,
    pub priority: u8,
    pub pgid: Pid,
    pub sid: Pid,
    pub comm: Vec<u8>,
    pub cmdline: Vec<u8>,
    pub real_timer_deadline: Option<u64>,
    pub real_timer_interval_ticks: u64,
    pub posix_timers: [Option<PosixTimer>; 8],
    pub uid: u32,
    pub gid: u32,
    pub rlimits: [(u64, u64); 16],
    pub nice: i32,
    pub sched_policy: i32,
    pub sched_priority: i32,
    pub umask: u32,
    /// A stop that its parent has not seen yet.
    pub stop_notify_pending: bool,
    /// A resumption that its parent has not seen yet.
    pub cont_notify_pending: bool,
    pub sigsuspend_restore_mask: Option<u64>,
    pub sysv_sem_undo: Vec<(i32, u16, i32)>,
    pub sysv_shm_attach: Vec<(u64, i32)>,
    pub mmap_file_regions: Vec<MmapFileRegion>,
    pub pending_siginfo: [QueuedSigInfo; 32],
    /// One queue for each real-time signal.
    pub rt_queue: Vec<Vec<QueuedSigInfo>>,
    pub fpu_state: [u8; 512],
    pub cpu_ticks: u64,
}

/// A process as contracts see it.
#[verifier::ext_equal]
pub struct ProcView {
    pub pid: Pid,
    pub tgid: Pid,
    pub parent: Option<Pid>,
    pub children: Seq<Pid>,
    pub state: ProcState,
    pub address_space: Option<u64>,
    pub kernel_stack_top: u64,
    pub rsp: u64,
    pub entry_point: u64,
    pub user_stack_top: u64,
    pub brk: u64,
    pub fs_base: u64,
    pub cwd: u64,
    pub root_inode: u64,
    pub pending_signals: u64,
    pub blocked_signals: u64,
    pub sigactions: Seq<SigAction>,
    pub signal_stack: Seq<SignalStackFrame>,
    pub altstack: AltStack,
    pub priority: u8,
    pub pgid: Pid,
    pub sid: Pid,
    pub comm: Seq<u8>,
    pub cmdline: Seq<u8>,
    pub real_timer_deadline: Option<u64>,
    pub real_timer_interval_ticks: u64,
    pub posix_timers: Seq<Option<PosixTimer>>,
    pub uid: u32,
    pub gid: u32,
    pub rlimits: Seq<(u64, u64)>,
    pub nice: i32,
    pub sched_policy: i32,
    pub sched_priority: i32,
    pub umask: u32,
    pub stop_notify_pending: bool,
    pub cont_notify_pending: bool,
    pub sigsuspend_restore_mask: Option<u64>,
    pub sysv_sem_undo: Seq<(i32, u16, i32)>,
    pub sysv_shm_attach: Seq<(u64, i32)>,
    pub mmap_file_regions: Seq<MmapFileRegion>,
    pub pending_siginfo: Seq<QueuedSigInfo>,
    pub rt_queue: Seq<Seq<QueuedSigInfo>>,
    pub fpu_state: Seq<u8>,
    pub cpu_ticks: u64,
}

/// The queues of the real-time signals as sequences.
pub open spec fn queues(q: Seq<Vec<QueuedSigInfo>>) -> Seq<Seq<QueuedSigInfo>> {
    Seq::new(q.len(), |i: int| q[i]@)
}

impl View for Process {
    type V = ProcView;

    open spec fn view(&self) -> ProcView {
        ProcView {
            pid: self.pid,
            tgid: self.tgid,
            parent: self.parent,
            children: self.children@,
            state: self.state,
            address_space: self.address_space,
            kernel_stack_top: self.kernel_stack_top,
            rsp: self.rsp,
            entry_point: self.entry_point,
            user_stack_top: self.user_stack_top,
            brk: self.brk,
            fs_base: self.fs_base,
            cwd: self.cwd,
            root_inode: self.root_inode,
            pending_signals: self.pending_signals,
            blocked_signals: self.blocked_signals,
            sigactions: self.sigactions@,
            signal_stack: self.signal_stack@,
            altstack: self.altstack,
            priority: self.priority,
            pgid: self.pgid,
            sid: self.sid,
            comm: self.comm@,
            cmdline: self.cmdline@,
            real_timer_deadline: self.real_timer_deadline,
            real_timer_interval_ticks: self.real_timer_interval_ticks,
            posix_timers: self.posix_timers@,
            uid: self.uid,
            gid: self.gid,
            rlimits: self.rlimits@,
            nice: self.nice,
            sched_policy: self.sched_policy,
            sched_priority: self.sched_priority,
            umask: self.umask,
            stop_notify_pending: self.stop_notify_pending,
            cont_notify_pending: self.cont_notify_pending,
            sigsuspend_restore_mask: self.sigsuspend_restore_mask,
            sysv_sem_undo: self.sysv_sem_undo@,
            sysv_shm_attach: self.sysv_shm_attach@,
            mmap_file_regions: self.mmap_file_regions@,
            pending_siginfo: self.pending_siginfo@,
            rt_queue: queues(self.rt_queue@),
            fpu_state: self.fpu_state@,
            cpu_ticks: self.cpu_ticks,
        }
    }
}

/// The mask with only the bit of `sig`.
pub open spec fn bit_of(sig: u64) -> u64 {
    1u64 << ((sig - 1) as u64)
}

/// Whether `sig` is in `mask`.
pub open spec fn has_sig(mask: u64, sig: u64) -> bool {
    mask & bit_of(sig) != 0
}

/// A real-time signal is pending exactly while its queue holds something, no queue is overfull,
/// and the numbers between the two ranges are never pending.
pub open spec fn signals_ok(p: ProcView) -> bool {
    &&& p.rt_queue.len() == RT_SIGNAL_COUNT
    &&& forall|s: u64|
        SIGRTMIN <= s <= SIGRTMAX ==> (#[trigger] has_sig(p.pending_signals, s)
            <==> p.rt_queue[s - SIGRTMIN].len() > 0)
    &&& forall|i: int| 0 <= i < RT_SIGNAL_COUNT ==> (#[trigger] p.rt_queue[i]).len() <= RT_QUEUE_CAP
    &&& forall|s: u64| 32 <= s <= 34 ==> !#[trigger] has_sig(p.pending_signals, s)
}

/// The tables of a process have their fixed sizes and its signal bookkeeping is consistent.
pub open spec fn proc_ok(p: ProcView) -> bool {
    &&& p.sigactions.len() == 65
    &&& p.posix_timers.len() == MAX_POSIX_TIMERS
    &&& p.rlimits.len() == 16
    &&& p.pending_siginfo.len() == 32
    &&& regions_ok(p.mmap_file_regions)
    &&& -20 <= p.nice <= 19
    &&& known_policy(p.sched_policy)
    &&& signals_ok(p)
}

/// The kernel's state: every process, who may run, and what is owed to the rest of the system.
pub struct Kernel {
    pub procs: OrdMap<Process>,
    /// Processes ready to run, first come first.
    pub ready: VecDeque<Pid>,
    /// The running process; `0` before the first one.
    pub current: Pid,
    pub next_pid: Pid,
    /// Ended processes whose memory is to be given back at the next switch.
    pub reaps: Vec<(Pid, ReapKind)>,
    /// Ended processes whose descriptors, semaphore adjustments and shared memory are to be
    /// released, in the order they ended.
    pub exits: Vec<Pid>,
    /// The session that owns the console; `0` for none.
    pub controlling_session: Pid,
    pub boot_cwd: u64,
    pub boot_root: u64,
    pub mem: MappingState,
}

/// The kernel's state as contracts see it.
#[verifier::ext_equal]
pub struct KernelView {
    pub procs: Map<Pid, ProcView>,
    /// The pids of `procs`, ascending.
    pub pids: Seq<Pid>,
    pub ready: Seq<Pid>,
    pub current: Pid,
    pub next_pid: Pid,
    pub reaps: Seq<(Pid, ReapKind)>,
    pub exits: Seq<Pid>,
    pub controlling_session: Pid,
    pub boot_cwd: u64,
    pub boot_root: u64,
    pub mem: MappingView,
}

/// A table of processes with each seen through its view.
pub open spec fn proc_views(m: Map<u64, Process>) -> Map<Pid, ProcView> {
    Map::new(|k: u64| m.contains_key(k), |k: u64| m[k]@)
}

/// Replacing one process replaces its view.
pub broadcast proof fn lemma_views_insert(m: Map<u64, Process>, k: u64, p: Process)
    ensures
        #[trigger] proc_views(m.insert(k, p)) == proc_views(m).insert(k, p@),
{
    assert(proc_views(m.insert(k, p)) =~= proc_views(m).insert(k, p@));
}

/// Removing one process removes its view.
pub broadcast proof fn lemma_views_remove(m: Map<u64, Process>, k: u64)
    ensures
        #[trigger] proc_views(m.remove(k)) == proc_views(m).remove(k),
{
    assert(proc_views(m.remove(k)) =~= proc_views(m).remove(k));
}

pub broadcast group group_views {
    lemma_views_insert,
    lemma_views_remove,
}

impl View for Kernel {
    type V = KernelView;

    open spec fn view(&self) -> KernelView {
        KernelView {
            procs: proc_views(self.procs@),
            pids: self.procs.order(),
            ready: self.ready@,
            current: self.current,
            next_pid: self.next_pid,
            reaps: self.reaps@,
            exits: self.exits@,
            controlling_session: self.controlling_session,
            boot_cwd: self.boot_cwd,
            boot_root: self.boot_root,
            mem: self.mem@,
        }
    }
}

/// Every process is consistent and filed under its own pid, and no pid was handed out early.
pub open spec fn kernel_ok(s: KernelView) -> bool {
    &&& forall|pid: Pid|
        #![trigger s.procs.contains_key(pid)]
        #![trigger s.procs[pid]]
        s.procs.contains_key(pid) ==> proc_ok(s.procs[pid]) && s.procs[pid].pid == pid && 1 <= pid
            < s.next_pid
    &&& s.next_pid >= 1
}

impl Kernel {
    /// The table and the mappings are well formed and their contents consistent.
    pub open spec fn wf(&self) -> bool {
        &&& self.procs.wf()
        &&& self.mem.wf()
        &&& kernel_ok(self@)
    }

    /// A kernel with no process yet.
    pub fn new() -> (k: Self)
        ensures
            k.wf(),
            k@ == empty_kernel(),
    {
        let k = Kernel {
            procs: OrdMap::new(),
            ready: VecDeque::new(),
            current: 0,
            next_pid: 1,
            reaps: Vec::new(),
            exits: Vec::new(),
            controlling_session: 0,
            boot_cwd: 0,
            boot_root: 0,
            mem: MappingState::new(),
        };
        assert(k@.procs =~= Map::<Pid, ProcView>::empty());
        k
    }
}

/// The state before the first process.
pub open spec fn empty_kernel() -> KernelView {
    KernelView {
        procs: Map::empty(),
        pids: Seq::empty(),
        ready: Seq::empty(),
        current: 0,
        next_pid: 1,
        reaps: Seq::empty(),
        exits: Seq::empty(),
        controlling_session: 0,
        boot_cwd: 0,
        boot_root: 0,
        mem: crate::process::mm::empty_mappings(),
    }
}

/// `s` with process `pid` replaced by `p`.
pub open spec fn with_proc(s: KernelView, pid: Pid, p: ProcView) -> KernelView {
    KernelView { procs: s.procs.insert(pid, p), ..s }
}

/// `s` with process `pid` in another state.
pub open spec fn with_state(s: KernelView, pid: Pid, state: ProcState) -> KernelView {
    with_proc(s, pid, ProcView { state, ..s.procs[pid] })
}

/// How a call that may have to wait went on.
#[derive(Clone, Copy, PartialEq, Eq, Debug)]
pub enum Step {
    /// It is over, with this answer.
    Done(Result<u64, u64>),
    /// The caller now blocks; the call is to be made again when it next runs.
    Block,
}

} // verus!

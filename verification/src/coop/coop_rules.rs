//! What the calls of the cooperative kernel lead to, in plain terms.

use vstd::prelude::*;

use crate::addr::{page_floor, pages_for};
use crate::coop::{
    can_run, coop_ok, lemma_all_woken, lemma_filtered, roused, waits, BlockReason, CoopView, Pid,
    ProcState, ProcView,
};
use crate::coop::lifecycle::{
    born, buried, exited, first_over, forked, none_over, replaced, spawned, wait_outcome,
    ProgramImage, WaitStep,
};
use crate::coop::memory::{reserved, with_brk};
use crate::coop::pipe::{end_closed, piped, taken, with_data, End, PipeEnd, PipesView};
use crate::coop::scheduler::{next_action, picked, requeued, started};
use crate::coop::stdin::pushed;
use crate::errno::ECHILD;
use crate::process::lifecycle::ExecImage;
use crate::process::scheduler::SchedAction;

verus! {

// ---------------------------------------------------------------------------------------------
// Waiting for children
// ---------------------------------------------------------------------------------------------
/// Whether a wait for `target` is for process `pid`.
pub open spec fn means(target: i64, pid: Pid) -> bool {
    target == -1 || target == pid
}

/// No end of a child is missed: a process that waits, for any child or for this one, is made ready
/// and put last in the queue when the child ends; one that waits for another, or for nobody, is
/// left alone.
pub proof fn law_no_lost_wakeup(
    s: CoopView,
    t: CoopView,
    parent: Pid,
    child: Pid,
    target: i64,
    code: i32,
)
    requires
        s.procs.contains_key(parent),
        s.procs.contains_key(child),
        parent != child,
        s.procs[child].parent == Some(parent),
        target >= -1,
        wait_outcome(s, t, parent, target, WaitStep::Block),
    ensures
        ({
            let u = exited(t, child, code);
            &&& u.procs[child].state == ProcState::Zombie(code)
            &&& means(target, child) ==> u.procs[parent].state == ProcState::Ready && u.ready
                == t.ready.push(parent)
            &&& !means(target, child) ==> u.procs[parent] == t.procs[parent] && u.ready == t.ready
            &&& forall|o: Pid| o != parent && o != child ==> #[trigger] u.procs[o] == s.procs[o]
        }),
{
}

/// A process that ends: it keeps its code until its parent asks, and everybody else but a parent
/// that waits stays as it is.
pub proof fn law_ends(s: CoopView, pid: Pid, code: i32)
    requires
        s.procs.contains_key(pid),
        s.procs[pid].parent != Some(pid),
    ensures
        ({
            let t = exited(s, pid, code);
            &&& t.procs[pid] == (ProcView { state: ProcState::Zombie(code), ..s.procs[pid] })
            &&& t.procs.dom() == s.procs.dom() && t.pids == s.pids && t.current == s.current
            &&& forall|o: Pid|
                o != pid && s.procs[pid].parent != Some(o) ==> #[trigger] t.procs[o] == s.procs[o]
            &&& forall|o: Pid|
                o != pid && !(s.procs[o].state is Blocked) ==> #[trigger] t.procs[o] == s.procs[o]
        }),
{
    let t = exited(s, pid, code);
    assert(t.procs.dom() =~= s.procs.dom());
}

/// What a wait comes to: an error where no child is meant; where one is over, its number and code,
/// and it is gone; otherwise the caller waits.
pub proof fn law_wait(s: CoopView, t: CoopView, caller: Pid, target: i64, r: WaitStep)
    requires
        coop_ok(s),
        s.procs.contains_key(caller),
        !s.procs[caller].children.contains(caller),
        target >= -1,
        wait_outcome(s, t, caller, target, r),
    ensures
        ({
            let kids = s.procs[caller].children;
            let meant = exists|c: Pid| kids.contains(c) && #[trigger] means(target, c);
            let over = exists|c: Pid|
                kids.contains(c) && #[trigger] means(target, c) && s.procs.contains_key(c)
                    && s.procs[c].state is Zombie;
            &&& !meant ==> r == WaitStep::Failed(ECHILD) && t == s
            &&& over <==> r is Reaped
            &&& r matches WaitStep::Reaped { pid, code } ==> {
                &&& kids.contains(pid) && means(target, pid)
                &&& s.procs[pid].state == ProcState::Zombie(code)
                &&& !t.procs.contains_key(pid)
                &&& !t.procs[caller].children.contains(pid)
                &&& forall|c: Pid|
                    c != pid ==> (#[trigger] t.procs[caller].children.contains(c)
                        <==> kids.contains(c))
                &&& forall|o: Pid| o != pid && o != caller ==> #[trigger] t.procs[o] == s.procs[o]
                &&& t.procs[caller].state == s.procs[caller].state
            }
            &&& meant && !over ==> {
                &&& r == WaitStep::Block
                &&& t.procs[caller].state == ProcState::Blocked(
                    BlockReason::WaitingForChild(
                        if target == -1 {
                            None
                        } else {
                            Some(target as u64)
                        },
                    ),
                )
                &&& t.procs[caller].children == kids
                &&& t.ready == s.ready
                &&& forall|o: Pid| o != caller ==> #[trigger] t.procs[o] == s.procs[o]
            }
        }),
{
    let kids = s.procs[caller].children;
    if crate::coop::lifecycle::any_target(kids, target) {
        let j = choose|j: int|
            0 <= j < kids.len() && crate::coop::lifecycle::is_target(target, #[trigger] kids[j]);
        assert(kids.contains(kids[j]) && means(target, kids[j]));
    } else {
        assert forall|c: Pid| kids.contains(c) implies !#[trigger] means(target, c) by {
            let j = kids.index_of(c);
            assert(!crate::coop::lifecycle::is_target(target, kids[j]));
        }
    }
    if none_over(s, kids, target) {
        assert forall|c: Pid|
            kids.contains(c) && #[trigger] means(target, c) && s.procs.contains_key(
                c,
            ) implies !(s.procs[c].state is Zombie) by {
            let j = kids.index_of(c);
            assert(!(crate::coop::lifecycle::is_target(target, kids[j])
                && crate::coop::lifecycle::is_zombie(s, kids[j])));
        }
    } else {
        let j = choose|j: int|
            0 <= j < kids.len() && crate::coop::lifecycle::is_target(target, #[trigger] kids[j])
                && crate::coop::lifecycle::is_zombie(s, kids[j]);
        assert(kids.contains(kids[j]) && means(target, kids[j]));
    }
    if let WaitStep::Reaped { pid, code } = r {
        let i = choose|i: int|
            {
                &&& #[trigger] first_over(s, kids, target, i)
                &&& r == (WaitStep::Reaped {
                    pid: kids[i],
                    code: s.procs[kids[i]].state->Zombie_0,
                })
                &&& t == buried(s, caller, kids[i])
            };
        assert(kids.contains(kids[i]));
        lemma_filtered(kids, crate::ordmap::other_than(pid));
        assert(t.procs[caller].children == kids.filter(crate::ordmap::other_than(pid)));
        assert forall|c: Pid| c != pid implies (#[trigger] t.procs[caller].children.contains(c)
            <==> kids.contains(c)) by {
            let keep = crate::ordmap::other_than(pid);
            assert(keep(c));
        }
        let keep = crate::ordmap::other_than(pid);
        assert(!keep(pid));
    }
}

/// The eldest child that is over is reported first.
pub proof fn law_eldest_first(s: CoopView, t: CoopView, caller: Pid, r: WaitStep, i: int, j: int)
    requires
        s.procs.contains_key(caller),
        wait_outcome(s, t, caller, -1i64, r),
        0 <= j < i < s.procs[caller].children.len(),
        s.procs[caller].children.no_duplicates(),
        s.procs.contains_key(s.procs[caller].children[j]),
        s.procs[s.procs[caller].children[j]].state is Zombie,
    ensures
        r matches WaitStep::Reaped { pid, code } ==> pid != s.procs[caller].children[i],
{
    let kids = s.procs[caller].children;
    assert(crate::coop::lifecycle::is_target(-1i64, kids[j]));
    assert(crate::coop::lifecycle::is_zombie(s, kids[j]));
    if let WaitStep::Reaped { pid, code } = r {
        let k = choose|k: int|
            {
                &&& #[trigger] first_over(s, kids, -1i64, k)
                &&& r == (WaitStep::Reaped {
                    pid: kids[k],
                    code: s.procs[kids[k]].state->Zombie_0,
                })
                &&& t == buried(s, caller, kids[k])
            };
        assert(k <= j);
        assert(kids[k] == pid);
        if pid == kids[i] {
            assert(k == i);
        }
    }
}

// ---------------------------------------------------------------------------------------------
// New processes and programs
// ---------------------------------------------------------------------------------------------
/// A process that splits off goes on where its parent is, with its parent's heap and thread base;
/// it is new, has no children, can run, comes last, and is its parent's last child. Nobody else
/// changes.
pub proof fn law_fork(s: CoopView, parent: Pid, space: u64, stack: u64, rsp: u64)
    requires
        coop_ok(s),
        s.procs.contains_key(parent),
        s.next_pid < 0xffff_ffff_ffff_ffff,
    ensures
        ({
            let t = born(s, Some(parent), forked(s, parent, space, stack, rsp));
            let c = t.procs[s.next_pid];
            &&& !s.procs.contains_key(s.next_pid)
            &&& c.pid == s.next_pid && c.parent == Some(parent) && c.children.len() == 0
            &&& c.state == ProcState::Ready
            &&& c.address_space == space && c.kernel_stack_top == stack && c.rsp == rsp
            &&& c.brk == s.procs[parent].brk && c.fs_base == s.procs[parent].fs_base && c.priority
                == 0 && c.entry_point == 0 && c.user_stack_top == 0
            &&& t.procs[parent] == (ProcView {
                children: s.procs[parent].children.push(s.next_pid),
                ..s.procs[parent]
            })
            &&& t.ready == s.ready.push(s.next_pid) && t.pids == s.pids.push(s.next_pid)
            &&& t.next_pid == s.next_pid + 1 && t.current == s.current
            &&& forall|o: Pid|
                o != parent && o != s.next_pid ==> #[trigger] t.procs[o] == s.procs[o]
        }),
{
}

/// A process made from a program starts where the program says, with the program's memory, heap
/// and stack.
pub proof fn law_spawn(pid: Pid, parent: Option<Pid>, image: ProgramImage)
    ensures
        ({
            let c = spawned(pid, parent, image);
            &&& c.pid == pid && c.parent == parent && c.children.len() == 0
            &&& c.state == ProcState::Ready
            &&& c.address_space == image.address_space && c.kernel_stack_top
                == image.kernel_stack_top && c.rsp == image.rsp
            &&& c.entry_point == image.entry && c.user_stack_top == image.initial_rsp
            &&& c.brk == image.brk && c.fs_base == 0 && c.priority == 0
        }),
{
}

/// A program that takes over brings its memory, heap, stack and start, and no thread base; the
/// process stays who it is.
pub proof fn law_exec(p: ProcView, image: ExecImage)
    ensures
        ({
            let q = replaced(p, image);
            &&& q.address_space == image.address_space && q.user_stack_top == image.initial_rsp
            &&& q.entry_point == image.entry && q.brk == image.brk && q.fs_base == 0
            &&& q.pid == p.pid && q.parent == p.parent && q.children == p.children && q.state
                == p.state && q.kernel_stack_top == p.kernel_stack_top && q.rsp == p.rsp && q.priority
                == p.priority
        }),
{
}

// ---------------------------------------------------------------------------------------------
// Turns
// ---------------------------------------------------------------------------------------------
/// Turns go round: who runs and can go on goes to the end of the queue, and the first of the queue
/// runs; with nobody in it, nobody does.
pub proof fn law_turns(s: CoopView)
    requires
        coop_ok(s),
        s.current != 0 ==> s.procs.contains_key(s.current),
    ensures
        ({
            let q = requeued(s);
            let goes_on = s.current != 0 && (s.procs[s.current].state == ProcState::Ready
                || s.procs[s.current].state == ProcState::Running);
            let t = picked(q);
            &&& goes_on ==> q.ready == s.ready.push(s.current)
            &&& !goes_on ==> q.ready == s.ready
            &&& q.procs == s.procs && q.current == s.current
            &&& q.ready.len() == 0 <==> next_action(q) == SchedAction::Idle
            &&& q.ready.len() == 0 ==> t == q
            &&& q.ready.len() > 0 ==> {
                &&& t.current == q.ready[0]
                &&& t.procs[q.ready[0]].state == ProcState::Running
                &&& t.ready == q.ready.skip(1)
                &&& q.ready[0] == s.current ==> next_action(q) == SchedAction::Continue
                &&& q.ready[0] != s.current ==> (next_action(q) matches SchedAction::Switch(w)
                    && w.from == s.current && w.to == q.ready[0] && w.address_space
                    == s.procs[q.ready[0]].address_space && w.kernel_stack_top
                    == s.procs[q.ready[0]].kernel_stack_top && w.fs_base
                    == s.procs[q.ready[0]].fs_base && w.rsp == s.procs[q.ready[0]].rsp)
                &&& forall|o: Pid| o != q.ready[0] ==> #[trigger] t.procs[o] == s.procs[o]
            }
        }),
{
    let q = requeued(s);
    if q.ready.len() > 0 {
        assert(q.ready.drop_first() =~= q.ready.skip(1));
    }
}

/// The process that starts first leaves the queue and runs; the others keep their places.
pub proof fn law_start(s: CoopView, pid: Pid, o: Pid)
    requires
        o != pid,
    ensures
        ({
            let t = started(s, pid);
            &&& t.current == pid && t.procs[pid].state == ProcState::Running
            &&& !t.ready.contains(pid)
            &&& t.ready.contains(o) <==> s.ready.contains(o)
            &&& t.procs[o] == s.procs[o]
        }),
{
    let keep = crate::ordmap::other_than(pid);
    lemma_filtered(s.ready, keep);
    assert(keep(o) && !keep(pid));
    assert(started(s, pid).ready == s.ready.filter(keep));
}

/// Everybody who waits for something is woken when it comes, and nobody else.
pub proof fn law_roused(s: CoopView, reason: BlockReason, pid: Pid)
    requires
        s.procs.contains_key(pid),
        s.pids.contains(pid),
        forall|i: int| 0 <= i < s.pids.len() ==> s.procs.contains_key(#[trigger] s.pids[i]),
    ensures
        ({
            let t = roused(s, reason);
            &&& s.procs[pid].state == ProcState::Blocked(reason) ==> t.procs[pid].state
                == ProcState::Ready && t.ready.contains(pid)
            &&& s.procs[pid].state != ProcState::Blocked(reason) ==> t.procs[pid] == s.procs[pid]
            &&& s.ready.is_prefix_of(t.ready)
            &&& t.current == s.current
        }),
{
    let list = s.pids.filter(waits(s, reason));
    lemma_filtered(s.pids, waits(s, reason));
    assert forall|i: int| 0 <= i < list.len() implies s.procs.contains_key(#[trigger] list[i]) by {
        assert(list.contains(list[i]));
    }
    lemma_all_woken(s, list);
    let t = roused(s, reason);
    assert(t.ready == s.ready + list);
    if s.procs[pid].state == ProcState::Blocked(reason) {
        assert(list.contains(pid));
        let i = list.index_of(pid);
        assert((s.ready + list)[s.ready.len() + i] == pid);
    } else {
        assert(!list.contains(pid));
    }
}

// ---------------------------------------------------------------------------------------------
// Pipes and the keyboard
// ---------------------------------------------------------------------------------------------
/// A new pipe is empty and open at both ends, the first descriptor to read from it and the second
/// to write to it; the others stay.
pub proof fn law_pipe_new(s: PipesView, r: u64, w: u64)
    requires
        r != w,
        s.next_id < 0xffff_ffff_ffff_ffff,
    ensures
        ({
            let t = piped(s, r, w);
            let id = s.next_id;
            &&& t.ends[r] == (PipeEnd { id, end: End::Read })
            &&& t.ends[w] == (PipeEnd { id, end: End::Write })
            &&& t.ends.contains_key(r) && t.ends.contains_key(w) && t.pipes.contains_key(id)
            &&& t.pipes[id].data.len() == 0 && !t.pipes[id].read_closed
                && !t.pipes[id].write_closed
            &&& t.next_id == id + 1
            &&& forall|o: u64| o != id ==> #[trigger] t.pipes[o] == s.pipes[o]
            &&& forall|o: u64| o != r && o != w ==> #[trigger] t.ends[o] == s.ends[o]
        }),
{
}

/// A reader gets what is there, up to the room it has.
pub proof fn law_pipe_taken(data: Seq<u8>, len: u64)
    ensures
        0 <= taken(data, len) <= data.len(),
        taken(data, len) <= len,
        taken(data, len) == len || taken(data, len) == data.len(),
        data.take(taken(data, len)) + data.skip(taken(data, len)) == data,
{
    assert(data.take(taken(data, len)) + data.skip(taken(data, len)) =~= data);
}

/// Other bytes in a pipe change nothing else.
pub proof fn law_pipe_filled(s: PipesView, id: u64, data: Seq<u8>)
    ensures
        ({
            let t = with_data(s, id, data);
            &&& t.pipes[id].data == data
            &&& t.pipes[id].read_closed == s.pipes[id].read_closed && t.pipes[id].write_closed
                == s.pipes[id].write_closed
            &&& t.ends == s.ends && t.next_id == s.next_id
            &&& forall|o: u64| o != id ==> #[trigger] t.pipes[o] == s.pipes[o]
        }),
{
}

/// A closed end is gone; the pipe knows which, keeps its bytes, and is gone itself once both are.
pub proof fn law_pipe_end_closed(s: PipesView, fd: u64)
    requires
        s.ends.contains_key(fd),
        s.pipes.contains_key(s.ends[fd].id),
    ensures
        ({
            let t = end_closed(s, fd);
            let id = s.ends[fd].id;
            let p = s.pipes[id];
            let reads = s.ends[fd].end == End::Read;
            let last = (reads && p.write_closed) || (!reads && p.read_closed) || (p.read_closed
                && p.write_closed);
            &&& !t.ends.contains_key(fd)
            &&& t.pipes.contains_key(id) <==> !last
            &&& !last ==> {
                &&& t.pipes[id].data == p.data
                &&& t.pipes[id].read_closed == (reads || p.read_closed)
                &&& t.pipes[id].write_closed == (!reads || p.write_closed)
            }
            &&& forall|o: u64|
                o != id ==> (#[trigger] t.pipes.contains_key(o) == s.pipes.contains_key(o))
                    && t.pipes[o] == s.pipes[o]
            &&& forall|o: u64|
                o != fd ==> (#[trigger] t.ends.contains_key(o) == s.ends.contains_key(o))
                    && t.ends[o] == s.ends[o]
        }),
{
}

/// A key that was hit waits behind the others, up to 256 of them; one too many is lost.
pub proof fn law_key(s: Seq<u8>, key: u8)
    ensures
        s.len() < 256 ==> pushed(s, key) == s.push(key),
        s.len() >= 256 ==> pushed(s, key) == s,
{
}

/// A reader of the keyboard gets what is there, up to the room it has.
pub proof fn law_keys_taken(s: Seq<u8>, room: usize)
    ensures
        ({
            let n = crate::coop::stdin::taken(s, room);
            0 <= n <= s.len() && n <= room && (n == room || n == s.len())
        }),
{
}

// ---------------------------------------------------------------------------------------------
// Memory
// ---------------------------------------------------------------------------------------------
/// A number of bytes takes as many pages of 4096 as cover it; an address lies in the page that
/// starts at or below it.
pub proof fn law_page_counts(n: u64)
    ensures
        pages_for(n) * 4096 >= n,
        pages_for(n) * 4096 < n + 4096,
        page_floor(n) % 4096 == 0,
        page_floor(n) <= n < page_floor(n) + 4096,
{
}

/// Addresses for a mapping are those behind the last, in whole pages.
pub proof fn law_mapping_reserved(s: CoopView, len: u64)
    requires
        s.next_mmap % 4096 == 0,
        s.next_mmap + len + 4096 <= 0xffff_ffff_ffff_ffff,
    ensures
        ({
            let t = reserved(s, len);
            &&& t.next_mmap % 4096 == 0
            &&& s.next_mmap + len <= t.next_mmap < s.next_mmap + len + 4096
            &&& t.procs == s.procs && t.ready == s.ready && t.current == s.current
        }),
{
}

/// The end of a heap is that process's alone.
pub proof fn law_heap_moved(s: CoopView, pid: Pid, top: u64)
    ensures
        ({
            let t = with_brk(s, pid, top);
            &&& t.procs[pid].brk == top
            &&& t.procs[pid].state == s.procs[pid].state && t.procs[pid].address_space
                == s.procs[pid].address_space
            &&& t.ready == s.ready
            &&& forall|o: Pid| o != pid ==> #[trigger] t.procs[o] == s.procs[o]
        }),
{
}

/// Who can run: who is ready, and who runs.
pub proof fn law_can_run(state: ProcState)
    ensures
        can_run(state) <==> !(state is Blocked) && !(state is Zombie),
{
}

} // verus!

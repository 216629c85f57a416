//! What programs read about processes and signals, byte by byte.

use vstd::prelude::*;

use crate::bytes::{le32_bytes, le64, le64_bytes};
use crate::net::net_rules::lemma_some_bit;
use crate::process::{
    has_sig, proc_ok, AltStack, KernelView, Pid, ProcState, ProcView, QueuedSigInfo, ReapKind,
    SigAction,
};
use crate::process::identity::{with_gid, with_pgid, with_uid};
use crate::process::lifecycle::{init_path, init_prompt, init_term, spawned, SpawnImage};
use crate::process::procfs::{
    available_label, cut, decimal, free_label, letter, meminfo_text, name_label, parent_number,
    pid_label, ppid_label, seconds_text, stat_field, stat_fields, stat_global_text, stat_text,
    state_label, state_name, status_text, tgid_label, threads_line, total_label,
};
use crate::process::scheduler::{reap_each, reap_spaces, reaped};
use crate::process::signals::{
    discarded, left, lemma_discarded, lemma_masks, sendable, siginfo_layout, signal_waiting,
    with_action, with_altstack, with_mask,
};

verus! {

// ---------------------------------------------------------------------------------------------
// Numbers
// ---------------------------------------------------------------------------------------------
/// A number is written in decimal digits, without a zero in front.
pub proof fn law_digits(n: nat)
    ensures
        decimal(n).len() > 0,
        forall|i: int| 0 <= i < decimal(n).len() ==> 48 <= #[trigger] decimal(n)[i] <= 57,
        n > 0 ==> decimal(n)[0] != 48,
        n < 10 <==> decimal(n).len() == 1,
        decimal(n).last() == 48 + n % 10,
    decreases n,
{
    if n >= 10 {
        law_digits(n / 10);
        let d = decimal(n / 10);
        assert(decimal(n) == d.push((48 + n % 10) as u8));
    }
}

/// A text that does not fit is cut at the room there is.
pub proof fn law_cut(text: Seq<u8>, room: u64)
    ensures
        cut(text, room).len() <= room,
        cut(text, room).is_prefix_of(text),
        text.len() <= room ==> cut(text, room) == text,
        text.len() > room ==> cut(text, room).len() == room,
{
}

/// A time in seconds has two decimals, the hundredths.
pub proof fn law_seconds(ticks: u64)
    ensures
        ({
            let t = seconds_text(ticks);
            let w = decimal((ticks / 100) as nat);
            let n = w.len() as int;
            &&& t.len() == n + 3
            &&& t.take(n) == w
            &&& t[n] == 46
            &&& 48 <= t[n + 1] <= 57 && 48 <= t[n + 2] <= 57
            &&& (t[n + 1] - 48) * 10 + (t[n + 2] - 48) == ticks % 100
        }),
{
    let t = seconds_text(ticks);
    let w = decimal((ticks / 100) as nat);
    let c = (ticks % 100) as nat;
    assert(c == (ticks % 100) * 100 / 100);
    law_digits(c);
    if c >= 10 {
        law_digits(c / 10);
        assert(decimal(c) == decimal(c / 10).push((48 + c % 10) as u8));
        assert(decimal(c / 10) == seq![(48 + c / 10) as u8]);
        assert(decimal(c)[0] == 48 + c / 10);
    }
    assert(t.take(w.len() as int) =~= w);
}

// ---------------------------------------------------------------------------------------------
// Processes
// ---------------------------------------------------------------------------------------------
/// The letter of each state.
pub proof fn law_letters(state: ProcState)
    ensures
        letter(state) == (match state {
            ProcState::Ready => 'R' as u8,
            ProcState::Running => 'R' as u8,
            ProcState::Blocked(_) => 'S' as u8,
            ProcState::Zombie(_) => 'Z' as u8,
            ProcState::Stopped(_) => 'T' as u8,
        }),
        state_name(state)[0] == letter(state),
{
}

/// The line on a process: its number, its name in brackets, the letter of its state, then 49
/// numbers; the first three are its parent, group and session.
pub proof fn law_stat_line(pid: Pid, p: ProcView)
    ensures
        ({
            let t = stat_text(pid, p);
            let head = decimal(pid as nat) + seq![32u8, 40] + p.comm + seq![
                41u8,
                32,
                letter(p.state),
                32,
            ] + decimal(
                (match p.parent {
                    Some(x) => x as nat,
                    None => 0,
                }),
            ) + seq![32u8] + decimal(p.pgid as nat) + seq![32u8] + decimal(p.sid as nat);
            head.is_prefix_of(t)
        }),
{
    let f = stat_fields(p, 3);
    reveal_with_fuel(stat_fields, 4);
    assert(stat_fields(p, 0) =~= Seq::<u8>::empty());
    let a = decimal(parent_number(p) as nat);
    let b = decimal(p.pgid as nat);
    let c = decimal(p.sid as nat);
    assert(f =~= seq![32u8] + a + seq![32u8] + b + seq![32u8] + c);
    lemma_fields_grow(p, 3, 49);
    let front = decimal(pid as nat) + seq![32u8, 40] + p.comm + seq![41u8, 32, letter(p.state)];
    let head = decimal(pid as nat) + seq![32u8, 40] + p.comm + seq![41u8, 32, letter(p.state), 32]
        + a + seq![32u8] + b + seq![32u8] + c;
    assert(head =~= front + f);
    let t = stat_text(pid, p);
    let all = stat_fields(p, 49);
    assert(t == front + all);
    assert(all.take(f.len() as int) =~= f);
    assert(t.take(head.len() as int) =~= head);
}

/// The numbers come one behind the other, each behind a blank, and only these are not zero:
/// parent, group, session, priority, threads, held-back signals, the signal sent on exit and the
/// end of the heap.
pub proof fn law_stat_numbers(p: ProcView, i: nat)
    ensures
        stat_fields(p, i + 1) == stat_fields(p, i) + seq![32u8] + decimal(
            stat_field(p, i as int) as nat,
        ),
        stat_field(p, i as int) == (if i == 0 {
            match p.parent {
                Some(x) => x,
                None => 0,
            }
        } else if i == 1 {
            p.pgid
        } else if i == 2 {
            p.sid
        } else if i == 14 {
            20
        } else if i == 16 {
            1
        } else if i == 28 {
            p.blocked_signals
        } else if i == 34 {
            17
        } else if i == 43 {
            p.brk
        } else {
            0
        }),
{
    assert(stat_fields(p, i).push(32) =~= stat_fields(p, i) + seq![32u8]);
}

/// The first of the numbers stay as more follow.
pub proof fn lemma_fields_grow(p: ProcView, a: nat, b: nat)
    requires
        a <= b,
    ensures
        stat_fields(p, a).is_prefix_of(stat_fields(p, b)),
    decreases b,
{
    if a < b {
        lemma_fields_grow(p, a, (b - 1) as nat);
        let s = stat_fields(p, (b - 1) as nat);
        let t = stat_fields(p, b);
        assert(t.take(s.len() as int) =~= s);
        let f = stat_fields(p, a);
        assert(t.take(f.len() as int) =~= s.take(f.len() as int));
    }
}

/// A text of plain letters, in bytes.
pub open spec fn ascii(s: Seq<char>) -> Seq<u8> {
    Seq::new(s.len(), |i: int| s[i] as u8)
}

/// What the status of a process says, line by line.
pub proof fn law_status(pid: Pid, p: ProcView)
    ensures
        status_text(pid, p) == ascii("Name:\t"@) + p.comm + ascii("\nState:\t"@) + (
        match p.state {
            ProcState::Ready => ascii("R (running)"@),
            ProcState::Running => ascii("R (running)"@),
            ProcState::Blocked(_) => ascii("S (sleeping)"@),
            ProcState::Zombie(_) => ascii("Z (zombie)"@),
            ProcState::Stopped(_) => ascii("T (stopped)"@),
        }) + ascii("\nTgid:\t"@) + decimal(pid as nat) + ascii("\nPid:\t"@) + decimal(pid as nat)
            + ascii("\nPPid:\t"@) + decimal(
            (match p.parent {
                Some(x) => x as nat,
                None => 0,
            }),
        ) + ascii("\nThreads:\t1\n"@),
{
    reveal_strlit("Name:\t");
    reveal_strlit("\nState:\t");
    reveal_strlit("R (running)");
    reveal_strlit("S (sleeping)");
    reveal_strlit("Z (zombie)");
    reveal_strlit("T (stopped)");
    reveal_strlit("\nTgid:\t");
    reveal_strlit("\nPid:\t");
    reveal_strlit("\nPPid:\t");
    reveal_strlit("\nThreads:\t1\n");
    assert(name_label() =~= ascii("Name:\t"@));
    assert(state_label() =~= ascii("\nState:\t"@));
    assert(state_name(p.state) =~= (match p.state {
        ProcState::Ready => ascii("R (running)"@),
        ProcState::Running => ascii("R (running)"@),
        ProcState::Blocked(_) => ascii("S (sleeping)"@),
        ProcState::Zombie(_) => ascii("Z (zombie)"@),
        ProcState::Stopped(_) => ascii("T (stopped)"@),
    }));
    assert(tgid_label() =~= ascii("\nTgid:\t"@));
    assert(pid_label() =~= ascii("\nPid:\t"@));
    assert(ppid_label() =~= ascii("\nPPid:\t"@));
    assert(threads_line() =~= ascii("\nThreads:\t1\n"@));
}

/// What is said about memory: all there is, all of it free.
pub proof fn law_meminfo(kb: nat)
    ensures
        (ascii("MemTotal:       "@) + decimal(kb) + ascii(" kB\n"@) + ascii("MemFree:        "@)
            + decimal(kb) + ascii(" kB\n"@) + ascii("MemAvailable:   "@) + decimal(kb) + ascii(
            " kB\n"@,
        )).is_prefix_of(meminfo_text(kb)),
{
    reveal_strlit("MemTotal:       ");
    reveal_strlit("MemFree:        ");
    reveal_strlit("MemAvailable:   ");
    reveal_strlit(" kB\n");
    assert(total_label() =~= ascii("MemTotal:       "@));
    assert(free_label() =~= ascii("MemFree:        "@));
    assert(available_label() =~= ascii("MemAvailable:   "@));
    assert(crate::process::procfs::kb_end() =~= ascii(" kB\n"@));
    let a = ascii("MemTotal:       "@) + decimal(kb) + ascii(" kB\n"@) + ascii("MemFree:        "@)
        + decimal(kb) + ascii(" kB\n"@) + ascii("MemAvailable:   "@) + decimal(kb) + ascii(" kB\n"@);
    let t = meminfo_text(kb);
    assert(t == a + crate::process::procfs::zero_lines());
    assert(t.take(a.len() as int) =~= a);
}

/// What is said about the processor: all time since boot is idle.
pub proof fn law_processor(ticks: u64)
    ensures
        stat_global_text(ticks) == ascii("cpu  0 0 0 "@) + decimal(ticks as nat) + ascii(
            " 0 0 0 0\n"@,
        ),
{
    reveal_strlit("cpu  0 0 0 ");
    reveal_strlit(" 0 0 0 0\n");
    assert(stat_global_text(ticks) =~= ascii("cpu  0 0 0 "@) + decimal(ticks as nat) + ascii(
        " 0 0 0 0\n"@,
    ));
}

/// What the first process is called, and what it finds in its environment.
pub proof fn law_first_process(pid: Pid, parent: Option<Pid>, image: SpawnImage)
    ensures
        spawned(pid, parent, image).comm == ascii("hush"@),
        spawned(pid, parent, image).cmdline == ascii("(init)\0"@),
        init_path() == ascii("PATH=/bin"@),
        init_term() == ascii("TERM=linux"@),
        init_prompt() == ascii("PS1=\\[\\e[1;32m\\]\\u@\\h\\[\\e[0m\\]:\\[\\e[1;34m\\]\\w\\[\\e[0m\\]\\$ "@),
{
    reveal_strlit("hush");
    reveal_strlit("(init)\0");
    reveal_strlit("PATH=/bin");
    reveal_strlit("TERM=linux");
    reveal_strlit("PS1=\\[\\e[1;32m\\]\\u@\\h\\[\\e[0m\\]:\\[\\e[1;34m\\]\\w\\[\\e[0m\\]\\$ ");
    assert(spawned(pid, parent, image).comm =~= ascii("hush"@));
    assert(spawned(pid, parent, image).cmdline =~= ascii("(init)\0"@));
    assert(init_path() =~= ascii("PATH=/bin"@));
    assert(init_term() =~= ascii("TERM=linux"@));
    assert(init_prompt() =~= ascii("PS1=\\[\\e[1;32m\\]\\u@\\h\\[\\e[0m\\]:\\[\\e[1;34m\\]\\w\\[\\e[0m\\]\\$ "@));
}

// ---------------------------------------------------------------------------------------------
// Signals
// ---------------------------------------------------------------------------------------------
/// What a process sets about itself is all that changes: its group, its user, its mask, what it
/// does about a signal, where its handlers' stack is.
pub proof fn law_own_settings(s: KernelView, pid: Pid, n: u32, mask: u64, sig: u64, a: SigAction, stack: AltStack)
    requires
        s.procs[pid].sigactions.len() == 65,
        sig < 65,
    ensures
        with_pgid(s, pid, mask).procs == s.procs.insert(pid, ProcView { pgid: mask, ..s.procs[pid] }),
        with_uid(s, pid, n).procs == s.procs.insert(pid, ProcView { uid: n, ..s.procs[pid] }),
        with_gid(s, pid, n).procs == s.procs.insert(pid, ProcView { gid: n, ..s.procs[pid] }),
        with_mask(s, pid, mask).procs == s.procs.insert(
            pid,
            ProcView { blocked_signals: mask, ..s.procs[pid] },
        ),
        with_altstack(s, pid, stack).procs == s.procs.insert(
            pid,
            ProcView { altstack: stack, ..s.procs[pid] },
        ),
        with_action(s, pid, sig, a).procs[pid].sigactions[sig as int] == a,
        forall|o: int|
            0 <= o < 65 && o != sig ==> #[trigger] with_action(
                s,
                pid,
                sig,
                a,
            ).procs[pid].sigactions[o] == s.procs[pid].sigactions[o],
        with_action(s, pid, sig, a).procs[pid].pending_signals == s.procs[pid].pending_signals,
        with_pgid(s, pid, mask).ready == s.ready && with_uid(s, pid, n).ready == s.ready && with_mask(
            s,
            pid,
            mask,
        ).ready == s.ready && with_action(s, pid, sig, a).ready == s.ready,
{
}

/// Which signals can be sent: 1 to 31, and 35 to 64.
pub proof fn law_sendable(n: int)
    ensures
        sendable(n) <==> 1 <= n <= 31 || 35 <= n <= 64,
{
}

/// A process has a signal to act on exactly where one waits that is not held back.
pub proof fn law_signal_waiting(p: ProcView)
    ensures
        signal_waiting(p) <==> exists|n: u64|
            1 <= n <= 64 && #[trigger] has_sig(p.pending_signals, n) && !has_sig(
                p.blocked_signals,
                n,
            ),
{
    lemma_masks();
    let a = p.pending_signals;
    let b = p.blocked_signals;
    if a & !b != 0 {
        lemma_some_bit(a & !b);
        let n = choose|n: u64| 1 <= n <= 64 && #[trigger] has_sig(a & !b, n);
        assert(has_sig(a, n));
    }
    if exists|n: u64| 1 <= n <= 64 && #[trigger] has_sig(a, n) && !has_sig(b, n) {
        let n = choose|n: u64| 1 <= n <= 64 && #[trigger] has_sig(a, n) && !has_sig(b, n);
        assert(has_sig(a & !b, n));
        assert(!has_sig(0, n));
    }
}

/// What is left of the signals that wait once the lower ones were passed over: those that are held
/// back, and the higher ones, with everything queued for them. Nothing else of the process
/// changes.
pub proof fn law_passed_over(p: ProcView, n: u64, t: u64)
    requires
        proc_ok(p),
        1 <= n <= 65,
        1 <= t <= 64,
    ensures
        ({
            let q = discarded(p, n);
            &&& t >= n ==> has_sig(q.pending_signals, t) == has_sig(p.pending_signals, t)
            &&& t < n ==> (has_sig(q.pending_signals, t) <==> has_sig(p.pending_signals, t)
                && has_sig(p.blocked_signals, t))
            &&& t >= n && t >= 35 ==> q.rt_queue[t - 35] == p.rt_queue[t - 35]
            &&& t < n && t >= 35 && !has_sig(p.blocked_signals, t) ==> q.rt_queue[t - 35].len() == 0
            &&& q.blocked_signals == p.blocked_signals && q.sigactions == p.sigactions && q.state
                == p.state && q.signal_stack == p.signal_stack
        }),
{
    lemma_discarded(p, n);
    let q = discarded(p, n);
    assert(has_sig(q.pending_signals, t) || !has_sig(q.pending_signals, t));
}

/// What a handler is told: the signal, how it was sent, by whom, and the value that came along.
pub proof fn law_siginfo(n: u64, info: QueuedSigInfo)
    requires
        n <= 64,
        info.pid <= 0xffff_ffff,
    ensures
        ({
            let s = siginfo_layout(n, info);
            &&& s.len() == 128
            &&& s[0] == n && s[1] == 0 && s[2] == 0 && s[3] == 0
            &&& s[4] + s[5] * 0x100 + s[6] * 0x1_0000 + s[7] * 0x100_0000 == info.code as u32
            &&& s[16] + s[17] * 0x100 + s[18] * 0x1_0000 + s[19] * 0x100_0000 == info.pid
            &&& s[20] + s[21] * 0x100 + s[22] * 0x1_0000 + s[23] * 0x100_0000 == info.uid
            &&& le64(s, 24) == info.value
            &&& forall|i: int| 32 <= i < 128 ==> #[trigger] s[i] == 0
        }),
{
    let s = siginfo_layout(n, info);
    let a = le32_bytes(n as u32);
    let b = le32_bytes(info.code as u32);
    let c = le32_bytes(info.pid as u32);
    let d = le32_bytes(info.uid);
    let v = le64_bytes(info.value);
    assert(a.len() == 4 && b.len() == 4 && c.len() == 4 && d.len() == 4 && v.len() == 8);
    let z = le32_bytes(0);
    assert(z.len() == 4);
    let tail = Seq::new(96, |i: int| 0u8);
    assert(s == a + b + z + z + c + d + v + tail);
    lemma_pieces(a, b, z, c, d, v, tail);
    lemma_le32(n as u32);
    lemma_le32(info.code as u32);
    lemma_le32(info.pid as u32);
    lemma_le32(info.uid);
    crate::bytes::lemma_le64(info.value);
    assert(le64(s, 24) == le64(v, 0));
    assert forall|i: int| 32 <= i < 128 implies #[trigger] s[i] == 0 by {
        assert(s[i] == tail[i - 32]);
    }
}

/// A number of 32 bits is what its bytes say, low byte first.
pub proof fn lemma_le32(v: u32)
    ensures
        ({
            let s = le32_bytes(v);
            s[0] + s[1] * 0x100 + s[2] * 0x1_0000 + s[3] * 0x100_0000 == v
        }),
{
}

/// Where the pieces of a record lie.
proof fn lemma_pieces(a: Seq<u8>, b: Seq<u8>, z: Seq<u8>, c: Seq<u8>, d: Seq<u8>, v: Seq<u8>, tail: Seq<u8>)
    requires
        a.len() == 4,
        b.len() == 4,
        z.len() == 4,
        c.len() == 4,
        d.len() == 4,
        v.len() == 8,
        tail.len() == 96,
    ensures
        ({
            let s = a + b + z + z + c + d + v + tail;
            &&& s.len() == 128
            &&& s[0] == a[0] && s[1] == a[1] && s[2] == a[2] && s[3] == a[3]
            &&& s[4] == b[0] && s[5] == b[1] && s[6] == b[2] && s[7] == b[3]
            &&& s[16] == c[0] && s[17] == c[1] && s[18] == c[2] && s[19] == c[3]
            &&& s[20] == d[0] && s[21] == d[1] && s[22] == d[2] && s[23] == d[3]
            &&& forall|i: int| 24 <= i < 32 ==> #[trigger] s[i] == v[i - 24]
            &&& forall|i: int| 32 <= i < 128 ==> #[trigger] s[i] == tail[i - 32]
        }),
{
}

/// A handler that returns gives back the mask from before it, and leaves the handlers under it.
pub proof fn law_handler_left(s: KernelView, pid: Pid)
    requires
        s.procs[pid].signal_stack.len() > 0,
    ensures
        ({
            let p = s.procs[pid];
            let q = left(s, pid).procs[pid];
            &&& q.blocked_signals == p.signal_stack[p.signal_stack.len() - 1].blocked_before
            &&& q.signal_stack == p.signal_stack.take(p.signal_stack.len() - 1)
            &&& q.pending_signals == p.pending_signals && q.state == p.state && q.sigactions
                == p.sigactions
            &&& forall|o: Pid| o != pid ==> #[trigger] left(s, pid).procs[o] == s.procs[o]
        }),
{
    let p = s.procs[pid];
    assert(p.signal_stack.drop_last() =~= p.signal_stack.take(p.signal_stack.len() - 1));
}

// ---------------------------------------------------------------------------------------------
// Clearing away
// ---------------------------------------------------------------------------------------------
/// Clearing away does everything on the list but what concerns the process that runs, which stays
/// on it: who was to be removed is gone, who was to lose its memory has lost it, nobody else
/// changes.
pub proof fn law_cleared(s: KernelView, i: int, other: Pid)
    requires
        forall|a: int, b: int|
            0 <= a < b < s.reaps.len() ==> (#[trigger] s.reaps[a]).0 != (#[trigger] s.reaps[b]).0,
        0 <= i < s.reaps.len(),
        forall|j: int| 0 <= j < s.reaps.len() ==> (#[trigger] s.reaps[j]).0 != other,
        s.procs.contains_key(s.reaps[i].0),
        s.procs.contains_key(other),
    ensures
        ({
            let t = reaped(s);
            let (pid, kind) = s.reaps[i];
            &&& pid != s.current && kind == ReapKind::RemoveEntry ==> !t.procs.contains_key(pid)
            &&& pid != s.current && kind == ReapKind::TeardownOnly ==> t.procs.contains_key(pid)
                && t.procs[pid] == (ProcView { address_space: None, ..s.procs[pid] })
            &&& pid == s.current ==> t.procs.contains_key(pid) && t.procs[pid] == s.procs[pid]
                && t.reaps.contains(s.reaps[i])
            &&& pid != s.current ==> !t.reaps.contains(s.reaps[i])
            &&& t.procs.contains_key(other) && t.procs[other] == s.procs[other]
            &&& t.ready == s.ready
        }),
{
    lemma_cleared(s, s.reaps, i, other);
    let keep = |e: (Pid, ReapKind)| e.0 == s.current;
    let l = s.reaps.filter(keep);
    broadcast use vstd::seq_lib::group_filter_ensures;

    if s.reaps[i].0 == s.current {
        assert(s.reaps.contains(s.reaps[i]));
        assert(keep(s.reaps[i]));
        assert(l.contains(s.reaps[i]));
    } else if l.contains(s.reaps[i]) {
        let k = choose|k: int| 0 <= k < l.len() && l[k] == s.reaps[i];
        assert(keep(l[k]));
    }
}

/// Clearing away the first entries of a list.
pub proof fn lemma_cleared(s: KernelView, list: Seq<(Pid, ReapKind)>, i: int, other: Pid)
    requires
        forall|a: int, b: int|
            0 <= a < b < list.len() ==> (#[trigger] list[a]).0 != (#[trigger] list[b]).0,
        0 <= i < list.len(),
        forall|j: int| 0 <= j < list.len() ==> (#[trigger] list[j]).0 != other,
        s.procs.contains_key(list[i].0),
        s.procs.contains_key(other),
    ensures
        ({
            let t = reap_each(s, list);
            let (pid, kind) = list[i];
            &&& pid != s.current && kind == ReapKind::RemoveEntry ==> !t.procs.contains_key(pid)
            &&& pid != s.current && kind == ReapKind::TeardownOnly ==> t.procs.contains_key(pid)
                && t.procs[pid] == (ProcView { address_space: None, ..s.procs[pid] })
            &&& pid == s.current ==> t.procs.contains_key(pid) && t.procs[pid] == s.procs[pid]
            &&& t.procs.contains_key(other) && t.procs[other] == s.procs[other]
            &&& t.ready == s.ready
        }),
    decreases list.len(),
{
    let rest = list.drop_last();
    let last = list.last();
    assert(list[list.len() - 1] == last);
    assert(forall|j: int| 0 <= j < rest.len() ==> rest[j] == #[trigger] list[j]);
    lemma_untouched(s, rest, other);
    if i < list.len() - 1 {
        assert(rest[i] == list[i]);
        lemma_cleared(s, rest, i, other);
    } else {
        lemma_untouched(s, rest, last.0);
    }
}

/// Who is not on the list stays as it was.
pub proof fn lemma_untouched(s: KernelView, list: Seq<(Pid, ReapKind)>, other: Pid)
    requires
        forall|j: int| 0 <= j < list.len() ==> (#[trigger] list[j]).0 != other,
        s.procs.contains_key(other),
    ensures
        reap_each(s, list).procs.contains_key(other),
        reap_each(s, list).procs[other] == s.procs[other],
        reap_each(s, list).ready == s.ready,
        reap_each(s, list).current == s.current,
    decreases list.len(),
{
    if list.len() > 0 {
        let rest = list.drop_last();
        assert(list[list.len() - 1] == list.last());
        assert(forall|j: int| 0 <= j < rest.len() ==> rest[j] == #[trigger] list[j]);
        lemma_untouched(s, rest, other);
    }
}

/// The memory of everybody who is cleared away is given back.
pub proof fn law_memory_given_back(s: KernelView, i: int)
    requires
        forall|a: int, b: int|
            0 <= a < b < s.reaps.len() ==> (#[trigger] s.reaps[a]).0 != (#[trigger] s.reaps[b]).0,
        0 <= i < s.reaps.len(),
        s.procs.contains_key(s.reaps[i].0),
        s.reaps[i].0 != s.current,
        s.procs[s.reaps[i].0].address_space.is_some(),
    ensures
        reap_spaces(s, s.reaps).contains(s.procs[s.reaps[i].0].address_space->Some_0),
{
    lemma_given_back(s, s.reaps, i);
}

/// The memory of an entry of a list is given back.
pub proof fn lemma_given_back(s: KernelView, list: Seq<(Pid, ReapKind)>, i: int)
    requires
        forall|a: int, b: int|
            0 <= a < b < list.len() ==> (#[trigger] list[a]).0 != (#[trigger] list[b]).0,
        0 <= i < list.len(),
        s.procs.contains_key(list[i].0),
        list[i].0 != s.current,
        s.procs[list[i].0].address_space.is_some(),
    ensures
        reap_spaces(s, list).contains(s.procs[list[i].0].address_space->Some_0),
    decreases list.len(),
{
    let rest = list.drop_last();
    let last = list.last();
    let a = s.procs[list[i].0].address_space->Some_0;
    assert(list[list.len() - 1] == last);
    assert(forall|j: int| 0 <= j < rest.len() ==> rest[j] == #[trigger] list[j]);
    let f = reap_spaces(s, rest);
    let g = reap_spaces(s, list);
    if i < list.len() - 1 {
        lemma_given_back(s, rest, i);
        let k = choose|k: int| 0 <= k < f.len() && f[k] == a;
        assert(g[k] == a);
    } else {
        lemma_untouched(s, rest, last.0);
        assert(g == f + seq![a]);
        assert(g[f.len() as int] == a);
    }
}

} // verus!

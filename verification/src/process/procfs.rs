//! What `/proc` shows. Every function returns the text, cut to the room that the reader has.

use vstd::prelude::*;
use crate::bytes::push_all;
use crate::process::timers::TIMER_HZ;
use crate::process::{Kernel, Pid, ProcState, ProcView};

verus! {

/// The decimal digits of a number.
pub open spec fn decimal(n: nat) -> Seq<u8>
    decreases n,
{
    if n < 10 {
        seq![(48 + n) as u8]
    } else {
        decimal(n / 10).push((48 + n % 10) as u8)
    }
}

/// Appends the decimal digits of `value`.
pub fn push_decimal(out: &mut Vec<u8>, value: u64)
    ensures
        final(out)@ == old(out)@ + decimal(value as nat),
{
    let ghost before = out@;
    let mut digits: Vec<u8> = Vec::new();
    let mut v: u64 = value;
    while v >= 10
        invariant
            decimal(value as nat) == decimal(v as nat) + digits@.reverse(),
        decreases v,
    {
        let ghost was = digits@;
        let ghost w = v;
        digits.push(48 + (v % 10) as u8);
        v = v / 10;
        proof {
            assert(decimal(w as nat) == decimal(v as nat).push((48 + w % 10) as u8));
            assert(decimal(w as nat) + was.reverse() =~= decimal(v as nat) + digits@.reverse());
        }
    }
    out.push(48 + v as u8);
    assert(decimal(v as nat) =~= seq![(48 + v) as u8]);
    let ghost mid = out@;
    let mut i: usize = digits.len();
    while i > 0
        invariant
            i <= digits@.len(),
            out@ == mid + digits@.reverse().take(digits@.len() - i),
        decreases i,
    {
        i -= 1;
        out.push(digits[i]);
        assert(digits@.reverse().take(digits@.len() - i) =~= digits@.reverse().take(
            digits@.len() - i - 1,
        ).push(digits@[i as int]));
    }
    assert(out@ =~= before + decimal(value as nat));
}

/// `content` cut to `cap` bytes.
pub open spec fn cut(content: Seq<u8>, cap: u64) -> Seq<u8> {
    if content.len() <= cap {
        content
    } else {
        content.take(cap as int)
    }
}

/// Cuts `content` to the room there is.
pub fn copy_into(content: Vec<u8>, buf_cap: u64) -> (r: Vec<u8>)
    ensures
        r@ == cut(content@, buf_cap),
{
    let mut out: Vec<u8> = content;
    if out.len() as u64 > buf_cap {
        out.truncate(buf_cap as usize);
    }
    assert(out@ =~= cut(content@, buf_cap));
    out
}

/// The letter of a state.
pub open spec fn letter(state: ProcState) -> u8 {
    match state {
        ProcState::Ready => 82,
        ProcState::Running => 82,
        ProcState::Blocked(_) => 83,
        ProcState::Zombie(_) => 90,
        ProcState::Stopped(_) => 84,
    }
}

/// The letter of a state.
pub fn state_char(state: ProcState) -> (r: u8)
    ensures
        r == letter(state),
{
    match state {
        ProcState::Ready => 82,
        ProcState::Running => 82,
        ProcState::Blocked(_) => 83,
        ProcState::Zombie(_) => 90,
        ProcState::Stopped(_) => 84,
    }
}

/// `1` if there is a process `pid`, else `0`.
pub fn oxidebsd_proc_exists(k: &Kernel, pid: u64) -> (r: i32)
    requires
        k.wf(),
    ensures
        r == if k@.procs.contains_key(pid) {
            1i32
        } else {
            0
        },
{
    if k.procs.contains_key(pid) {
        1
    } else {
        0
    }
}

/// The pid at position `index`, lowest first.
pub fn oxidebsd_proc_pid_at(k: &Kernel, index: u64) -> (r: Option<Pid>)
    requires
        k.wf(),
    ensures
        r == if index < k@.pids.len() {
            Some(k@.pids[index as int])
        } else {
            None::<Pid>
        },
{
    if index < k.procs.len() as u64 {
        Some(k.procs.key_at(index as usize))
    } else {
        None
    }
}

/// The parent's number, or zero.
pub open spec fn parent_number(p: ProcView) -> u64 {
    match p.parent {
        Some(x) => x,
        None => 0,
    }
}

fn parent_of(parent: Option<Pid>) -> (r: u64)
    ensures
        r == match parent {
            Some(x) => x,
            None => 0,
        },
{
    match parent {
        Some(x) => x,
        None => 0,
    }
}

/// The number at position `i` of those that follow the state: parent, group, session, priority,
/// number of threads, held-back signals, the signal sent on exit and the end of the heap are
/// real, the rest is zero.
pub open spec fn stat_field(p: ProcView, i: int) -> u64 {
    if i == 0 {
        parent_number(p)
    } else if i == 1 {
        p.pgid
    } else if i == 2 {
        p.sid
    } else if i == 14 {
        20
    } else if i == 16 {
        1
    } else if i == 28 {
        p.blocked_signals
    } else if i == 34 {
        17
    } else if i == 43 {
        p.brk
    } else {
        0
    }
}

/// The first `n` of those numbers, each behind a blank.
pub open spec fn stat_fields(p: ProcView, n: nat) -> Seq<u8>
    decreases n,
{
    if n == 0 {
        Seq::empty()
    } else {
        stat_fields(p, (n - 1) as nat).push(32) + decimal(stat_field(p, n - 1) as nat)
    }
}

/// The line of `/proc/<pid>/stat`.
pub open spec fn stat_text(pid: Pid, p: ProcView) -> Seq<u8> {
    decimal(pid as nat) + seq![32u8, 40] + p.comm + seq![41u8, 32, letter(p.state)] + stat_fields(
        p,
        49,
    )
}

/// The line of `/proc/<pid>/stat`.
pub fn oxidebsd_proc_stat_line(k: &Kernel, pid: Pid, buf_cap: u64) -> (r: Option<Vec<u8>>)
    requires
        k.wf(),
    ensures
        k@.procs.contains_key(pid) ==> r is Some && r->0@ == cut(
            stat_text(pid, k@.procs[pid]),
            buf_cap,
        ),
        !k@.procs.contains_key(pid) ==> r is None,
{
    let p = match k.procs.get(pid) {
        Some(p) => p,
        None => {
            return None;
        },
    };
    let mut out: Vec<u8> = Vec::new();
    push_decimal(&mut out, pid);
    out.push(32);
    out.push(40);
    push_all(&mut out, p.comm.as_slice());
    out.push(41);
    out.push(32);
    out.push(state_char(p.state));
    let ghost head = decimal(pid as nat) + seq![32u8, 40] + p@.comm + seq![
        41u8,
        32,
        letter(p@.state),
    ];
    assert(out@ =~= head);
    let mut i: usize = 0;
    while i < 49
        invariant
            i <= 49,
            out@ == head + stat_fields(p@, i as nat),
        decreases 49 - i,
    {
        let f: u64 = if i == 0 {
            parent_of(p.parent)
        } else if i == 1 {
            p.pgid
        } else if i == 2 {
            p.sid
        } else if i == 14 {
            20
        } else if i == 16 {
            1
        } else if i == 28 {
            p.blocked_signals
        } else if i == 34 {
            17
        } else if i == 43 {
            p.brk
        } else {
            0
        };
        out.push(32);
        push_decimal(&mut out, f);
        i += 1;
        assert(out@ =~= head + stat_fields(p@, i as nat));
    }
    Some(copy_into(out, buf_cap))
}

/// The text of `/proc/<pid>/cmdline`.
pub fn oxidebsd_proc_cmdline(k: &Kernel, pid: Pid, buf_cap: u64) -> (r: Option<Vec<u8>>)
    requires
        k.wf(),
    ensures
        k@.procs.contains_key(pid) ==> r is Some && r->0@ == cut(k@.procs[pid].cmdline, buf_cap),
        !k@.procs.contains_key(pid) ==> r is None,
{
    match k.procs.get(pid) {
        Some(p) => {
            let mut out: Vec<u8> = Vec::new();
            push_all(&mut out, p.cmdline.as_slice());
            assert(out@ =~= p@.cmdline);
            Some(copy_into(out, buf_cap))
        },
        None => None,
    }
}

/// `Name:` and a tab.
pub open spec fn name_label() -> Seq<u8> {
    seq![78u8, 97, 109, 101, 58, 9]
}

/// The end of a line and `State:` and a tab.
pub open spec fn state_label() -> Seq<u8> {
    seq![10u8, 83, 116, 97, 116, 101, 58, 9]
}

/// The letter of a state and its name in brackets.
pub open spec fn state_name(state: ProcState) -> Seq<u8> {
    match state {
        ProcState::Ready => seq![82u8, 32, 40, 114, 117, 110, 110, 105, 110, 103, 41],
        ProcState::Running => seq![82u8, 32, 40, 114, 117, 110, 110, 105, 110, 103, 41],
        ProcState::Blocked(_) => seq![83u8, 32, 40, 115, 108, 101, 101, 112, 105, 110, 103, 41],
        ProcState::Zombie(_) => seq![90u8, 32, 40, 122, 111, 109, 98, 105, 101, 41],
        ProcState::Stopped(_) => seq![84u8, 32, 40, 115, 116, 111, 112, 112, 101, 100, 41],
    }
}

/// The end of a line and `Tgid:` and a tab.
pub open spec fn tgid_label() -> Seq<u8> {
    seq![10u8, 84, 103, 105, 100, 58, 9]
}

/// The end of a line and `Pid:` and a tab.
pub open spec fn pid_label() -> Seq<u8> {
    seq![10u8, 80, 105, 100, 58, 9]
}

/// The end of a line and `PPid:` and a tab.
pub open spec fn ppid_label() -> Seq<u8> {
    seq![10u8, 80, 80, 105, 100, 58, 9]
}

/// The end of a line and the last line, which says that there is one thread.
pub open spec fn threads_line() -> Seq<u8> {
    seq![10u8, 84, 104, 114, 101, 97, 100, 115, 58, 9, 49, 10]
}

/// The text of `/proc/<pid>/status`.
pub open spec fn status_text(pid: Pid, p: ProcView) -> Seq<u8> {
    name_label() + p.comm + state_label() + state_name(p.state) + tgid_label() + decimal(
        pid as nat,
    ) + pid_label() + decimal(pid as nat) + ppid_label() + decimal(parent_number(p) as nat)
        + threads_line()
}

/// The text of `/proc/<pid>/status`.
pub fn oxidebsd_proc_status(k: &Kernel, pid: Pid, buf_cap: u64) -> (r: Option<Vec<u8>>)
    requires
        k.wf(),
    ensures
        k@.procs.contains_key(pid) ==> r is Some && r->0@ == cut(
            status_text(pid, k@.procs[pid]),
            buf_cap,
        ),
        !k@.procs.contains_key(pid) ==> r is None,
{
    let p = match k.procs.get(pid) {
        Some(p) => p,
        None => {
            return None;
        },
    };
    let mut out: Vec<u8> = Vec::new();
    push_all(&mut out, &[78u8, 97, 109, 101, 58, 9]);
    push_all(&mut out, p.comm.as_slice());
    push_all(&mut out, &[10u8, 83, 116, 97, 116, 101, 58, 9]);
    let ghost head = name_label() + p@.comm + state_label();
    assert(out@ =~= head);
    match p.state {
        ProcState::Ready => push_all(
            &mut out,
            &[82u8, 32, 40, 114, 117, 110, 110, 105, 110, 103, 41],
        ),
        ProcState::Running => push_all(
            &mut out,
            &[82u8, 32, 40, 114, 117, 110, 110, 105, 110, 103, 41],
        ),
        ProcState::Blocked(_) => push_all(
            &mut out,
            &[83u8, 32, 40, 115, 108, 101, 101, 112, 105, 110, 103, 41],
        ),
        ProcState::Zombie(_) => push_all(
            &mut out,
            &[90u8, 32, 40, 122, 111, 109, 98, 105, 101, 41],
        ),
        ProcState::Stopped(_) => push_all(
            &mut out,
            &[84u8, 32, 40, 115, 116, 111, 112, 112, 101, 100, 41],
        ),
    }
    assert(out@ =~= head + state_name(p@.state));
    push_all(&mut out, &[10u8, 84, 103, 105, 100, 58, 9]);
    push_decimal(&mut out, pid);
    push_all(&mut out, &[10u8, 80, 105, 100, 58, 9]);
    push_decimal(&mut out, pid);
    push_all(&mut out, &[10u8, 80, 80, 105, 100, 58, 9]);
    push_decimal(&mut out, parent_of(p.parent));
    push_all(&mut out, &[10u8, 84, 104, 114, 101, 97, 100, 115, 58, 9, 49, 10]);
    assert(out@ =~= status_text(pid, p@));
    Some(copy_into(out, buf_cap))
}

/// `MemTotal:` and blanks.
pub open spec fn total_label() -> Seq<u8> {
    seq![77u8, 101, 109, 84, 111, 116, 97, 108, 58, 32, 32, 32, 32, 32, 32, 32]
}

/// `MemFree:` and blanks.
pub open spec fn free_label() -> Seq<u8> {
    seq![77u8, 101, 109, 70, 114, 101, 101, 58, 32, 32, 32, 32, 32, 32, 32, 32]
}

/// `MemAvailable:` and blanks.
pub open spec fn available_label() -> Seq<u8> {
    seq![77u8, 101, 109, 65, 118, 97, 105, 108, 97, 98, 108, 101, 58, 32, 32, 32]
}

/// The unit and the end of a line.
pub open spec fn kb_end() -> Seq<u8> {
    seq![32u8, 107, 66, 10]
}

/// The lines on buffers, cache and swap, all zero.
pub open spec fn zero_lines() -> Seq<u8> {
    seq![66u8, 117, 102, 102, 101, 114, 115, 58, 32, 32, 32, 32, 32, 32, 32, 32, 48] + kb_end()
        + seq![67u8, 97, 99, 104, 101, 100, 58, 32, 32, 32, 32, 32, 32, 32, 32, 32, 48] + kb_end()
        + seq![83u8, 119, 97, 112, 84, 111, 116, 97, 108, 58, 32, 32, 32, 32, 32, 32, 48] + kb_end()
        + seq![83u8, 119, 97, 112, 70, 114, 101, 101, 58, 32, 32, 32, 32, 32, 32, 32, 48] + kb_end()
}

/// The text of `/proc/meminfo` with `kb` kilobytes of memory: all of it counts as free.
pub open spec fn meminfo_text(kb: nat) -> Seq<u8> {
    total_label() + decimal(kb) + kb_end() + free_label() + decimal(kb) + kb_end()
        + available_label() + decimal(kb) + kb_end() + zero_lines()
}

/// The text of `/proc/meminfo`.
pub fn oxidebsd_proc_meminfo(usable_ram_bytes: u64, buf_cap: u64) -> (r: Vec<u8>)
    ensures
        r@ == cut(meminfo_text((usable_ram_bytes / 1024) as nat), buf_cap),
{
    let kb: u64 = usable_ram_bytes / 1024;
    let mut out: Vec<u8> = Vec::new();
    push_all(&mut out, &[77u8, 101, 109, 84, 111, 116, 97, 108, 58, 32, 32, 32, 32, 32, 32, 32]);
    push_decimal(&mut out, kb);
    push_all(&mut out, &[32u8, 107, 66, 10]);
    push_all(&mut out, &[77u8, 101, 109, 70, 114, 101, 101, 58, 32, 32, 32, 32, 32, 32, 32, 32]);
    push_decimal(&mut out, kb);
    push_all(&mut out, &[32u8, 107, 66, 10]);
    push_all(
        &mut out,
        &[77u8, 101, 109, 65, 118, 97, 105, 108, 97, 98, 108, 101, 58, 32, 32, 32],
    );
    push_decimal(&mut out, kb);
    push_all(&mut out, &[32u8, 107, 66, 10]);
    let ghost head = total_label() + decimal(kb as nat) + kb_end() + free_label() + decimal(
        kb as nat,
    ) + kb_end() + available_label() + decimal(kb as nat) + kb_end();
    assert(out@ =~= head);
    push_all(
        &mut out,
        &[66u8, 117, 102, 102, 101, 114, 115, 58, 32, 32, 32, 32, 32, 32, 32, 32, 48],
    );
    push_all(&mut out, &[32u8, 107, 66, 10]);
    push_all(
        &mut out,
        &[67u8, 97, 99, 104, 101, 100, 58, 32, 32, 32, 32, 32, 32, 32, 32, 32, 48],
    );
    push_all(&mut out, &[32u8, 107, 66, 10]);
    push_all(
        &mut out,
        &[83u8, 119, 97, 112, 84, 111, 116, 97, 108, 58, 32, 32, 32, 32, 32, 32, 48],
    );
    push_all(&mut out, &[32u8, 107, 66, 10]);
    push_all(
        &mut out,
        &[83u8, 119, 97, 112, 70, 114, 101, 101, 58, 32, 32, 32, 32, 32, 32, 32, 48],
    );
    push_all(&mut out, &[32u8, 107, 66, 10]);
    assert(out@ =~= head + zero_lines());
    assert(out@ =~= meminfo_text(kb as nat));
    copy_into(out, buf_cap)
}

/// A number of ticks in seconds with two decimals.
pub open spec fn seconds_text(ticks: u64) -> Seq<u8> {
    let centis = (ticks % TIMER_HZ) * 100 / TIMER_HZ as int;
    decimal((ticks / TIMER_HZ) as nat) + (if centis < 10 {
        seq![46u8, 48]
    } else {
        seq![46u8]
    }) + decimal(centis as nat)
}

fn push_seconds(out: &mut Vec<u8>, ticks: u64)
    ensures
        final(out)@ == old(out)@ + seconds_text(ticks),
{
    let ghost before = out@;
    let secs: u64 = ticks / TIMER_HZ;
    let centis: u64 = (ticks % TIMER_HZ) * 100 / TIMER_HZ;
    push_decimal(out, secs);
    out.push(46);
    if centis < 10 {
        out.push(48);
    }
    push_decimal(out, centis);
    assert(out@ =~= before + seconds_text(ticks));
}

/// The text of `/proc/uptime`: the time since boot, twice.
pub fn oxidebsd_proc_uptime(ticks: u64, buf_cap: u64) -> (r: Vec<u8>)
    ensures
        r@ == cut(seconds_text(ticks) + seq![32u8] + seconds_text(ticks) + seq![10u8], buf_cap),
{
    let mut out: Vec<u8> = Vec::new();
    push_seconds(&mut out, ticks);
    out.push(32);
    push_seconds(&mut out, ticks);
    out.push(10);
    assert(out@ =~= seconds_text(ticks) + seq![32u8] + seconds_text(ticks) + seq![10u8]);
    copy_into(out, buf_cap)
}

/// The text of `/proc/stat`: all time since boot counts as idle.
pub open spec fn stat_global_text(ticks: u64) -> Seq<u8> {
    seq![99u8, 112, 117, 32, 32, 48, 32, 48, 32, 48, 32] + decimal(ticks as nat) + seq![
        32u8,
        48,
        32,
        48,
        32,
        48,
        32,
        48,
        10,
    ]
}

/// The text of `/proc/stat`.
pub fn oxidebsd_proc_stat_global(ticks: u64, buf_cap: u64) -> (r: Vec<u8>)
    ensures
        r@ == cut(stat_global_text(ticks), buf_cap),
{
    let mut out: Vec<u8> = Vec::new();
    push_all(&mut out, &[99u8, 112, 117, 32, 32, 48, 32, 48, 32, 48, 32]);
    push_decimal(&mut out, ticks);
    push_all(&mut out, &[32u8, 48, 32, 48, 32, 48, 32, 48, 10]);
    assert(out@ =~= stat_global_text(ticks));
    copy_into(out, buf_cap)
}

/// The number that decimal digits stand for.
pub open spec fn number(s: Seq<u8>) -> nat
    decreases s.len(),
{
    if s.len() == 0 {
        0
    } else {
        number(s.drop_last()) * 10 + ((s.last() - 48) as nat)
    }
}

/// Reading the digits of a number back gives the number.
pub proof fn law_decimal_reads_back(n: nat)
    ensures
        number(decimal(n)) == n,
    decreases n,
{
    reveal_with_fuel(number, 2);
    if n < 10 {
        assert(decimal(n).drop_last() =~= Seq::empty());
    } else {
        law_decimal_reads_back(n / 10);
        assert(decimal(n).drop_last() =~= decimal(n / 10));
    }
}

} // verus!

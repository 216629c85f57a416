//! Timers, limits and identities, in numbers.

use vstd::prelude::*;

use crate::errno::{EINVAL, EPERM, ESRCH};
use crate::process::{BlockReason, KernelView, Pid, PosixTimer, ProcState, ProcView};
use crate::process::identity::{chosen_uid, gid_of, may_become, named, target_of, uid_of};
use crate::process::limits::{
    futex_waiter, futex_woken_from, getpriority_answer, highest, known_policy, lowest, may_schedule,
    priority_set, sched_target, setpriority_answer, with_limit, with_sched,
};
use crate::process::timers::{
    deadline_after, free_slot, has_timer, itimer_of, left_until, set_fits, tick_at,
    ticks_of_timeval, timer_set, timer_signal, timer_state, timespec_of, timeval_of, valid_itimer,
    valid_timer, valid_timespec, valid_timeval, with_itimer, with_timer, Interval,
};

verus! {

// ---------------------------------------------------------------------------------------------
// Durations
// ---------------------------------------------------------------------------------------------
/// Which durations there are: whole seconds that are not negative, and less than a second.
pub proof fn law_durations(sec: i64, part: i64)
    ensures
        valid_timespec(sec, part) <==> sec >= 0 && part >= 0 && part <= 999_999_999,
        valid_timeval(sec, part) <==> sec >= 0 && part >= 0 && part <= 999_999,
{
}

/// A duration in microseconds takes as many ticks of ten milliseconds as cover it, and no more.
pub proof fn law_ticks_cover(sec: i64, usec: i64)
    requires
        valid_timeval(sec, usec),
    ensures
        sec * 1_000_000 + usec <= ticks_of_timeval(sec, usec) * 10_000,
        ticks_of_timeval(sec, usec) * 10_000 < sec * 1_000_000 + usec + 10_000,
{
}

/// A number of ticks in seconds and a fraction is that many times ten milliseconds.
pub proof fn law_ticks_told(ticks: u64)
    ensures
        ({
            let (s, us) = timeval_of(ticks);
            s * 1_000_000 + us == ticks * 10_000 && 0 <= us < 1_000_000
        }),
        ({
            let (s, ns) = timespec_of(ticks);
            s * 1_000_000_000 + ns == ticks * 10_000_000 && 0 <= ns < 1_000_000_000
        }),
{
}

/// What is left of a wait: the time up to its end, and nothing once that has passed.
pub proof fn law_left(end: u64, now: u64)
    ensures
        now <= end ==> now + left_until(Some(end), now) == end,
        now >= end ==> left_until(Some(end), now) == 0,
        left_until(None, now) == 0,
        deadline_after(None, now) == 0xffff_ffff_ffff_ffff,
{
}

/// A wait for a duration ends no sooner than that, and less than a tick later.
pub proof fn law_deadline(sec: i64, nsec: i64, now: u64)
    requires
        valid_timespec(sec, nsec),
    ensures
        ({
            let d = deadline_after(Some((sec, nsec)), now);
            &&& (d - now) * 10_000_000 >= sec * 1_000_000_000 + nsec
            &&& (d - now) * 10_000_000 < sec * 1_000_000_000 + nsec + 10_000_000
        }),
{
}

/// A point on the monotonic clock is reached no sooner, and less than a tick later, counted from
/// tick zero; one on the wall clock, that far from now; one that has passed is now.
pub proof fn law_points(clock: u64, sec: i64, nsec: i64, now: u64, wall: i64)
    requires
        valid_timespec(sec, nsec),
    ensures
        ({
            let t = tick_at(clock, sec, nsec, now, wall);
            &&& clock == 1 ==> {
                &&& t * 10_000_000 >= sec * 1_000_000_000 + nsec
                &&& t * 10_000_000 < sec * 1_000_000_000 + nsec + 10_000_000
            }
            &&& clock != 1 && sec <= wall ==> t == now
            &&& clock != 1 && sec > wall ==> {
                &&& (t - now) * 10_000_000 >= (sec - wall) * 1_000_000_000 + nsec
                &&& (t - now) * 10_000_000 < (sec - wall) * 1_000_000_000 + nsec + 10_000_000
            }
        }),
{
}

// ---------------------------------------------------------------------------------------------
// Timers
// ---------------------------------------------------------------------------------------------
/// The interval timer as programs see it: its period, and the time to its next firing; zero where
/// it is not armed.
pub proof fn law_interval_seen(p: ProcView, now: u64)
    ensures
        ({
            let i = itimer_of(p, now);
            &&& i.interval.0 * 1_000_000 + i.interval.1 == p.real_timer_interval_ticks * 10_000
            &&& p.real_timer_deadline.is_none() ==> i.value == (0i64, 0i64)
            &&& p.real_timer_deadline matches Some(d) ==> (d >= now ==> i.value.0 * 1_000_000
                + i.value.1 == (d - now) * 10_000)
        }),
{
    law_ticks_told(p.real_timer_interval_ticks);
    law_ticks_told(left_until(p.real_timer_deadline, now));
}

/// Setting the interval timer of a process sets that alone.
pub proof fn law_interval_set(s: KernelView, pid: Pid, deadline: Option<u64>, every: u64)
    ensures
        ({
            let t = with_itimer(s, pid, deadline, every);
            &&& t.procs[pid].real_timer_deadline == deadline
            &&& t.procs[pid].real_timer_interval_ticks == every
            &&& t.procs[pid].posix_timers == s.procs[pid].posix_timers
            &&& t.procs[pid].state == s.procs[pid].state
            &&& t.procs[pid].pending_signals == s.procs[pid].pending_signals
            &&& t.ready == s.ready
            &&& forall|q: Pid| q != pid ==> t.procs.contains_key(q) == s.procs.contains_key(q)
                && #[trigger] t.procs[q] == s.procs[q]
        }),
{
}

/// Which durations timers take: each in range.
pub proof fn law_timer_ranges(n: Interval)
    ensures
        valid_itimer(n) <==> n.value.0 >= 0 && n.value.1 >= 0 && n.value.1 <= 999_999
            && n.interval.0 >= 0 && n.interval.1 >= 0 && n.interval.1 <= 999_999,
        valid_timer(n) <==> n.value.0 >= 0 && n.value.1 >= 0 && n.value.1 <= 999_999_999
            && n.interval.0 >= 0 && n.interval.1 >= 0 && n.interval.1 <= 999_999_999,
{
}

/// A timer that is set: with a value of zero it never fires; otherwise it fires after the duration
/// given, or at the point given, rounded up to a tick, and from then on at its period. Whatever it
/// missed before is forgotten, and what it raises stays.
pub proof fn law_timer_armed(t: PosixTimer, n: Interval, absolute: bool, now: u64, wall: i64)
    requires
        valid_timer(n),
        set_fits(t, n, absolute, now, wall),
    ensures
        ({
            let r = timer_set(t, n, absolute, now, wall);
            let never = n.value.0 == 0 && n.value.1 == 0;
            &&& r.overrun == 0 && r.clockid == t.clockid && r.signo == t.signo
            &&& never <==> r.deadline.is_none()
            &&& never ==> r.interval_ticks == 0
            &&& !never ==> {
                &&& r.interval_ticks * 10_000_000 >= n.interval.0 * 1_000_000_000 + n.interval.1
                &&& r.interval_ticks * 10_000_000 < n.interval.0 * 1_000_000_000 + n.interval.1
                    + 10_000_000
            }
            &&& r.deadline matches Some(d) ==> {
                &&& !absolute ==> {
                    &&& (d - now) * 10_000_000 >= n.value.0 * 1_000_000_000 + n.value.1
                    &&& (d - now) * 10_000_000 < n.value.0 * 1_000_000_000 + n.value.1 + 10_000_000
                }
                &&& absolute && t.clockid == 1 ==> {
                    &&& d * 10_000_000 >= n.value.0 * 1_000_000_000 + n.value.1
                    &&& d * 10_000_000 < n.value.0 * 1_000_000_000 + n.value.1 + 10_000_000
                }
                &&& absolute && t.clockid != 1 ==> d >= now && (n.value.0 <= wall ==> d == now)
            }
        }),
{
    law_points(t.clockid, n.value.0, n.value.1, now, wall);
}

/// Where there is room for setting a timer: everywhere but where the tick counter could not hold
/// the numbers.
pub proof fn law_timer_fits(t: PosixTimer, n: Interval, now: u64, wall: i64)
    requires
        valid_timer(n),
        n.value.0 <= 0x1_0000_0000_0000,
        n.interval.0 <= 0x1_0000_0000_0000,
        now <= 0x1000_0000_0000_0000,
        0 <= wall,
    ensures
        set_fits(t, n, false, now, wall) && set_fits(t, n, true, now, wall),
{
}

/// A timer as programs see it.
pub proof fn law_timer_seen(t: PosixTimer, now: u64)
    ensures
        ({
            let i = timer_state(t, now);
            &&& i.interval.0 * 1_000_000_000 + i.interval.1 == t.interval_ticks * 10_000_000
            &&& t.deadline.is_none() ==> i.value == (0i64, 0i64)
            &&& t.deadline matches Some(d) ==> (d >= now ==> i.value.0 * 1_000_000_000 + i.value.1
                == (d - now) * 10_000_000)
        }),
{
    law_ticks_told(t.interval_ticks);
    law_ticks_told(left_until(t.deadline, now));
}

/// What a timer raises: signal 14 where nothing is said; nothing where that is asked for; a signal
/// from 1 to 31 where one is asked for; other requests are refused.
pub proof fn law_timer_raises(notify: i32, signo: i32)
    ensures
        timer_signal(None) == Some(14u64),
        notify == 1 ==> timer_signal(Some((notify, signo))) == Some(0u64),
        notify == 0 && 1 <= signo <= 31 ==> timer_signal(Some((notify, signo))) == Some(
            signo as u64,
        ),
        notify == 0 && !(1 <= signo <= 31) ==> timer_signal(Some((notify, signo))).is_none(),
        notify != 0 && notify != 1 ==> timer_signal(Some((notify, signo))).is_none(),
{
}

/// Timers are numbered by the lowest slot that is free; a number names one exactly while it is
/// there.
pub proof fn law_timer_slots(s: KernelView, pid: Pid, i: int, n: PosixTimer, id: u64)
    requires
        s.procs[pid].posix_timers.len() == 8,
        free_slot(s.procs[pid].posix_timers, i),
        id < 8,
    ensures
        ({
            let a = with_timer(s, pid, i, Some(n));
            let d = with_timer(a, pid, i, None);
            &&& !has_timer(s.procs[pid], i as u64)
            &&& has_timer(a.procs[pid], i as u64)
            &&& a.procs[pid].posix_timers[i] == Some(n)
            &&& id != i ==> has_timer(a.procs[pid], id) == has_timer(s.procs[pid], id)
                && a.procs[pid].posix_timers[id as int] == s.procs[pid].posix_timers[id as int]
            &&& d.procs[pid].posix_timers == s.procs[pid].posix_timers
            &&& id < i ==> has_timer(s.procs[pid], id)
            &&& a.ready == s.ready && a.procs[pid].state == s.procs[pid].state
        }),
{
    let a = with_timer(s, pid, i, Some(n));
    let d = with_timer(a, pid, i, None);
    assert(d.procs[pid].posix_timers =~= s.procs[pid].posix_timers);
}

/// Where any slot is free, the first of them is found.
pub proof fn law_slot_found(timers: Seq<Option<PosixTimer>>, j: int)
    requires
        0 <= j < timers.len(),
        timers[j].is_none(),
    ensures
        exists|i: int| i <= j && #[trigger] free_slot(timers, i),
        forall|i: int| #[trigger] free_slot(timers, i) ==> timers[i].is_none() && i <= j,
    decreases j,
{
    if !free_slot(timers, j) {
        let k = choose|k: int| 0 <= k < j && (#[trigger] timers[k]).is_none();
        law_slot_found(timers, k);
    }
}

// ---------------------------------------------------------------------------------------------
// Who is meant
// ---------------------------------------------------------------------------------------------
/// Zero names the caller, another number the process of that number, if there is one.
pub proof fn law_named(s: KernelView, caller: Pid, n: i64)
    requires
        n >= 0,
    ensures
        named(caller, 0) == caller,
        n > 0 ==> named(caller, n) == n,
        target_of(s, caller, 0) == Ok::<Pid, u64>(caller),
        n > 0 && s.procs.contains_key(n as u64) ==> target_of(s, caller, n) == Ok::<Pid, u64>(
            n as u64,
        ),
        n > 0 && !s.procs.contains_key(n as u64) ==> target_of(s, caller, n) == Err::<Pid, u64>(
            ESRCH,
        ),
        !s.procs.contains_key(caller) ==> uid_of(s, caller) == 0 && gid_of(s, caller) == 0,
        s.procs.contains_key(caller) ==> uid_of(s, caller) == s.procs[caller].uid && gid_of(
            s,
            caller,
        ) == s.procs[caller].gid,
{
}

/// Who may become whom: root anybody, others only themselves. -1 asks for nothing.
pub proof fn law_become(uid: u32, r: u32)
    ensures
        may_become(uid, -1i64),
        may_become(uid, r as i64) <==> uid == 0 || r == uid,
{
}

/// Whom a process becomes: the effective identity asked for, or else the real, or else the saved;
/// itself where none is.
pub proof fn law_chosen(uid: u32, r: i64, e: i64, s: i64)
    requires
        -1 <= r <= 0xffff_ffff,
        -1 <= e <= 0xffff_ffff,
        -1 <= s <= 0xffff_ffff,
    ensures
        e >= 0 ==> chosen_uid(uid, r, e, s) == e,
        e == -1 && r >= 0 ==> chosen_uid(uid, r, e, s) == r,
        e == -1 && r == -1 && s >= 0 ==> chosen_uid(uid, r, e, s) == s,
        e == -1 && r == -1 && s == -1 ==> chosen_uid(uid, r, e, s) == uid,
{
}

// ---------------------------------------------------------------------------------------------
// Limits and priorities
// ---------------------------------------------------------------------------------------------
/// A limit that is set reads back, and nothing else changes.
pub proof fn law_limit_set(s: KernelView, pid: Pid, resource: u64, limit: (u64, u64), other: int)
    requires
        resource < s.procs[pid].rlimits.len(),
        0 <= other < s.procs[pid].rlimits.len(),
    ensures
        ({
            let t = with_limit(s, pid, resource, limit);
            &&& t.procs[pid].rlimits[resource as int] == limit
            &&& other != resource ==> t.procs[pid].rlimits[other] == s.procs[pid].rlimits[other]
            &&& t.procs[pid].rlimits.len() == s.procs[pid].rlimits.len()
            &&& t.procs[pid].nice == s.procs[pid].nice && t.procs[pid].state == s.procs[pid].state
            &&& t.ready == s.ready
            &&& forall|q: Pid| q != pid ==> #[trigger] t.procs[q] == s.procs[q]
        }),
{
}

/// Nice values: only those of single processes can be asked for and set; they are kept from -20
/// to 19, and told as twenty less the value.
pub proof fn law_nice(s: KernelView, caller: Pid, which: u64, who: i64, prio: i32)
    requires
        who >= 0,
        who == 0 ==> s.procs.contains_key(caller),
    ensures
        ({
            let p: Pid = if who == 0 {
                caller
            } else {
                who as u64
            };
            let there = s.procs.contains_key(p);
            let t = priority_set(s, caller, which, who, prio);
            let set = setpriority_answer(s, caller, which, who);
            let get = getpriority_answer(s, caller, which, who);
            &&& which != 0 ==> set == Err::<u64, u64>(EINVAL) && get == Err::<u64, u64>(EINVAL) && t
                == s
            &&& which == 0 && !there ==> set == Err::<u64, u64>(ESRCH) && get == Err::<u64, u64>(
                ESRCH,
            ) && t == s
            &&& which == 0 && there ==> {
                &&& set == Ok::<u64, u64>(0) && get == Ok::<u64, u64>((20 - s.procs[p].nice) as u64)
                &&& -20 <= prio <= 19 ==> t.procs[p].nice == prio
                &&& prio < -20 ==> t.procs[p].nice == -20
                &&& prio > 19 ==> t.procs[p].nice == 19
                &&& t.procs[p].sched_priority == s.procs[p].sched_priority
                &&& forall|q: Pid| q != p ==> #[trigger] t.procs[q] == s.procs[q]
            }
        }),
{
}

/// The policies there are, by number, and their priorities: from 1 to 99 for 1 and 2, zero for the
/// others.
pub proof fn law_policies(n: i32)
    ensures
        known_policy(n) <==> n == 0 || n == 1 || n == 2 || n == 3 || n == 5 || n == 6,
        n == 1 || n == 2 ==> lowest(n) == 1 && highest(n) == 99,
        n != 1 && n != 2 ==> lowest(n) == 0 && highest(n) == 0,
{
}

/// Whose scheduling a process may see and set: root everybody's, others that of their own user.
pub proof fn law_may_schedule(s: KernelView, caller: Pid, n: i64)
    requires
        n > 0,
    ensures
        ({
            let r = sched_target(s, caller, n);
            let there = s.procs.contains_key(n as u64);
            let may = s.procs[caller].uid == 0 || s.procs[caller].uid == s.procs[n as u64].uid;
            &&& !there ==> r == Err::<Pid, u64>(ESRCH)
            &&& there && may ==> r == Ok::<Pid, u64>(n as u64)
            &&& there && !may ==> r == Err::<Pid, u64>(EPERM)
        }),
        sched_target(s, caller, 0) == Ok::<Pid, u64>(caller),
        may_schedule(s.procs[caller].uid, s.procs[caller].uid),
{
}

/// Setting the scheduling of a process sets policy and priority alone.
pub proof fn law_sched_set(s: KernelView, pid: Pid, policy: i32, priority: i32)
    ensures
        ({
            let t = with_sched(s, pid, policy, priority);
            &&& t.procs[pid].sched_policy == policy && t.procs[pid].sched_priority == priority
            &&& t.procs[pid].nice == s.procs[pid].nice && t.procs[pid].state == s.procs[pid].state
            &&& t.ready == s.ready
            &&& forall|q: Pid| q != pid ==> #[trigger] t.procs[q] == s.procs[q]
        }),
{
}

// ---------------------------------------------------------------------------------------------
// Futexes
// ---------------------------------------------------------------------------------------------
/// Whether `p` waits at `addr` in group `tgid`, whatever its deadline.
pub open spec fn waits_at(p: ProcView, tgid: Pid, addr: u64) -> bool {
    match p.state {
        ProcState::Blocked(BlockReason::WaitingForFutex(g, a, _)) => g == tgid && a == addr,
        _ => false,
    }
}

/// A wake-up at an address never leaves somebody waiting there who could have been woken: either
/// as many were woken as were asked for, or nobody waits there any more. Nobody else is woken, and
/// who is woken can run and is in the queue.
pub proof fn law_futex_no_waiter_left(s: KernelView, pids: Seq<Pid>, tgid: Pid, addr: u64, max: u64)
    requires
        pids.no_duplicates(),
        forall|i: int| 0 <= i < pids.len() ==> s.procs.contains_key(#[trigger] pids[i]),
    ensures
        ({
            let (t, n) = futex_woken_from(s, pids, tgid, addr, max);
            &&& 0 <= n <= max
            &&& n == max || forall|i: int|
                0 <= i < pids.len() ==> !waits_at(t.procs[#[trigger] pids[i]], tgid, addr)
            &&& forall|q: Pid|
                {
                    let was = s.procs[q];
                    let is = #[trigger] t.procs[q];
                    is == was || (waits_at(was, tgid, addr) && is.state == ProcState::Ready
                        && t.ready.contains(q) && pids.contains(q))
                }
            &&& t.ready.len() == s.ready.len() + n
            &&& s.ready.is_prefix_of(t.ready)
            &&& t.procs.dom() == s.procs.dom()
        }),
    decreases pids.len(),
{
    if pids.len() > 0 {
        let rest = pids.drop_last();
        let last = pids.last();
        law_futex_no_waiter_left(s, rest, tgid, addr, max);
        let (a, n) = futex_woken_from(s, rest, tgid, addr, max);
        let (t, m) = futex_woken_from(s, pids, tgid, addr, max);
        assert(!rest.contains(last)) by {
            if rest.contains(last) {
                let i = choose|i: int| 0 <= i < rest.len() && rest[i] == last;
                assert(pids[i] == pids[pids.len() - 1]);
            }
        }
        assert(pids[pids.len() - 1] == last);
        assert(forall|i: int| 0 <= i < rest.len() ==> rest[i] == #[trigger] pids[i]);
        assert(forall|q: Pid| rest.contains(q) ==> #[trigger] pids.contains(q)) by {
            assert forall|q: Pid| rest.contains(q) implies #[trigger] pids.contains(q) by {
                let i = choose|i: int| 0 <= i < rest.len() && rest[i] == q;
                assert(pids[i] == q);
            }
        }
        assert(a.procs[last] == s.procs[last]);
        if n < max && futex_waiter(a.procs[last], tgid, addr) {
            assert(t.ready == a.ready.push(last));
            assert(t.ready[a.ready.len() as int] == last);
            assert(waits_at(s.procs[last], tgid, addr));
            assert(t.procs.dom() =~= a.procs.dom());
            assert forall|q: Pid| true implies {
                let was = s.procs[q];
                let is = #[trigger] t.procs[q];
                is == was || (waits_at(was, tgid, addr) && is.state == ProcState::Ready
                    && t.ready.contains(q) && pids.contains(q))
            } by {
                if q != last && t.procs[q] != s.procs[q] {
                    assert(a.procs[q] == t.procs[q]);
                    let i = choose|i: int| 0 <= i < a.ready.len() && a.ready[i] == q;
                    assert(t.ready[i] == q);
                }
            }
            assert forall|i: int| 0 <= i < pids.len() && m != max implies !waits_at(
                t.procs[#[trigger] pids[i]],
                tgid,
                addr,
            ) by {
                if i < rest.len() {
                    assert(rest[i] == pids[i]);
                    assert(pids[i] != last);
                }
            }
        } else {
            assert forall|i: int| 0 <= i < pids.len() && m != max implies !waits_at(
                t.procs[#[trigger] pids[i]],
                tgid,
                addr,
            ) by {
                if i < rest.len() {
                    assert(rest[i] == pids[i]);
                }
            }
        }
    }
}

} // verus!

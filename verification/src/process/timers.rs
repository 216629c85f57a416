//! Sleeps, alarms and timers, all counted in ticks of the timer interrupt.

use vstd::prelude::*;
use crate::errno::{EAGAIN, EINVAL};
use crate::process::{
    with_proc, with_state, BlockReason, Kernel, KernelView, Pid, PosixTimer, ProcState, ProcView,
    Step, MAX_POSIX_TIMERS, SIGALRM,
};

verus! {

broadcast use crate::process::group_views;

/// Ticks in a second.
pub const TIMER_HZ: u64 = 100;

/// A duration with its fraction of a second in range.
pub open spec fn valid_timespec(sec: i64, nsec: i64) -> bool {
    sec >= 0 && 0 <= nsec < 1_000_000_000
}

/// `a / b` rounded up.
pub open spec fn div_up(a: int, b: int) -> int {
    (a + b - 1) / b
}

/// The ticks that a duration takes, never fewer than it asks for.
pub open spec fn ticks_of_timespec(sec: i64, nsec: i64) -> int {
    sec * TIMER_HZ + div_up(nsec * TIMER_HZ, 1_000_000_000)
}

/// The tick a given duration after `now`; `u64::MAX` where no duration is given.
pub open spec fn deadline_after(ts: Option<(i64, i64)>, now: u64) -> int {
    match ts {
        Some(t) => now + ticks_of_timespec(t.0, t.1),
        None => u64::MAX as int,
    }
}

/// The ticks that a duration takes, if its fraction is in range.
pub fn timespec_to_ticks(sec: i64, nsec: i64) -> (r: Option<u64>)
    requires
        valid_timespec(sec, nsec) ==> ticks_of_timespec(sec, nsec) <= u64::MAX,
    ensures
        r == if valid_timespec(sec, nsec) {
            Some(ticks_of_timespec(sec, nsec) as u64)
        } else {
            None::<u64>
        },
{
    if sec < 0 || nsec < 0 || nsec >= 1_000_000_000 {
        return None;
    }
    let frac: u64 = (nsec as u64 * TIMER_HZ + 999_999_999) / 1_000_000_000;
    let whole: u64 = sec as u64 * TIMER_HZ;
    Some(whole + frac)
}

// ---------------------------------------------------------------------------------------------
// Durations
// ---------------------------------------------------------------------------------------------
/// A duration with its fraction of a second, in microseconds, in range.
pub open spec fn valid_timeval(sec: i64, usec: i64) -> bool {
    sec >= 0 && 0 <= usec < 1_000_000
}

/// The ticks that a duration takes, never fewer than it asks for.
pub open spec fn ticks_of_timeval(sec: i64, usec: i64) -> int {
    sec * TIMER_HZ + div_up(usec * TIMER_HZ, 1_000_000)
}

/// The ticks that a duration takes, if its fraction is in range.
pub fn timeval_to_ticks(sec: i64, usec: i64) -> (r: Option<u64>)
    requires
        valid_timeval(sec, usec) ==> ticks_of_timeval(sec, usec) <= u64::MAX,
    ensures
        r == if valid_timeval(sec, usec) {
            Some(ticks_of_timeval(sec, usec) as u64)
        } else {
            None::<u64>
        },
{
    if sec < 0 || usec < 0 || usec >= 1_000_000 {
        return None;
    }
    let frac: u64 = (usec as u64 * TIMER_HZ + 999_999) / 1_000_000;
    let whole: u64 = sec as u64 * TIMER_HZ;
    Some(whole + frac)
}

/// A number of ticks in seconds and microseconds.
pub open spec fn timeval_of(ticks: u64) -> (i64, i64) {
    ((ticks / TIMER_HZ) as i64, ((ticks % TIMER_HZ) * 1_000_000 / TIMER_HZ as int) as i64)
}

/// A number of ticks in seconds and microseconds.
pub fn ticks_to_timeval(ticks: u64) -> (r: (i64, i64))
    ensures
        r == timeval_of(ticks),
{
    ((ticks / TIMER_HZ) as i64, ((ticks % TIMER_HZ) * 1_000_000 / TIMER_HZ) as i64)
}

/// A number of ticks in seconds and nanoseconds.
pub open spec fn timespec_of(ticks: u64) -> (i64, i64) {
    ((ticks / TIMER_HZ) as i64, ((ticks % TIMER_HZ) * 1_000_000_000 / TIMER_HZ as int) as i64)
}

/// A number of ticks in seconds and nanoseconds.
pub fn ticks_to_timespec(ticks: u64) -> (r: (i64, i64))
    ensures
        r == timespec_of(ticks),
{
    ((ticks / TIMER_HZ) as i64, ((ticks % TIMER_HZ) * 1_000_000_000 / TIMER_HZ) as i64)
}

/// A time that is a whole number of ticks survives being written out and read back.
pub proof fn law_ticks_read_back(ticks: u64)
    ensures
        valid_timespec(timespec_of(ticks).0, timespec_of(ticks).1),
        ticks_of_timespec(timespec_of(ticks).0, timespec_of(ticks).1) == ticks,
        valid_timeval(timeval_of(ticks).0, timeval_of(ticks).1),
        ticks_of_timeval(timeval_of(ticks).0, timeval_of(ticks).1) == ticks,
{
}

/// A wait is never shorter than asked for, and by less than a tick longer.
pub proof fn law_never_early(sec: i64, nsec: i64)
    requires
        valid_timespec(sec, nsec),
    ensures
        sec * 1_000_000_000 + nsec <= ticks_of_timespec(sec, nsec) * 10_000_000,
        ticks_of_timespec(sec, nsec) * 10_000_000 < sec * 1_000_000_000 + nsec + 10_000_000,
{
}

// ---------------------------------------------------------------------------------------------
// Sleeping
// ---------------------------------------------------------------------------------------------
/// The tick at which a sleep ends; none where there is nothing to sleep for.
pub fn nanosleep_deadline(sec: i64, nsec: i64, now: u64) -> (r: Result<Option<u64>, u64>)
    requires
        valid_timespec(sec, nsec) ==> now + ticks_of_timespec(sec, nsec) <= u64::MAX,
    ensures
        r == if !valid_timespec(sec, nsec) {
            Err::<Option<u64>, u64>(EINVAL)
        } else if ticks_of_timespec(sec, nsec) == 0 {
            Ok(None)
        } else {
            Ok(Some((now + ticks_of_timespec(sec, nsec)) as u64))
        },
{
    match timespec_to_ticks(sec, nsec) {
        None => Err(EINVAL),
        Some(t) => if t > 0 {
            Ok(Some(now + t))
        } else {
            Ok(None)
        },
    }
}

/// Sleeps until `deadline`. A wake before then only leads to more sleep. The time left that is
/// reported at the end is always zero.
pub fn do_nanosleep(k: &mut Kernel, pid: Pid, deadline: u64, now: u64) -> (r: Step)
    requires
        old(k).wf(),
        now < deadline ==> old(k)@.procs.contains_key(pid),
    ensures
        final(k).wf(),
        now >= deadline ==> r == Step::Done(Ok(0)) && final(k)@ == old(k)@,
        now < deadline ==> r == Step::Block && final(k)@ == with_state(
            old(k)@,
            pid,
            ProcState::Blocked(BlockReason::Sleeping(deadline)),
        ),
{
    let ghost before = k@;
    if now >= deadline {
        return Step::Done(Ok(0));
    }
    if let Some(p) = k.procs.get_mut(pid) {
        p.state = ProcState::Blocked(BlockReason::Sleeping(deadline));
    }
    assert(k@ =~= with_state(before, pid, ProcState::Blocked(BlockReason::Sleeping(deadline))));
    Step::Block
}

// ---------------------------------------------------------------------------------------------
// The interval timer
// ---------------------------------------------------------------------------------------------
/// The timer of real time.
pub const ITIMER_REAL: u64 = 0;

/// A timer as programs see it: how often it fires and when next, each in seconds and a fraction.
#[derive(Clone, Copy, PartialEq, Eq, Debug)]
pub struct Interval {
    pub interval: (i64, i64),
    pub value: (i64, i64),
}

/// The ticks left until a deadline; none if it has passed or there is none.
pub open spec fn left_until(deadline: Option<u64>, now: u64) -> u64 {
    match deadline {
        Some(d) => if d > now {
            (d - now) as u64
        } else {
            0
        },
        None => 0,
    }
}

fn remaining(deadline: Option<u64>, now: u64) -> (r: u64)
    ensures
        r == left_until(deadline, now),
{
    match deadline {
        Some(d) => if d > now {
            d - now
        } else {
            0
        },
        None => 0,
    }
}

/// The interval timer of `p` at tick `now`.
pub open spec fn itimer_of(p: ProcView, now: u64) -> Interval {
    Interval {
        interval: timeval_of(p.real_timer_interval_ticks),
        value: timeval_of(left_until(p.real_timer_deadline, now)),
    }
}

/// `s` with the interval timer of `pid` set.
pub open spec fn with_itimer(s: KernelView, pid: Pid, deadline: Option<u64>, interval: u64) -> KernelView {
    with_proc(
        s,
        pid,
        ProcView {
            real_timer_deadline: deadline,
            real_timer_interval_ticks: interval,
            ..s.procs[pid]
        },
    )
}

/// A pair of durations whose fractions are in range.
pub open spec fn valid_itimer(new: Interval) -> bool {
    valid_timeval(new.value.0, new.value.1) && valid_timeval(new.interval.0, new.interval.1)
}

fn itimer_in_range(new: &Interval) -> (r: bool)
    ensures
        r == valid_itimer(*new),
{
    new.value.0 >= 0 && 0 <= new.value.1 && new.value.1 < 1_000_000 && new.interval.0 >= 0 && 0
        <= new.interval.1 && new.interval.1 < 1_000_000
}

/// Sets the interval timer and returns how it stood. A value of zero disarms it.
pub fn do_setitimer(k: &mut Kernel, pid: Pid, which: u64, new: Option<Interval>, now: u64) -> (r: Result<
    Interval,
    u64,
>)
    requires
        old(k).wf(),
        new matches Some(n) ==> (which == ITIMER_REAL && valid_itimer(n) ==> {
            &&& old(k)@.procs.contains_key(pid)
            &&& now + ticks_of_timeval(n.value.0, n.value.1) <= u64::MAX
            &&& ticks_of_timeval(n.interval.0, n.interval.1) <= u64::MAX
        }),
    ensures
        final(k).wf(),
        match new {
            Some(n) => if which == ITIMER_REAL && valid_itimer(n) {
                let ticks = ticks_of_timeval(n.value.0, n.value.1);
                &&& r == Ok::<Interval, u64>(itimer_of(old(k)@.procs[pid], now))
                &&& final(k)@ == if ticks == 0 {
                    with_itimer(old(k)@, pid, None, 0)
                } else {
                    with_itimer(
                        old(k)@,
                        pid,
                        Some((now + ticks) as u64),
                        ticks_of_timeval(n.interval.0, n.interval.1) as u64,
                    )
                }
            } else {
                r == Err::<Interval, u64>(EINVAL) && final(k)@ == old(k)@
            },
            None => r == Err::<Interval, u64>(EINVAL) && final(k)@ == old(k)@,
        },
{
    let ghost before = k@;
    if which != ITIMER_REAL {
        return Err(EINVAL);
    }
    let new = match new {
        Some(n) => n,
        None => {
            return Err(EINVAL);
        },
    };
    if !itimer_in_range(&new) {
        return Err(EINVAL);
    }
    let value_ticks: u64 = match timeval_to_ticks(new.value.0, new.value.1) {
        Some(t) => t,
        None => {
            return Err(EINVAL);
        },
    };
    let interval_ticks: u64 = match timeval_to_ticks(new.interval.0, new.interval.1) {
        Some(t) => t,
        None => {
            return Err(EINVAL);
        },
    };
    let mut was = Interval { interval: (0, 0), value: (0, 0) };
    if let Some(p) = k.procs.get_mut(pid) {
        was = Interval {
            interval: ticks_to_timeval(p.real_timer_interval_ticks),
            value: ticks_to_timeval(remaining(p.real_timer_deadline, now)),
        };
        if value_ticks == 0 {
            p.real_timer_deadline = None;
            p.real_timer_interval_ticks = 0;
        } else {
            p.real_timer_deadline = Some(now + value_ticks);
            p.real_timer_interval_ticks = interval_ticks;
        }
    }
    proof {
        if value_ticks == 0 {
            assert(k@ =~= with_itimer(before, pid, None, 0));
        } else {
            assert(k@ =~= with_itimer(
                before,
                pid,
                Some((now + value_ticks) as u64),
                interval_ticks,
            ));
        }
    }
    Ok(was)
}

/// How the interval timer stands. `wanted` says whether there is room for the answer.
pub fn do_getitimer(k: &Kernel, pid: Pid, which: u64, wanted: bool, now: u64) -> (r: Result<
    Interval,
    u64,
>)
    requires
        k.wf(),
        which == ITIMER_REAL && wanted ==> k@.procs.contains_key(pid),
    ensures
        r == if which != ITIMER_REAL || !wanted {
            Err::<Interval, u64>(EINVAL)
        } else {
            Ok(itimer_of(k@.procs[pid], now))
        },
{
    if which != ITIMER_REAL {
        return Err(EINVAL);
    }
    if !wanted {
        return Err(EINVAL);
    }
    match k.procs.get(pid) {
        Some(p) => Ok(
            Interval {
                interval: ticks_to_timeval(p.real_timer_interval_ticks),
                value: ticks_to_timeval(remaining(p.real_timer_deadline, now)),
            },
        ),
        None => Err(EINVAL),
    }
}

// ---------------------------------------------------------------------------------------------
// Timers
// ---------------------------------------------------------------------------------------------
pub const CLOCK_REALTIME: u64 = 0;
pub const CLOCK_MONOTONIC: u64 = 1;
/// The time given is a point, not a duration.
pub const TIMER_ABSTIME: u64 = 1;
/// A timer raises a signal.
pub const SIGEV_SIGNAL: i32 = 0;
/// A timer only counts.
pub const SIGEV_NONE: i32 = 1;

/// The tick that a point in time falls on. On the monotonic clock ticks count from its start; on
/// the wall clock, which stands at `wall` seconds, a point in the past is now.
pub open spec fn tick_at(clockid: u64, sec: i64, nsec: i64, now: u64, wall: i64) -> int {
    let frac = div_up(nsec * TIMER_HZ, 1_000_000_000);
    if clockid == CLOCK_MONOTONIC {
        sec * TIMER_HZ + frac
    } else if sec <= wall {
        now as int
    } else {
        now + (sec - wall) * TIMER_HZ + frac
    }
}

/// The tick that a point in time falls on.
pub fn abstime_to_ticks(clockid: u64, sec: i64, nsec: i64, now: u64, wall: i64) -> (r: u64)
    requires
        valid_timespec(sec, nsec),
        tick_at(clockid, sec, nsec, now, wall) <= u64::MAX,
        clockid != CLOCK_MONOTONIC ==> sec - wall <= i64::MAX,
    ensures
        r == tick_at(clockid, sec, nsec, now, wall),
{
    let frac: u64 = (nsec as u64 * TIMER_HZ + 999_999_999) / 1_000_000_000;
    if clockid == CLOCK_MONOTONIC {
        sec as u64 * TIMER_HZ + frac
    } else if sec <= wall {
        now
    } else {
        let delta: i64 = sec - wall;
        now + delta as u64 * TIMER_HZ + frac
    }
}

/// `s` with slot `i` of the timers of `pid` replaced.
pub open spec fn with_timer(s: KernelView, pid: Pid, i: int, t: Option<PosixTimer>) -> KernelView {
    let p = s.procs[pid];
    with_proc(s, pid, ProcView { posix_timers: p.posix_timers.update(i, t), ..p })
}

/// The signal that a request for notification leads to: none, or a standard one.
pub open spec fn timer_signal(evp: Option<(i32, i32)>) -> Option<u64> {
    match evp {
        None => Some(SIGALRM),
        Some((notify, signo)) => if notify == SIGEV_NONE {
            Some(0)
        } else if notify == SIGEV_SIGNAL && 1 <= signo <= 31 {
            Some(signo as u64)
        } else {
            None
        },
    }
}

/// Slot `i` is the first free one.
pub open spec fn free_slot(timers: Seq<Option<PosixTimer>>, i: int) -> bool {
    &&& 0 <= i < timers.len()
    &&& timers[i] is None
    &&& forall|j: int| 0 <= j < i ==> (#[trigger] timers[j]) is Some
}

/// Makes a timer, disarmed, and returns its number. `evp` is the kind of notification and the
/// signal.
pub fn do_timer_create(k: &mut Kernel, pid: Pid, clockid: u64, evp: Option<(i32, i32)>) -> (r: Result<
    u64,
    u64,
>)
    requires
        old(k).wf(),
        (clockid == CLOCK_REALTIME || clockid == CLOCK_MONOTONIC) && timer_signal(evp).is_some()
            ==> old(k)@.procs.contains_key(pid),
    ensures
        final(k).wf(),
        ({
            let s = old(k)@;
            let timers = s.procs[pid].posix_timers;
            if (clockid != CLOCK_REALTIME && clockid != CLOCK_MONOTONIC) || timer_signal(
                evp,
            ) is None {
                r == Err::<u64, u64>(EINVAL) && final(k)@ == s
            } else {
                &&& (forall|i: int| !#[trigger] free_slot(timers, i)) ==> r == Err::<u64, u64>(
                    EAGAIN,
                ) && final(k)@ == s
                &&& forall|i: int| #[trigger]
                    free_slot(timers, i) ==> r == Ok::<u64, u64>(i as u64) && final(k)@
                        == with_timer(
                        s,
                        pid,
                        i,
                        Some(
                            PosixTimer {
                                clockid,
                                signo: timer_signal(evp)->0,
                                deadline: None,
                                interval_ticks: 0,
                                overrun: 0,
                            },
                        ),
                    )
            }
        }),
{
    let ghost before = k@;
    if clockid != CLOCK_REALTIME && clockid != CLOCK_MONOTONIC {
        return Err(EINVAL);
    }
    let signo: u64 = match evp {
        None => SIGALRM,
        Some((notify, signo)) => if notify == SIGEV_NONE {
            0
        } else if notify == SIGEV_SIGNAL {
            if signo < 1 || signo > 31 {
                return Err(EINVAL);
            }
            signo as u64
        } else {
            return Err(EINVAL);
        },
    };
    let timer = PosixTimer { clockid, signo, deadline: None, interval_ticks: 0, overrun: 0 };
    if let Some(p) = k.procs.get_mut(pid) {
        let ghost timers = before.procs[pid].posix_timers;
        let mut i: usize = 0;
        while i < 8 && p.posix_timers[i].is_some()
            invariant
                i <= 8,
                p@.posix_timers == timers,
                timers.len() == 8,
                forall|j: int| 0 <= j < i ==> (#[trigger] timers[j]) is Some,
            decreases 8 - i,
        {
            i += 1;
        }
        if i < 8 {
            assert(free_slot(timers, i as int));
            assert forall|j: int| #[trigger] free_slot(timers, j) implies j == i by {
                if j < i {
                    assert(timers[j] is Some);
                } else if i < j {
                    assert(timers[i as int] is Some);
                }
            }
            p.posix_timers[i] = Some(timer);
            assert(k@ =~= with_timer(before, pid, i as int, Some(timer)));
            return Ok(i as u64);
        }
        assert(k@ =~= before);
    }
    Err(EAGAIN)
}

/// Whether number `timerid` names a timer of `p`.
pub open spec fn has_timer(p: ProcView, timerid: u64) -> bool {
    timerid < MAX_POSIX_TIMERS && p.posix_timers[timerid as int] is Some
}

/// A timer at tick `now` as programs see it.
pub open spec fn timer_state(t: PosixTimer, now: u64) -> Interval {
    Interval {
        interval: timespec_of(t.interval_ticks),
        value: timespec_of(left_until(t.deadline, now)),
    }
}

fn timer_reading(t: &PosixTimer, now: u64) -> (r: Interval)
    ensures
        r == timer_state(*t, now),
{
    Interval {
        interval: ticks_to_timespec(t.interval_ticks),
        value: ticks_to_timespec(remaining(t.deadline, now)),
    }
}

/// A timer after it was set: disarmed by a value of zero, else armed for a point in time or after
/// a duration. Its count starts over.
pub open spec fn timer_set(t: PosixTimer, new: Interval, absolute: bool, now: u64, wall: i64) -> PosixTimer {
    if new.value.0 == 0 && new.value.1 == 0 {
        PosixTimer { deadline: None, interval_ticks: 0, overrun: 0, ..t }
    } else {
        PosixTimer {
            deadline: Some(
                if absolute {
                    tick_at(t.clockid, new.value.0, new.value.1, now, wall) as u64
                } else {
                    (now + ticks_of_timespec(new.value.0, new.value.1)) as u64
                },
            ),
            interval_ticks: ticks_of_timespec(new.interval.0, new.interval.1) as u64,
            overrun: 0,
            ..t
        }
    }
}

/// A pair of durations whose fractions are in range.
pub open spec fn valid_timer(new: Interval) -> bool {
    valid_timespec(new.value.0, new.value.1) && valid_timespec(new.interval.0, new.interval.1)
}

/// The tick counter can hold the deadline and the interval that setting a timer leads to.
pub open spec fn set_fits(t: PosixTimer, new: Interval, absolute: bool, now: u64, wall: i64) -> bool {
    if new.value.0 == 0 && new.value.1 == 0 {
        true
    } else if ticks_of_timespec(new.interval.0, new.interval.1) > u64::MAX {
        false
    } else if absolute {
        &&& tick_at(t.clockid, new.value.0, new.value.1, now, wall) <= u64::MAX
        &&& t.clockid != CLOCK_MONOTONIC ==> new.value.0 - wall <= i64::MAX
    } else {
        now + ticks_of_timespec(new.value.0, new.value.1) <= u64::MAX
    }
}

fn timer_in_range(new: &Interval) -> (r: bool)
    ensures
        r == valid_timer(*new),
{
    new.value.0 >= 0 && 0 <= new.value.1 && new.value.1 < 1_000_000_000 && new.interval.0 >= 0 && 0
        <= new.interval.1 && new.interval.1 < 1_000_000_000
}

fn ticks_in(t: (i64, i64)) -> (r: u64)
    requires
        valid_timespec(t.0, t.1),
        ticks_of_timespec(t.0, t.1) <= u64::MAX,
    ensures
        r == ticks_of_timespec(t.0, t.1),
{
    match timespec_to_ticks(t.0, t.1) {
        Some(n) => n,
        None => 0,
    }
}

/// Sets a timer and returns how it stood.
pub fn do_timer_settime(
    k: &mut Kernel,
    pid: Pid,
    timerid: u64,
    flags: u64,
    new: Option<Interval>,
    now: u64,
    wall: i64,
) -> (r: Result<Interval, u64>)
    requires
        old(k).wf(),
        new matches Some(n) ==> (flags & !TIMER_ABSTIME == 0 && valid_timer(n) ==> {
            &&& old(k)@.procs.contains_key(pid)
            &&& has_timer(old(k)@.procs[pid], timerid) ==> set_fits(
                old(k)@.procs[pid].posix_timers[timerid as int]->0,
                n,
                flags & TIMER_ABSTIME != 0,
                now,
                wall,
            )
        }),
    ensures
        final(k).wf(),
        match new {
            Some(n) => if flags & !TIMER_ABSTIME == 0 && valid_timer(n) && has_timer(
                old(k)@.procs[pid],
                timerid,
            ) {
                let t = old(k)@.procs[pid].posix_timers[timerid as int]->0;
                &&& r == Ok::<Interval, u64>(timer_state(t, now))
                &&& final(k)@ == with_timer(
                    old(k)@,
                    pid,
                    timerid as int,
                    Some(timer_set(t, n, flags & TIMER_ABSTIME != 0, now, wall)),
                )
            } else {
                r == Err::<Interval, u64>(EINVAL) && final(k)@ == old(k)@
            },
            None => r == Err::<Interval, u64>(EINVAL) && final(k)@ == old(k)@,
        },
{
    let ghost before = k@;
    if flags & !TIMER_ABSTIME != 0 {
        return Err(EINVAL);
    }
    let new = match new {
        Some(n) => n,
        None => {
            return Err(EINVAL);
        },
    };
    if !timer_in_range(&new) {
        return Err(EINVAL);
    }
    if timerid >= MAX_POSIX_TIMERS as u64 {
        return Err(EINVAL);
    }
    let i: usize = timerid as usize;
    if let Some(p) = k.procs.get_mut(pid) {
        match p.posix_timers[i] {
            Some(t) => {
                let was = timer_reading(&t, now);
                let mut slot = t;
                if new.value.0 == 0 && new.value.1 == 0 {
                    slot.deadline = None;
                    slot.interval_ticks = 0;
                } else if flags & TIMER_ABSTIME != 0 {
                    slot.deadline = Some(
                        abstime_to_ticks(t.clockid, new.value.0, new.value.1, now, wall),
                    );
                    slot.interval_ticks = ticks_in(new.interval);
                } else {
                    slot.deadline = Some(now + ticks_in(new.value));
                    slot.interval_ticks = ticks_in(new.interval);
                }
                slot.overrun = 0;
                p.posix_timers[i] = Some(slot);
                assert(k@ =~= with_timer(
                    before,
                    pid,
                    timerid as int,
                    Some(timer_set(t, new, flags & TIMER_ABSTIME != 0, now, wall)),
                ));
                return Ok(was);
            },
            None => {
                assert(k@ =~= before);
                return Err(EINVAL);
            },
        }
    }
    Err(EINVAL)
}

/// How a timer stands. `wanted` says whether there is room for the answer.
pub fn do_timer_gettime(k: &Kernel, pid: Pid, timerid: u64, wanted: bool, now: u64) -> (r: Result<
    Interval,
    u64,
>)
    requires
        k.wf(),
        wanted ==> k@.procs.contains_key(pid),
    ensures
        r == if wanted && has_timer(k@.procs[pid], timerid) {
            Ok::<Interval, u64>(
                timer_state(k@.procs[pid].posix_timers[timerid as int]->0, now),
            )
        } else {
            Err(EINVAL)
        },
{
    if !wanted {
        return Err(EINVAL);
    }
    if timerid >= MAX_POSIX_TIMERS as u64 {
        return Err(EINVAL);
    }
    match k.procs.get(pid) {
        Some(p) => match p.posix_timers[timerid as usize] {
            Some(t) => Ok(timer_reading(&t, now)),
            None => Err(EINVAL),
        },
        None => Err(EINVAL),
    }
}

/// How often a timer fired besides the last time.
pub fn do_timer_getoverrun(k: &Kernel, pid: Pid, timerid: u64) -> (r: Result<u64, u64>)
    requires
        k.wf(),
        k@.procs.contains_key(pid),
    ensures
        r == if has_timer(k@.procs[pid], timerid) {
            Ok::<u64, u64>(k@.procs[pid].posix_timers[timerid as int]->0.overrun as u64)
        } else {
            Err(EINVAL)
        },
{
    if timerid >= MAX_POSIX_TIMERS as u64 {
        return Err(EINVAL);
    }
    match k.procs.get(pid) {
        Some(p) => match p.posix_timers[timerid as usize] {
            Some(t) => Ok(t.overrun as u64),
            None => Err(EINVAL),
        },
        None => Err(EINVAL),
    }
}

/// Deletes a timer.
pub fn do_timer_delete(k: &mut Kernel, pid: Pid, timerid: u64) -> (r: Result<u64, u64>)
    requires
        old(k).wf(),
        old(k)@.procs.contains_key(pid),
    ensures
        final(k).wf(),
        if has_timer(old(k)@.procs[pid], timerid) {
            r == Ok::<u64, u64>(0) && final(k)@ == with_timer(old(k)@, pid, timerid as int, None)
        } else {
            r == Err::<u64, u64>(EINVAL) && final(k)@ == old(k)@
        },
{
    let ghost before = k@;
    if timerid >= MAX_POSIX_TIMERS as u64 {
        return Err(EINVAL);
    }
    let i: usize = timerid as usize;
    if let Some(p) = k.procs.get_mut(pid) {
        if p.posix_timers[i].is_none() {
            assert(k@ =~= before);
            return Err(EINVAL);
        }
        p.posix_timers[i] = None;
        assert(k@ =~= with_timer(before, pid, timerid as int, None));
    }
    Ok(0)
}

/// A slot that was freed is handed out again before any later one.
pub proof fn law_slot_reused(s: KernelView, pid: Pid, i: int)
    requires
        s.procs.contains_key(pid),
        0 <= i < s.procs[pid].posix_timers.len(),
        forall|j: int| 0 <= j < i ==> (#[trigger] s.procs[pid].posix_timers[j]) is Some,
    ensures
        free_slot(with_timer(s, pid, i, None).procs[pid].posix_timers, i),
{
}

/// A timer that was set reads back what it was set to, for times that are whole ticks.
pub proof fn law_timer_reads_back(t: PosixTimer, ticks: u64, every: u64, now: u64, wall: i64)
    requires
        ticks > 0,
        now + ticks <= u64::MAX,
    ensures
        ({
            let new = Interval { interval: timespec_of(every), value: timespec_of(ticks) };
            timer_state(timer_set(t, new, false, now, wall), now) == new
        }),
{
    law_ticks_read_back(ticks);
    law_ticks_read_back(every);
}

} // verus!

//! Users, groups, process groups and sessions.

use vstd::prelude::*;
use crate::errno::{EINVAL, EPERM, ESRCH};
use crate::process::scheduler::{current_tgid, tgid_of};
use crate::process::{with_proc, Kernel, KernelView, Pid, ProcView};

verus! {

broadcast use crate::process::group_views;

/// The user of process `pid`; root where there is no such process.
pub open spec fn uid_of(s: KernelView, pid: Pid) -> u32 {
    if s.procs.contains_key(pid) {
        s.procs[pid].uid
    } else {
        0
    }
}

/// The group of process `pid`; root's where there is no such process.
pub open spec fn gid_of(s: KernelView, pid: Pid) -> u32 {
    if s.procs.contains_key(pid) {
        s.procs[pid].gid
    } else {
        0
    }
}

/// The user of the running process; root before the first one.
pub fn oxidebsd_current_uid(k: &Kernel) -> (r: u64)
    requires
        k.wf(),
    ensures
        r == uid_of(k@, k@.current),
{
    if k.current == 0 {
        assert(!k@.procs.contains_key(0));
        return 0;
    }
    do_getuid(k, k.current)
}

/// The group of the running process; root's before the first one.
pub fn oxidebsd_current_gid(k: &Kernel) -> (r: u64)
    requires
        k.wf(),
    ensures
        r == gid_of(k@, k@.current),
{
    if k.current == 0 {
        assert(!k@.procs.contains_key(0));
        return 0;
    }
    do_getgid(k, k.current)
}

/// The thread group of the running process.
pub fn do_getpid(k: &Kernel) -> (r: u64)
    requires
        k.wf(),
    ensures
        r == tgid_of(k@, k@.current),
{
    current_tgid(k)
}

/// The parent of the running process; `0` where it has none.
pub fn do_getppid(k: &Kernel) -> (r: u64)
    requires
        k.wf(),
    ensures
        r == if k@.procs.contains_key(k@.current) && k@.procs[k@.current].parent is Some {
            k@.procs[k@.current].parent->0
        } else {
            0
        },
{
    match k.procs.get(k.current) {
        Some(p) => match p.parent {
            Some(pp) => pp,
            None => 0,
        },
        None => 0,
    }
}

/// The process that a number names, where zero names the caller.
pub open spec fn named(caller: Pid, pid: i64) -> Pid {
    if pid == 0 {
        caller
    } else {
        pid as u64
    }
}

/// `s` with `pid` in another process group.
pub open spec fn with_pgid(s: KernelView, pid: Pid, pgid: Pid) -> KernelView {
    with_proc(s, pid, ProcView { pgid, ..s.procs[pid] })
}

/// Moves a process to another group; zero for the group means its own.
pub fn do_setpgid(k: &mut Kernel, caller_pid: Pid, pid: i64, pgid: i64) -> (r: Result<u64, u64>)
    requires
        old(k).wf(),
    ensures
        final(k).wf(),
        ({
            let s = old(k)@;
            let target = named(caller_pid, pid);
            if pid < 0 || pgid < 0 {
                r == Err::<u64, u64>(EINVAL) && final(k)@ == s
            } else if !s.procs.contains_key(target) {
                r == Err::<u64, u64>(ESRCH) && final(k)@ == s
            } else {
                r == Ok::<u64, u64>(0) && final(k)@ == with_pgid(s, target, named(target, pgid))
            }
        }),
{
    let ghost before = k@;
    if pid < 0 || pgid < 0 {
        return Err(EINVAL);
    }
    let target: Pid = if pid == 0 {
        caller_pid
    } else {
        pid as u64
    };
    match k.procs.get_mut(target) {
        Some(p) => {
            p.pgid = if pgid == 0 {
                target
            } else {
                pgid as u64
            };
            assert(k@ =~= with_pgid(before, target, named(target, pgid)));
            Ok(0)
        },
        None => Err(ESRCH),
    }
}

/// The process group of a process.
pub fn do_getpgid(k: &Kernel, caller_pid: Pid, pid: i64) -> (r: Result<u64, u64>)
    requires
        k.wf(),
    ensures
        r == if pid < 0 {
            Err::<u64, u64>(EINVAL)
        } else if !k@.procs.contains_key(named(caller_pid, pid)) {
            Err(ESRCH)
        } else {
            Ok(k@.procs[named(caller_pid, pid)].pgid)
        },
{
    if pid < 0 {
        return Err(EINVAL);
    }
    let target: Pid = if pid == 0 {
        caller_pid
    } else {
        pid as u64
    };
    match k.procs.get(target) {
        Some(p) => Ok(p.pgid),
        None => Err(ESRCH),
    }
}

/// Makes the caller leader of a new session and a new group; a group leader cannot.
pub fn do_setsid(k: &mut Kernel, caller_pid: Pid) -> (r: Result<u64, u64>)
    requires
        old(k).wf(),
    ensures
        final(k).wf(),
        ({
            let s = old(k)@;
            if !s.procs.contains_key(caller_pid) {
                r == Err::<u64, u64>(ESRCH) && final(k)@ == s
            } else if s.procs[caller_pid].pgid == caller_pid {
                r == Err::<u64, u64>(EPERM) && final(k)@ == s
            } else {
                r == Ok::<u64, u64>(caller_pid) && final(k)@ == with_proc(
                    s,
                    caller_pid,
                    ProcView { sid: caller_pid, pgid: caller_pid, ..s.procs[caller_pid] },
                )
            }
        }),
{
    let ghost before = k@;
    match k.procs.get_mut(caller_pid) {
        Some(p) => {
            if p.pgid == caller_pid {
                assert(k@ =~= before);
                return Err(EPERM);
            }
            p.sid = caller_pid;
            p.pgid = caller_pid;
            assert(k@ =~= with_proc(
                before,
                caller_pid,
                ProcView { sid: caller_pid, pgid: caller_pid, ..before.procs[caller_pid] },
            ));
            Ok(caller_pid)
        },
        None => Err(ESRCH),
    }
}

/// The session of a process.
pub fn do_getsid(k: &Kernel, caller_pid: Pid, pid: i64) -> (r: Result<u64, u64>)
    requires
        k.wf(),
    ensures
        r == if pid < 0 {
            Err::<u64, u64>(EINVAL)
        } else if !k@.procs.contains_key(named(caller_pid, pid)) {
            Err(ESRCH)
        } else {
            Ok(k@.procs[named(caller_pid, pid)].sid)
        },
{
    if pid < 0 {
        return Err(EINVAL);
    }
    let target: Pid = if pid == 0 {
        caller_pid
    } else {
        pid as u64
    };
    match k.procs.get(target) {
        Some(p) => Ok(p.sid),
        None => Err(ESRCH),
    }
}

/// The user of the caller.
pub fn do_getuid(k: &Kernel, caller_pid: Pid) -> (r: u64)
    requires
        k.wf(),
    ensures
        r == uid_of(k@, caller_pid),
{
    match k.procs.get(caller_pid) {
        Some(p) => p.uid as u64,
        None => 0,
    }
}

/// The group of the caller.
pub fn do_getgid(k: &Kernel, caller_pid: Pid) -> (r: u64)
    requires
        k.wf(),
    ensures
        r == gid_of(k@, caller_pid),
{
    match k.procs.get(caller_pid) {
        Some(p) => p.gid as u64,
        None => 0,
    }
}

/// `s` with another user for `pid`.
pub open spec fn with_uid(s: KernelView, pid: Pid, uid: u32) -> KernelView {
    with_proc(s, pid, ProcView { uid, ..s.procs[pid] })
}

/// `s` with another group for `pid`.
pub open spec fn with_gid(s: KernelView, pid: Pid, gid: u32) -> KernelView {
    with_proc(s, pid, ProcView { gid, ..s.procs[pid] })
}

/// Becomes another user: root any, others only themselves.
pub fn do_setuid(k: &mut Kernel, caller_pid: Pid, uid: u32) -> (r: Result<u64, u64>)
    requires
        old(k).wf(),
        old(k)@.procs.contains_key(caller_pid),
    ensures
        final(k).wf(),
        ({
            let p = old(k)@.procs[caller_pid];
            if p.uid != 0 && uid != p.uid {
                r == Err::<u64, u64>(EPERM) && final(k)@ == old(k)@
            } else {
                r == Ok::<u64, u64>(0) && final(k)@ == with_uid(old(k)@, caller_pid, uid)
            }
        }),
{
    let ghost before = k@;
    if let Some(p) = k.procs.get_mut(caller_pid) {
        if p.uid != 0 && uid != p.uid {
            assert(k@ =~= before);
            return Err(EPERM);
        }
        p.uid = uid;
    }
    assert(k@ =~= with_uid(before, caller_pid, uid));
    Ok(0)
}

/// Becomes a member of another group: root of any, others only of their own.
pub fn do_setgid(k: &mut Kernel, caller_pid: Pid, gid: u32) -> (r: Result<u64, u64>)
    requires
        old(k).wf(),
        old(k)@.procs.contains_key(caller_pid),
    ensures
        final(k).wf(),
        ({
            let p = old(k)@.procs[caller_pid];
            if p.uid != 0 && gid != p.gid {
                r == Err::<u64, u64>(EPERM) && final(k)@ == old(k)@
            } else {
                r == Ok::<u64, u64>(0) && final(k)@ == with_gid(old(k)@, caller_pid, gid)
            }
        }),
{
    let ghost before = k@;
    if let Some(p) = k.procs.get_mut(caller_pid) {
        if p.uid != 0 && gid != p.gid {
            assert(k@ =~= before);
            return Err(EPERM);
        }
        p.gid = gid;
    }
    assert(k@ =~= with_gid(before, caller_pid, gid));
    Ok(0)
}

/// Whether a process of user `uid` may ask for `requested`; -1 asks for nothing.
pub open spec fn may_become(uid: u32, requested: i64) -> bool {
    requested == -1 || uid == 0 || requested as u32 == uid
}

/// The user that a triple of requests leads to: the effective one if given, else the real, else
/// the saved.
pub open spec fn chosen_uid(uid: u32, ruid: i64, euid: i64, suid: i64) -> u32 {
    if euid != -1 {
        euid as u32
    } else if ruid != -1 {
        ruid as u32
    } else if suid != -1 {
        suid as u32
    } else {
        uid
    }
}

fn allowed(uid: u32, requested: i64) -> (r: bool)
    ensures
        r == may_become(uid, requested),
{
    requested == -1 || uid == 0 || #[verifier::truncate] (requested as u32) == uid
}

/// Sets the user by real, effective and saved request, -1 leaving one as it is.
pub fn do_setresuid(k: &mut Kernel, caller_pid: Pid, ruid: i64, euid: i64, suid: i64) -> (r: Result<
    u64,
    u64,
>)
    requires
        old(k).wf(),
        old(k)@.procs.contains_key(caller_pid),
    ensures
        final(k).wf(),
        ({
            let u = old(k)@.procs[caller_pid].uid;
            if may_become(u, ruid) && may_become(u, euid) && may_become(u, suid) {
                r == Ok::<u64, u64>(0) && final(k)@ == with_uid(
                    old(k)@,
                    caller_pid,
                    chosen_uid(u, ruid, euid, suid),
                )
            } else {
                r == Err::<u64, u64>(EPERM) && final(k)@ == old(k)@
            }
        }),
{
    let ghost before = k@;
    if let Some(p) = k.procs.get_mut(caller_pid) {
        if !allowed(p.uid, ruid) || !allowed(p.uid, euid) || !allowed(p.uid, suid) {
            assert(k@ =~= before);
            return Err(EPERM);
        }
        if euid != -1 {
            p.uid = #[verifier::truncate] (euid as u32);
        } else if ruid != -1 {
            p.uid = #[verifier::truncate] (ruid as u32);
        } else if suid != -1 {
            p.uid = #[verifier::truncate] (suid as u32);
        }
    }
    assert(k@ =~= with_uid(
        before,
        caller_pid,
        chosen_uid(before.procs[caller_pid].uid, ruid, euid, suid),
    ));
    Ok(0)
}

/// The list of groups: always the one group. A size of zero only asks for the count; else the
/// group to store is given too.
pub fn do_getgroups(k: &Kernel, caller_pid: Pid, size: i64) -> (r: Result<(u64, Option<u32>), u64>)
    requires
        k.wf(),
    ensures
        r == if size == 0 {
            Ok::<(u64, Option<u32>), u64>((1, None))
        } else if size < 1 {
            Err(EINVAL)
        } else {
            Ok((1, Some(gid_of(k@, caller_pid))))
        },
{
    if size == 0 {
        return Ok((1, None));
    }
    if size < 1 {
        return Err(EINVAL);
    }
    Ok((1, Some(do_getgid(k, caller_pid) as u32)))
}

/// Sets the list of groups, which only root may; nothing is kept of it.
pub fn do_setgroups(k: &Kernel, caller_pid: Pid, _count: u64) -> (r: Result<u64, u64>)
    requires
        k.wf(),
        k@.procs.contains_key(caller_pid),
    ensures
        r == if k@.procs[caller_pid].uid != 0 {
            Err::<u64, u64>(EPERM)
        } else {
            Ok(0)
        },
{
    match k.procs.get(caller_pid) {
        Some(p) => if p.uid != 0 {
            Err(EPERM)
        } else {
            Ok(0)
        },
        None => Ok(0),
    }
}

/// The process that `target` names, where zero names the caller, if there is such a process.
pub open spec fn target_of(s: KernelView, caller: Pid, target: i64) -> Result<Pid, u64> {
    if target == 0 {
        Ok(caller)
    } else if s.procs.contains_key(target as u64) {
        Ok(target as u64)
    } else {
        Err(ESRCH)
    }
}

/// The process that `target` names, where zero names the caller.
pub fn resolve_target_pid(k: &Kernel, caller_pid: Pid, target: i64) -> (r: Result<Pid, u64>)
    requires
        k.wf(),
    ensures
        r == target_of(k@, caller_pid, target),
{
    if target == 0 {
        return Ok(caller_pid);
    }
    let pid: Pid = #[verifier::truncate] (target as u64);
    if k.procs.contains_key(pid) {
        Ok(pid)
    } else {
        Err(ESRCH)
    }
}

/// A new session leader leads a group too, so it cannot start another session.
pub proof fn law_setsid_once(s: KernelView, pid: Pid)
    requires
        s.procs.contains_key(pid),
    ensures
        ({
            let t = with_proc(s, pid, ProcView { sid: pid, pgid: pid, ..s.procs[pid] });
            t.procs[pid].pgid == pid && t.procs[pid].sid == pid
        }),
{
}

/// Who has given up root cannot get it back.
pub proof fn law_no_way_back(uid: u32, ruid: i64, euid: i64, suid: i64)
    requires
        uid != 0,
        may_become(uid, ruid) && may_become(uid, euid) && may_become(uid, suid),
    ensures
        chosen_uid(uid, ruid, euid, suid) == uid,
{
}

} // verus!

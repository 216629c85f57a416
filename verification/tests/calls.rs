//! Identity, limits, timers, memory and the process file system.

use oxidebsd::addr::page_count;
use oxidebsd::errno::{EAGAIN, EINVAL, ENODEV, ENOMEM, EPERM, ESRCH, ETIMEDOUT};
use oxidebsd::process::identity::{
    do_getgid, do_getgroups, do_getpgid, do_getpid, do_getppid, do_getsid, do_getuid, do_setgid,
    do_setgroups, do_setpgid, do_setresuid, do_setsid, do_setuid, oxidebsd_current_gid,
    oxidebsd_current_uid, resolve_target_pid,
};
use oxidebsd::process::lifecycle::{do_exit, do_fork_from_current, spawn, SpawnImage};
use oxidebsd::process::limits::{
    do_futex, do_getpriority, do_prlimit64, do_sched_get_priority_max, do_sched_get_priority_min,
    do_sched_getaffinity, do_sched_getparam, do_sched_getscheduler, do_sched_rr_get_interval,
    do_sched_setscheduler, do_sched_yield, do_setpriority, do_umask, futex_woken,
    has_sched_permission, is_known_sched_policy, sched_priority_range, wake_futex, Futex,
    FUTEX_WAIT, FUTEX_WAKE,
};
use oxidebsd::process::mm::{
    commit_file_mapping, complete_brk, complete_munmap, do_brk, do_mmap, do_mprotect, do_munmap,
    mmap_result, place_file_mapping, populate_frames, release_mmap_file_ref, signal_for_user_fault,
    writeback_extent, writeback_region, BrkPlan, MmapPlan,
};
use oxidebsd::process::procfs::{
    copy_into, oxidebsd_proc_cmdline, oxidebsd_proc_exists, oxidebsd_proc_meminfo,
    oxidebsd_proc_pid_at, oxidebsd_proc_stat_global, oxidebsd_proc_stat_line, oxidebsd_proc_status,
    oxidebsd_proc_uptime, push_decimal, state_char,
};
use oxidebsd::process::scheduler::{schedule, start, SchedAction};
use oxidebsd::process::timers::{
    abstime_to_ticks, do_getitimer, do_nanosleep, do_setitimer, do_timer_create, do_timer_delete,
    do_timer_getoverrun, do_timer_gettime, do_timer_settime, nanosleep_deadline, ticks_to_timespec,
    ticks_to_timeval, timespec_to_ticks, timeval_to_ticks, Interval, CLOCK_MONOTONIC,
    CLOCK_REALTIME,
};
use oxidebsd::process::{Kernel, ProcState, Step, SIGBUS, SIGSEGV};

fn booted() -> Kernel {
    let mut k = Kernel::new();
    let image = SpawnImage {
        address_space: 1,
        entry: 2,
        initial_rsp: 3,
        brk: 0x5000,
        kernel_stack_top: 4,
        rsp: 5,
        fpu_state: [0; 512],
    };
    assert_eq!(spawn(&mut k, Ok(image), None), Ok(1));
    start(&mut k, 1);
    k
}

fn family() -> Kernel {
    let mut k = booted();
    assert_eq!(do_fork_from_current(&mut k, 22, 23, 24), Ok(2));
    k
}

#[test]
fn numbers_of_processes() {
    let mut k = family();
    assert_eq!((do_getpid(&k), do_getppid(&k)), (1, 0));
    assert_eq!(do_getpgid(&k, 1, 0), Ok(1));
    assert_eq!(do_getpgid(&k, 1, 2), Ok(1));
    assert_eq!(do_getpgid(&k, 1, 9), Err(ESRCH));
    assert_eq!(do_getsid(&k, 1, 0), Ok(1));
    assert_eq!(do_setpgid(&mut k, 1, 2, 0), Ok(0));
    assert_eq!(do_getpgid(&k, 1, 2), Ok(2));
    assert_eq!(do_setsid(&mut k, 1), Err(EPERM));
    assert_eq!(resolve_target_pid(&k, 1, 0), Ok(1));
    assert_eq!(resolve_target_pid(&k, 1, 2), Ok(2));
    assert_eq!(resolve_target_pid(&k, 1, 9), Err(ESRCH));
}

#[test]
fn session_is_made_once() {
    let mut k = family();
    assert_eq!(do_setsid(&mut k, 2), Ok(2));
    assert_eq!(do_getsid(&k, 2, 0), Ok(2));
    assert_eq!(do_setsid(&mut k, 2), Err(EPERM));
}

#[test]
fn users_and_groups() {
    let mut k = booted();
    assert_eq!((do_getuid(&k, 1), do_getgid(&k, 1)), (0, 0));
    assert_eq!(do_setgid(&mut k, 1, 7), Ok(0));
    assert_eq!(do_setgroups(&k, 1, 0), Ok(0));
    assert_eq!(do_setuid(&mut k, 1, 5), Ok(0));
    assert_eq!((oxidebsd_current_uid(&k), oxidebsd_current_gid(&k)), (5, 7));
    assert_eq!(do_setuid(&mut k, 1, 0), Err(EPERM));
    assert_eq!(do_setuid(&mut k, 1, 5), Ok(0));
    assert_eq!(do_setgid(&mut k, 1, 0), Err(EPERM));
    assert_eq!(do_setgroups(&k, 1, 0), Err(EPERM));
    assert_eq!(do_setresuid(&mut k, 1, -1, -1, -1), Ok(0));
    assert_eq!(do_setresuid(&mut k, 1, 0, 0, 0), Err(EPERM));
    assert_eq!(do_getgroups(&k, 1, 0), Ok((1, None)));
    assert_eq!(do_getgroups(&k, 1, 4), Ok((1, Some(7))));
}

#[test]
fn limits_of_resources() {
    let mut k = booted();
    assert_eq!(do_prlimit64(&mut k, 1, 0, 7, Some((10, 20))), Ok((u64::MAX, u64::MAX)));
    assert_eq!(do_prlimit64(&mut k, 1, 0, 7, None), Ok((10, 20)));
    assert_eq!(do_prlimit64(&mut k, 1, 0, 16, None), Err(EINVAL));
    assert_eq!(do_prlimit64(&mut k, 1, 9, 7, None), Err(ESRCH));
    assert_eq!(do_umask(&mut k, 1, 0o77), Ok(0o22));
    assert_eq!(do_umask(&mut k, 1, 0xffff), Ok(0o77));
    assert_eq!(do_umask(&mut k, 1, 0), Ok(0o777));
}

#[test]
fn priorities() {
    let mut k = booted();
    assert_eq!(do_getpriority(&k, 1, 0, 0), Ok(20));
    assert_eq!(do_setpriority(&mut k, 1, 0, 0, -30), Ok(0));
    assert_eq!(do_getpriority(&k, 1, 0, 0), Ok(40));
    assert_eq!(do_setpriority(&mut k, 1, 0, 0, 30), Ok(0));
    assert_eq!(do_getpriority(&k, 1, 0, 0), Ok(1));
    assert_eq!(do_getpriority(&k, 1, 1, 0), Err(EINVAL));
    assert_eq!(do_setpriority(&mut k, 1, 1, 0, 0), Err(EINVAL));
    assert_eq!(do_getpriority(&k, 1, 0, 9), Err(ESRCH));
    for p in [-100, -20, -7, 0, 5, 19, 100] {
        assert_eq!(do_setpriority(&mut k, 99, 0, 1, p), Ok(0));
        assert_eq!(do_getpriority(&k, 99, 0, 1), Ok((20 - p.clamp(-20, 19)) as u64));
    }
    assert_eq!(do_setpriority(&mut k, 99, 1, 0, 0), Err(EINVAL));
    assert_eq!(do_prlimit64(&mut k, 99, 0, 16, None), Err(EINVAL));
}

#[test]
fn scheduling_policies() {
    let mut k = family();
    assert!(is_known_sched_policy(0) && is_known_sched_policy(2) && !is_known_sched_policy(4));
    assert_eq!(sched_priority_range(1), (1, 99));
    assert_eq!(sched_priority_range(0), (0, 0));
    assert_eq!(do_sched_get_priority_max(1), Ok(99));
    assert_eq!(do_sched_get_priority_min(1), Ok(1));
    assert_eq!(do_sched_get_priority_max(4), Err(EINVAL));
    assert!(has_sched_permission(0, 9) && !has_sched_permission(8, 9));
    assert_eq!(do_sched_getscheduler(&k, 1, 0), Ok(2));
    assert!(do_sched_setscheduler(&mut k, 1, 2, 1, 50).is_ok());
    assert_eq!(do_sched_getscheduler(&k, 1, 2), Ok(1));
    assert_eq!(do_sched_getparam(&k, 1, 2), Ok(50));
    assert_eq!(do_sched_setscheduler(&mut k, 1, 2, 1, 100), Err(EINVAL));
    assert_eq!(do_sched_setscheduler(&mut k, 1, 2, 4, 0), Err(EINVAL));
    assert_eq!(do_sched_setscheduler(&mut k, 1, 9, 1, 5), Err(ESRCH));
    assert_eq!(do_sched_rr_get_interval(&k, 1, 0, 10), Ok((0, 100_000_000)));
    assert_eq!(do_sched_getaffinity(&k, 1, 0, 8), Ok(vec![1, 0, 0, 0, 0, 0, 0, 0]));
    assert_eq!(do_sched_getaffinity(&k, 1, 0, 2), Ok(vec![1, 0]));
    assert_eq!(do_sched_getaffinity(&k, 1, 0, 0), Err(EINVAL));
    let (_, a, r) = do_sched_yield(&mut k);
    assert!(matches!(a, SchedAction::Switch(s) if s.to == 2));
    assert_eq!(r, Ok(0));
}

#[test]
fn futexes() {
    let mut k = booted();
    assert_eq!(do_futex(&mut k, 1, 0x100, FUTEX_WAIT, 5, 6, None, 0), Futex::Done(Err(EAGAIN)));
    assert_eq!(
        do_futex(&mut k, 1, 0x100, FUTEX_WAIT, 5, 5, Some((1, 0)), 10),
        Futex::Block { deadline: 110 }
    );
    assert_eq!(futex_woken(&k, 1, 110, 110), Err(ETIMEDOUT));
    assert_eq!(wake_futex(&mut k, 1, 0x200, 1), 0);
    assert_eq!(wake_futex(&mut k, 1, 0x100, 1), 1);
    assert_eq!(k.procs.get(1).unwrap().state, ProcState::Ready);
    assert!(k.ready.iter().eq([1].iter()));
    assert_eq!(wake_futex(&mut k, 1, 0x100, 1), 0);
    assert!(k.ready.iter().eq([1].iter()));
    assert_eq!(futex_woken(&k, 1, 110, 20), Ok(0));
    assert_eq!(do_futex(&mut k, 1, 0x100, FUTEX_WAKE, 1, 0, None, 0), Futex::Done(Ok(0)));
    assert_eq!(do_futex(&mut k, 1, 0x100, 77, 1, 0, None, 0), Futex::Done(Ok(0)));
}

#[test]
fn times_and_ticks() {
    assert_eq!(timespec_to_ticks(1, 5), Some(101));
    assert_eq!(timespec_to_ticks(0, 10_000_000), Some(1));
    assert_eq!(timespec_to_ticks(-1, 0), None);
    assert_eq!(timespec_to_ticks(0, 1_000_000_000), None);
    assert_eq!(timeval_to_ticks(2, 10_000), Some(201));
    assert_eq!(timeval_to_ticks(0, -1), None);
    assert_eq!(ticks_to_timeval(250), (2, 500_000));
    assert_eq!(ticks_to_timespec(250), (2, 500_000_000));
    assert_eq!(abstime_to_ticks(CLOCK_MONOTONIC, 3, 0, 7, 0), 300);
    assert_eq!(abstime_to_ticks(CLOCK_REALTIME, 1003, 0, 7, 1000), 307);
    assert_eq!(abstime_to_ticks(CLOCK_REALTIME, 900, 0, 7, 1000), 7);
}

#[test]
fn sleeping() {
    let mut k = booted();
    assert_eq!(nanosleep_deadline(1, 0, 5), Ok(Some(105)));
    assert_eq!(nanosleep_deadline(0, 0, 5), Ok(None));
    assert_eq!(nanosleep_deadline(0, -1, 5), Err(EINVAL));
    assert_eq!(do_nanosleep(&mut k, 1, 105, 5), Step::Block);
    assert!(matches!(do_nanosleep(&mut k, 1, 105, 105), Step::Done(Ok(0))));
}

#[test]
fn interval_timer_reads_back() {
    let mut k = booted();
    let t = Interval { interval: (1, 0), value: (2, 0) };
    let old = do_setitimer(&mut k, 1, 0, Some(t), 1000).ok().unwrap();
    assert_eq!(old.value, (0, 0));
    let got = do_getitimer(&k, 1, 0, true, 1050).ok().unwrap();
    assert_eq!((got.interval, got.value), ((1, 0), (1, 500_000)));
    assert!(do_setitimer(&mut k, 1, 5, Some(t), 0).is_err());
    let huge = Interval { interval: (0, -1), value: (i64::MAX, 0) };
    assert_eq!(do_setitimer(&mut k, 1, 0, Some(huge), u64::MAX), Err(EINVAL));
    let late = Interval { interval: (i64::MAX, 0), value: (-1, 0) };
    assert_eq!(do_setitimer(&mut k, 1, 0, Some(late), 0), Err(EINVAL));
    assert_eq!(do_setitimer(&mut k, 1, 1, Some(huge), u64::MAX), Err(EINVAL));
    assert!(do_getitimer(&k, 1, 5, true, 0).is_err());
}

#[test]
fn posix_timers() {
    let mut k = booted();
    assert_eq!(do_timer_create(&mut k, 1, CLOCK_MONOTONIC, None), Ok(0));
    assert_eq!(do_timer_create(&mut k, 1, CLOCK_MONOTONIC, None), Ok(1));
    assert!(do_timer_create(&mut k, 1, 99, None).is_err());
    let t = Interval { interval: (0, 0), value: (1, 0) };
    assert!(do_timer_settime(&mut k, 1, 0, 0, Some(t), 100, 0).is_ok());
    let got = do_timer_gettime(&k, 1, 0, true, 150).ok().unwrap();
    assert_eq!(got.value, (0, 500_000_000));
    assert_eq!(do_timer_getoverrun(&k, 1, 0), Ok(0));
    let huge = Interval { interval: (0, 0), value: (i64::MAX, 0) };
    assert_eq!(do_timer_settime(&mut k, 1, 7, 0, Some(huge), u64::MAX, 0), Err(EINVAL));
    assert_eq!(do_timer_settime(&mut k, 1, 0, 2, Some(huge), u64::MAX, 0), Err(EINVAL));
    let bad = Interval { interval: (0, -1), value: (i64::MAX, 0) };
    assert_eq!(do_timer_settime(&mut k, 1, 0, 0, Some(bad), u64::MAX, 0), Err(EINVAL));
    assert_eq!(do_timer_delete(&mut k, 1, 0), Ok(0));
    assert_eq!(do_timer_delete(&mut k, 1, 0), Err(EINVAL));
    assert_eq!(do_timer_getoverrun(&k, 1, 0), Err(EINVAL));
    assert_eq!(do_timer_create(&mut k, 1, CLOCK_MONOTONIC, None), Ok(0));
    for i in 2..8 {
        assert_eq!(do_timer_create(&mut k, 1, CLOCK_MONOTONIC, None), Ok(i));
    }
    assert_eq!(do_timer_create(&mut k, 1, CLOCK_MONOTONIC, None), Err(EAGAIN));
}

#[test]
fn anonymous_mappings() {
    let mut k = booted();
    assert_eq!(do_mmap(&mut k.mem, 0, 0, 3, -1, 0, None), Err(EINVAL));
    assert_eq!(
        do_mmap(&mut k.mem, 0, 5000, 3, -1, 0, None),
        Ok(MmapPlan::Anonymous { base: 0x2000_0000_0000, pages: 2 })
    );
    assert_eq!(
        do_mmap(&mut k.mem, 0, 1, 3, -1, 0, None),
        Ok(MmapPlan::Anonymous { base: 0x2000_0000_2000, pages: 1 })
    );
    assert_eq!(do_mmap(&mut k.mem, 0, 0x1000_0000_0000, 3, -1, 0, None), Err(ENOMEM));
    assert_eq!(mmap_result(5, true), Ok(5));
    assert_eq!(mmap_result(5, false), Err(ENOMEM));
    assert_eq!(do_mprotect(0, 0, 0), Ok(0));
    assert_eq!(page_count(4097), 2);
}

#[test]
fn file_mappings_share_frames() {
    let mut k = booted();
    assert_eq!(do_mmap(&mut k.mem, 0, 1, 3, 4, 1, Some((9, 10))), Err(EINVAL));
    assert_eq!(do_mmap(&mut k.mem, 0, 1, 3, 4, 0, None), Err(ENODEV));
    let plan = match do_mmap(&mut k.mem, 0, 12288, 3, 4, 0, Some((9, 5000))) {
        Ok(MmapPlan::File(p)) => p,
        _ => panic!("no plan"),
    };
    assert_eq!((plan.page_count, plan.covered_pages, plan.new_frames), (3, 2, 2));
    assert_eq!((plan.read_off, plan.read_len, plan.writable), (0, 5000, true));
    let (base, frames) = place_file_mapping(&mut k.mem, &plan, vec![70, 71]).ok().unwrap();
    assert_eq!(frames, vec![70, 71]);
    commit_file_mapping(&mut k, 1, &plan, base);
    let again = match do_mmap(&mut k.mem, 0, 8192, 1, 4, 0, Some((9, 5000))) {
        Ok(MmapPlan::File(p)) => p,
        _ => panic!("no plan"),
    };
    assert_eq!((again.new_frames, again.writable), (0, false));
    let (second, frames) = place_file_mapping(&mut k.mem, &again, vec![]).ok().unwrap();
    assert_eq!(frames, vec![70, 71]);
    assert_eq!(second, base + 12288);
    commit_file_mapping(&mut k, 1, &again, second);
    assert_eq!(signal_for_user_fault(&k, 1, base + 8192), SIGBUS);
    assert_eq!(signal_for_user_fault(&k, 1, 0x10), SIGSEGV);
    let u = do_munmap(&k, 1, base, 12288).ok().unwrap();
    assert!(u.file_region);
    assert_eq!(complete_munmap(&mut k, 1, base, true), Ok(0));
    assert_eq!(k.mem.writebacks.len(), 1);
    assert_eq!(k.mem.writebacks[0].frames, vec![70, 71]);
    assert_eq!(writeback_extent(&k.mem.writebacks[0].region, 5000), Some(5000));
    assert_eq!(writeback_extent(&k.mem.writebacks[0].region, 0), None);
    let region = k.mem.writebacks[0].region;
    let pages = vec![vec![1u8; 4096], vec![2u8; 4096]];
    let bytes = writeback_region(&region, 5000, &pages).unwrap();
    assert_eq!((bytes.len(), bytes[0], bytes[4095], bytes[4096], bytes[4999]), (5000, 1, 1, 2, 2));
    let bytes = writeback_region(&region, 9000, &pages).unwrap();
    assert_eq!((bytes.len(), bytes[8191], bytes[8192], bytes[8999]), (9000, 2, 0, 0));
    assert!(writeback_region(&region, 12289, &pages).is_none());
    let data: Vec<u8> = (0..5000u32).map(|i| (i % 251) as u8).collect();
    let filled = populate_frames(&data, 2);
    assert_eq!((filled.len(), filled[1].len(), filled[1][904]), (2, 4096, 0));
    assert_eq!(writeback_region(&region, 5000, &filled), Some(data));
    assert!(k.mem.cache.contains_key(9));
    release_mmap_file_ref(&mut k.mem, 9);
    assert!(!k.mem.cache.contains_key(9));
}

#[test]
fn exit_releases_mappings() {
    let mut k = booted();
    let plan = match do_mmap(&mut k.mem, 0, 4096, 3, 4, 0, Some((9, 10))) {
        Ok(MmapPlan::File(p)) => p,
        _ => panic!("no plan"),
    };
    let (base, _) = place_file_mapping(&mut k.mem, &plan, vec![70]).ok().unwrap();
    commit_file_mapping(&mut k, 1, &plan, base);
    do_exit(&mut k, 1, 0);
    assert!(!k.mem.cache.contains_key(9));
    assert_eq!(k.mem.writebacks.len(), 1);
    let (_, a) = schedule(&mut k);
    assert_eq!(a, SchedAction::Idle);
}

#[test]
fn addresses_that_cannot_be_unmapped() {
    let k = booted();
    assert!(matches!(do_munmap(&k, 1, 0x2000_0000_0000, 0), Err(EINVAL)));
    assert!(matches!(do_munmap(&k, 1, 0x0000_8000_0000_0000, 4096), Err(EINVAL)));
    assert!(matches!(do_munmap(&k, 1, 0x0000_7fff_ffff_f000, 4097), Err(EINVAL)));
    assert!(matches!(do_munmap(&k, 1, u64::MAX, u64::MAX), Err(EINVAL)));
    assert!(do_munmap(&k, 1, 0xffff_8000_0000_0000, 4096).is_ok());
    assert!(do_munmap(&k, 1, 0x0000_7fff_ffff_f000, 4096).is_ok());
    let u = do_munmap(&k, 1, 0x2000_0000_0000, 4097).ok().unwrap();
    assert_eq!((u.first_page, u.last_page), (0x2000_0000_0000, 0x2000_0000_1000));
}

#[test]
fn heaps() {
    let mut k = booted();
    assert_eq!(do_brk(&mut k, 1, 0), BrkPlan::Done(Ok(0x5000)));
    assert_eq!(
        do_brk(&mut k, 1, 0x7800),
        BrkPlan::Grow { first_page: 0x5000, last_page: 0x7000, new_top: 0x7800 }
    );
    assert_eq!(complete_brk(&mut k, 1, 0x7800, true), Ok(0x7800));
    assert_eq!(do_brk(&mut k, 1, 0x7900), BrkPlan::Done(Ok(0x7900)));
    assert_eq!(do_brk(&mut k, 1, 0x2000_0000), BrkPlan::Done(Err(ENOMEM)));
}

#[test]
fn process_files() {
    let mut k = family();
    assert_eq!(oxidebsd_proc_exists(&k, 1), 1);
    assert_eq!(oxidebsd_proc_exists(&k, 9), 0);
    assert_eq!(oxidebsd_proc_pid_at(&k, 0), Some(1));
    assert_eq!(oxidebsd_proc_pid_at(&k, 1), Some(2));
    assert_eq!(oxidebsd_proc_pid_at(&k, 2), None);
    k.procs.get_mut(1).unwrap().comm = b"init".to_vec();
    let line = oxidebsd_proc_stat_line(&k, 1, 1000).unwrap();
    let text = String::from_utf8(line).unwrap();
    assert!(text.starts_with("1 (init) R 0 1 1"), "{}", text);
    assert!(oxidebsd_proc_stat_line(&k, 9, 1000).is_none());
    assert_eq!(oxidebsd_proc_stat_line(&k, 1, 5).unwrap(), b"1 (in".to_vec());
    let status = String::from_utf8(oxidebsd_proc_status(&k, 2, 1000).unwrap()).unwrap();
    assert!(status.starts_with("Name:\t"), "{}", status);
    assert!(status.contains("Pid:\t2\n"), "{}", status);
    assert!(status.contains("PPid:\t1\n"), "{}", status);
    k.procs.get_mut(1).unwrap().cmdline = b"a\0".to_vec();
    assert_eq!(oxidebsd_proc_cmdline(&k, 1, 100), Some(b"a\0".to_vec()));
}

#[test]
fn system_files() {
    let m = String::from_utf8(oxidebsd_proc_meminfo(2048, 1000)).unwrap();
    assert!(m.starts_with("MemTotal:"), "{}", m);
    assert!(m.contains("2 kB\n"), "{}", m);
    let u = String::from_utf8(oxidebsd_proc_uptime(12345, 100)).unwrap();
    assert!(u.starts_with("123.45 "), "{}", u);
    assert_eq!(oxidebsd_proc_stat_global(77, 100), b"cpu  0 0 0 77 0 0 0 0\n".to_vec());
    let mut d = Vec::new();
    push_decimal(&mut d, 0);
    push_decimal(&mut d, u64::MAX);
    assert_eq!(d, b"018446744073709551615".to_vec());
    assert_eq!(copy_into(b"abcdef".to_vec(), 3), b"abc".to_vec());
    assert_eq!(state_char(ProcState::Running), b'R');
    assert_eq!(state_char(ProcState::Zombie(0)), b'Z');
    assert_eq!(state_char(ProcState::Stopped(19)), b'T');
}

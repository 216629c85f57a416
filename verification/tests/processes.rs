//! Processes: birth, death, scheduling, signals.

use oxidebsd::errno::{EAGAIN, ECHILD, EINVAL, EPERM, ESRCH};
use oxidebsd::exec::{
    basename, build_cmdline, exec_argv, exec_begin, exec_entry, exec_step, parse_shebang_line,
    read_ptr_len_array, trim_ascii_whitespace,
};
use oxidebsd::process::fault_trampoline;
use oxidebsd::process::lifecycle::{
    do_execve, do_exit, do_fork_from_current, do_reboot, do_stop_self, do_wait4, first_entry,
    map_user_stack, oxidebsd_get_cwd, oxidebsd_get_root, oxidebsd_set_cwd, oxidebsd_set_root,
    init_environment, spawn, terminate_process, user_stack_bottom, ElfError, ExecError, ExecImage, Shutdown, SpawnError,
    SpawnImage, Wait, RB_AUTOBOOT, RB_HALT_SYSTEM, RB_POWER_OFF, WCONTINUED, WNOHANG, WUNTRACED,
};
use oxidebsd::process::scheduler::{
    current_pid, current_tgid, dequeue_highest_priority, enqueue_ready, pick_next,
    queue_thread_reap, ready_queue_has_higher_priority_than, reap_pending_threads, remove_ready,
    schedule, start, ReapKind, SchedAction,
};
use oxidebsd::process::signals::{
    default_disposition, do_kill, do_pause, do_sigaction, do_sigaltstack, do_sigpending,
    do_sigprocmask, do_sigqueue, do_sigsuspend, do_sigtimedwait, has_signal_permission,
    resolve_relative_deadline, restore_blocked_signals, set_signal_saved_blocked_override, sig_bit,
    siginfo_bytes, siginfo_value, signal_foreground_group, sigsuspend_step, sigtimedwait_answer,
    stash_signal_context, take_deliverable_signal, take_signal_saved_frame,
    take_sigsuspend_restore_mask, wake_if_futex_waiting, wake_if_mq_waiting, wake_if_paused,
    wake_if_sigwaiting, wake_if_sleeping, DefaultDisposition, SigWait, SignalDelivery,
};
use oxidebsd::process::{
    kernel_stack_size, user_stack_pages, AltStack, BlockReason, Kernel, ProcState, QueuedSigInfo,
    SigAction, Step, SyscallFrame, SIGCHLD, SIGCONT, SIGINT, SIGKILL, SIGSTOP, SIGTERM, SIGTSTP,
    SIGUSR1, SIGUSR2, SS_DISABLE,
};

fn image(n: u64) -> SpawnImage {
    SpawnImage {
        address_space: n,
        entry: 0x1000 + n,
        initial_rsp: 0x2000 + n,
        brk: 0x5000,
        kernel_stack_top: 0x3000 + n,
        rsp: 0x4000 + n,
        fpu_state: [0; 512],
    }
}

fn booted() -> Kernel {
    let mut k = Kernel::new();
    assert_eq!(spawn(&mut k, Ok(image(1)), None), Ok(1));
    let s = start(&mut k, 1);
    assert_eq!((s.from, s.to, s.address_space), (0, 1, 1));
    k
}

/// Process 1 runs and has the child 2.
fn family() -> Kernel {
    let mut k = booted();
    assert_eq!(do_fork_from_current(&mut k, 22, 23, 24), Ok(2));
    k
}

fn state(k: &Kernel, pid: u64) -> ProcState {
    k.procs.get(pid).unwrap().state
}

fn caught(handler: u64) -> SigAction {
    SigAction { handler, flags: 0, restorer: 7, mask: 0 }
}

#[test]
fn stack_sizes_scale_within_bounds() {
    assert_eq!(kernel_stack_size(0), 131072);
    assert_eq!(kernel_stack_size(64 << 20), 262144);
    assert_eq!(kernel_stack_size(u64::MAX), 524288);
    assert_eq!(user_stack_pages(0), 4);
    assert_eq!(user_stack_pages(16 << 20), 16);
    assert_eq!(user_stack_pages(u64::MAX), 64);
    assert_eq!(user_stack_bottom(0x5000_0000_0000, 4), 0x4fff_ffff_c000);
    assert_eq!(map_user_stack(0x5000, 2), vec![0x3000, 0x4000]);
}

#[test]
fn spawn_and_start() {
    let mut k = Kernel::new();
    assert_eq!(
        spawn(&mut k, Err(ElfError::LoadFailed), None),
        Err(SpawnError::Elf(ElfError::LoadFailed))
    );
    let env = init_environment();
    assert_eq!(env[0], b"PATH=/bin".to_vec());
    assert_eq!(env[1], b"TERM=linux".to_vec());
    let prompt: &[u8] = b"PS1=\\[\\e[1;32m\\]\\u@\\h\\[\\e[0m\\]:\\[\\e[1;34m\\]\\w\\[\\e[0m\\]\\$ ";
    assert_eq!(env[2], prompt.to_vec());
    let k = booted();
    assert_eq!((current_pid(&k), current_tgid(&k)), (1, 1));
    assert_eq!(first_entry(&k), (0x1001, 0x2001));
    assert_eq!(state(&k, 1), ProcState::Running);
    assert!(k.ready.is_empty());
}

#[test]
fn fork_inherits() {
    let mut k = booted();
    oxidebsd_set_cwd(&mut k, 77);
    do_sigaction(&mut k, 1, SIGUSR1, Some(caught(0x99)));
    do_sigprocmask(&mut k, 1, 2, Some(sig_bit(SIGUSR2)));
    assert_eq!(do_fork_from_current(&mut k, 22, 23, 24), Ok(2));
    let c = k.procs.get(2).unwrap();
    assert_eq!((c.cwd, c.brk, c.parent, c.rsp), (77, 0x5000, Some(1), 24));
    assert_eq!(c.sigactions[SIGUSR1 as usize].handler, 0x99);
    assert_eq!(c.blocked_signals, sig_bit(SIGUSR2));
    assert_eq!(c.state, ProcState::Ready);
    assert_eq!(k.procs.get(1).unwrap().children, vec![2]);
}

#[test]
fn exit_is_reported_to_a_waiting_parent() {
    let mut k = family();
    assert_eq!(do_wait4(&mut k, 1, -1, WNOHANG), Wait::Nothing);
    assert_eq!(do_wait4(&mut k, 1, 9, 0), Wait::Failed(ECHILD));
    assert_eq!(do_wait4(&mut k, 1, -1, 0), Wait::Block);
    assert_eq!(state(&k, 1), ProcState::Blocked(BlockReason::WaitingForChild(None)));
    let (_, a) = schedule(&mut k);
    assert!(matches!(a, SchedAction::Switch(s) if s.to == 2));
    do_exit(&mut k, 2, 5);
    assert_eq!(state(&k, 2), ProcState::Zombie(5));
    assert_eq!(state(&k, 1), ProcState::Ready);
    assert_eq!(k.exits, vec![2]);
    let (_, a) = schedule(&mut k);
    assert!(matches!(a, SchedAction::Switch(s) if s.to == 1));
    match do_wait4(&mut k, 1, -1, 0) {
        Wait::Reported { pid, status, .. } => assert_eq!((pid, status), (2, 5)),
        _ => panic!("not reported"),
    }
    assert_eq!(do_wait4(&mut k, 1, -1, 0), Wait::Failed(ECHILD));
}

#[test]
fn stop_and_continue_are_reported() {
    let mut k = family();
    assert_eq!(do_kill(&mut k, 1, 2, SIGSTOP as i64), Ok(0));
    assert_eq!(state(&k, 2), ProcState::Stopped(SIGSTOP));
    assert!(k.ready.is_empty());
    assert_eq!(do_wait4(&mut k, 1, -1, WNOHANG), Wait::Nothing);
    match do_wait4(&mut k, 1, -1, WUNTRACED) {
        Wait::Reported { pid, status, .. } => assert_eq!((pid, status), (2, 0x137f)),
        _ => panic!("not reported"),
    }
    assert_eq!(do_wait4(&mut k, 1, -1, WUNTRACED | WNOHANG), Wait::Nothing);
    assert_eq!(do_kill(&mut k, 1, 2, SIGCONT as i64), Ok(0));
    assert_eq!(state(&k, 2), ProcState::Ready);
    assert!(matches!(do_wait4(&mut k, 1, -1, WCONTINUED), Wait::Reported { pid: 2, .. }));
}

#[test]
fn stopping_oneself() {
    let mut k = family();
    do_stop_self(&mut k, 1, SIGTSTP);
    assert_eq!(state(&k, 1), ProcState::Stopped(SIGTSTP));
}

#[test]
fn exec_keeps_and_resets() {
    let mut k = booted();
    do_sigaction(&mut k, 1, SIGUSR1, Some(caught(0x99)));
    do_sigaction(&mut k, 1, SIGUSR2, Some(caught(1)));
    let path = exec_begin(b"/bin/cat");
    let i = ExecImage { address_space: 9, entry: 8, initial_rsp: 7, brk: 6 };
    let argv = vec![b"cat".to_vec(), b"x".to_vec()];
    assert_eq!(do_execve(&mut k, 1, &path, &argv, Err(ExecError::File(2))), Err(2));
    let bad = Err(ExecError::Program(ElfError::Malformed));
    assert_eq!(do_execve(&mut k, 1, &path, &argv, bad), Err(8));
    assert_eq!(k.procs.get(1).unwrap().address_space, Some(1));
    assert_eq!(do_execve(&mut k, 1, &path, &argv, Ok(i)), Ok(Some(1)));
    let p = k.procs.get(1).unwrap();
    assert_eq!((p.pid, p.address_space, p.entry_point, p.brk), (1, Some(9), 8, 6));
    assert_eq!(p.comm, b"cat".to_vec());
    assert_eq!(p.cmdline, b"cat\0x\0".to_vec());
    assert_eq!(p.sigactions[SIGUSR1 as usize].handler, 0);
    assert_eq!(p.sigactions[SIGUSR2 as usize].handler, 1);
    assert_eq!(state(&k, 1), ProcState::Running);
    assert!(k.ready.is_empty());
}

#[test]
fn signal_ends_the_wait_it_is_for() {
    let mut k = family();
    assert_eq!(do_pause(&mut k, 1), Step::Block);
    wake_if_sleeping(&mut k, 1, SIGUSR1);
    wake_if_sigwaiting(&mut k, 1, SIGUSR1);
    wake_if_mq_waiting(&mut k, 1, SIGUSR1);
    wake_if_futex_waiting(&mut k, 1, SIGUSR1);
    assert!(k.ready.iter().eq([2].iter()));
    wake_if_paused(&mut k, 1, SIGUSR1);
    wake_if_paused(&mut k, 1, SIGUSR1);
    assert_eq!(state(&k, 1), ProcState::Ready);
    assert!(k.ready.iter().eq([2, 1].iter()));
}

#[test]
fn scripts_are_followed() {
    let mut e = exec_begin(b"/bin/script");
    assert_eq!(exec_step(&mut e, b"#!/bin/sh -e\necho"), Ok(false));
    assert_eq!(e.effective, b"/bin/sh".to_vec());
    assert_eq!(exec_step(&mut e, b"\x7fELF"), Ok(true));
    let argv = exec_argv(&e, &vec![b"script".to_vec(), b"arg".to_vec()]);
    assert_eq!(
        argv,
        vec![b"/bin/sh".to_vec(), b"-e".to_vec(), b"/bin/script".to_vec(), b"arg".to_vec()]
    );
    let mut e = exec_begin(b"a");
    for _ in 0..4 {
        assert_eq!(exec_step(&mut e, b"#!b\n"), Ok(false));
    }
    assert_eq!(exec_step(&mut e, b"#!b\n"), Err(62));
    let mut e = exec_begin(b"a");
    assert_eq!(exec_step(&mut e, b"#! \n"), Err(8));
    assert_eq!(exec_argv(&exec_begin(b"p"), &vec![]), vec![b"p".to_vec()]);
    assert_eq!(exec_entry(5, None), (5, None));
    assert_eq!(exec_entry(5, Some(9)).0, 9);
}

#[test]
fn paths_and_lines() {
    assert_eq!(basename(b"/usr/bin/env"), b"env".to_vec());
    assert_eq!(basename(b"env"), b"env".to_vec());
    assert_eq!(basename(b"/"), b"".to_vec());
    assert_eq!(build_cmdline(&vec![b"a".to_vec(), b"bc".to_vec()]), b"a\0bc\0".to_vec());
    assert_eq!(trim_ascii_whitespace(b" \t x y \r\n"), b"x y".to_vec());
    assert_eq!(trim_ascii_whitespace(b"  "), b"".to_vec());
    let (i, a) = parse_shebang_line(b"#!  /bin/sh   -x y \nrest").unwrap();
    assert_eq!((i, a), (b"/bin/sh".to_vec(), Some(b"-x y".to_vec())));
    assert_eq!(read_ptr_len_array(&vec![(5, 1), (0, 9), (6, 1)]), vec![(5, 1)]);
    assert_eq!(read_ptr_len_array(&vec![(5, 1); 40]).len(), 32);
}

#[test]
fn turns_and_priorities() {
    let mut k = family();
    assert_eq!(do_fork_from_current(&mut k, 0, 0, 0), Ok(3));
    assert!(!ready_queue_has_higher_priority_than(&k, 0));
    k.procs.get_mut(3).unwrap().sched_priority = 5;
    assert!(ready_queue_has_higher_priority_than(&k, 0));
    assert_eq!(dequeue_highest_priority(&mut k), Some(3));
    enqueue_ready(&mut k.ready, 3);
    let (_, a) = schedule(&mut k);
    assert!(matches!(a, SchedAction::Switch(s) if s.to == 3));
    remove_ready(&mut k.ready, 2);
    assert_eq!(k.ready, vec![1]);
}

#[test]
fn idle_until_woken() {
    let mut k = booted();
    assert_eq!(do_pause(&mut k, 1), Step::Block);
    let (_, a) = schedule(&mut k);
    assert_eq!(a, SchedAction::Idle);
    do_sigaction(&mut k, 1, SIGINT, Some(caught(0x99)));
    signal_foreground_group(&mut k, 1, SIGINT);
    assert_eq!(state(&k, 1), ProcState::Ready);
    assert_eq!(pick_next(&mut k), SchedAction::Continue);
    assert!(matches!(do_pause(&mut k, 1), Step::Done(Err(4))));
}

#[test]
fn threads_are_reaped() {
    let mut k = family();
    terminate_process(&mut k, 2, 0);
    queue_thread_reap(&mut k, 2, ReapKind::TeardownOnly);
    assert_eq!(reap_pending_threads(&mut k), vec![22]);
    assert!(k.reaps.is_empty());
    assert_eq!(k.procs.get(2).unwrap().address_space, None);
    queue_thread_reap(&mut k, 2, ReapKind::RemoveEntry);
    assert_eq!(reap_pending_threads(&mut k), vec![]);
    assert!(k.procs.get(2).is_none());
}

#[test]
fn default_dispositions() {
    assert_eq!(default_disposition(SIGTERM), DefaultDisposition::Terminate);
    assert_eq!(default_disposition(SIGCHLD), DefaultDisposition::Ignore);
    assert_eq!(default_disposition(SIGTSTP), DefaultDisposition::Stop);
    assert!(has_signal_permission(0, 5) && has_signal_permission(5, 5));
    assert!(!has_signal_permission(5, 6));
}

#[test]
fn kill_and_its_errors() {
    let mut k = family();
    assert_eq!(do_kill(&mut k, 1, 2, 99), Err(EINVAL));
    assert_eq!(do_kill(&mut k, 1, 2, 33), Err(EINVAL));
    assert_eq!(do_kill(&mut k, 1, 9, SIGTERM as i64), Err(ESRCH));
    assert_eq!(do_kill(&mut k, 1, -77, SIGTERM as i64), Err(ESRCH));
    assert_eq!(do_kill(&mut k, 1, i64::MIN, SIGTERM as i64), Err(EINVAL));
    assert_eq!(do_kill(&mut k, 1, 2, 0), Ok(0));
    assert_eq!(state(&k, 2), ProcState::Ready);
    k.procs.get_mut(1).unwrap().uid = 5;
    assert_eq!(do_kill(&mut k, 1, 2, SIGTERM as i64), Err(EPERM));
    k.procs.get_mut(1).unwrap().uid = 0;
    assert_eq!(do_kill(&mut k, 1, 2, SIGTERM as i64), Ok(0));
    assert_eq!(state(&k, 2), ProcState::Zombie(143));
    assert!(k.ready.is_empty());
}

#[test]
fn caught_signal_runs_its_handler_and_returns() {
    let mut k = booted();
    let act = SigAction { handler: 0x99, flags: 0, restorer: 7, mask: sig_bit(SIGUSR2) };
    let before = do_sigaction(&mut k, 1, SIGUSR1, Some(act));
    assert_eq!(before.handler, 0);
    assert_eq!(do_sigaction(&mut k, 1, SIGUSR1, None), act);
    assert_eq!(do_kill(&mut k, 1, 1, SIGUSR1 as i64), Ok(0));
    assert_eq!(do_sigpending(&k, 1), sig_bit(SIGUSR1));
    let mask = match take_deliverable_signal(&mut k, 1) {
        Some(SignalDelivery::Handler { signum, handler, mask_to_add, siginfo, .. }) => {
            assert_eq!((signum, handler), (SIGUSR1, 0x99));
            assert_eq!((siginfo.code, siginfo.pid), (0, 1));
            mask_to_add
        }
        _ => panic!("no handler"),
    };
    assert_eq!(mask, sig_bit(SIGUSR1) | sig_bit(SIGUSR2));
    let frame = frame(11);
    stash_signal_context(&mut k, 1, frame, mask);
    assert_eq!(k.procs.get(1).unwrap().blocked_signals, mask);
    assert_eq!(do_kill(&mut k, 1, 1, SIGUSR2 as i64), Ok(0));
    assert_eq!(take_deliverable_signal(&mut k, 1), None);
    assert_eq!(take_signal_saved_frame(&mut k, 1), Some(frame));
    assert_eq!(k.procs.get(1).unwrap().blocked_signals, 0);
    assert_eq!(take_signal_saved_frame(&mut k, 1), None);
    assert_eq!(take_deliverable_signal(&mut k, 1), Some(SignalDelivery::Terminate(140)));
}

fn frame(n: u64) -> SyscallFrame {
    SyscallFrame {
        rax: n,
        rbx: n,
        rcx: n,
        rdx: n,
        rsi: n,
        rdi: n,
        rbp: n,
        r8: n,
        r9: n,
        r10: n,
        r11: n,
        r12: n,
        r13: n,
        r14: n,
        r15: n,
        user_rsp: n,
    }
}

#[test]
fn masks() {
    let mut k = booted();
    assert_eq!(do_sigprocmask(&mut k, 1, 0, Some(u64::MAX)), (0, Ok(0)));
    let m = k.procs.get(1).unwrap().blocked_signals;
    assert_eq!(m & (sig_bit(SIGKILL) | sig_bit(SIGSTOP)), 0);
    assert_eq!(do_sigprocmask(&mut k, 1, 1, Some(u64::MAX)), (m, Ok(0)));
    assert_eq!(do_sigprocmask(&mut k, 1, 2, Some(6)), (0, Ok(0)));
    assert_eq!(do_sigprocmask(&mut k, 1, 3, Some(6)), (6, Err(EINVAL)));
    assert_eq!(do_sigprocmask(&mut k, 1, 0, None), (6, Ok(0)));
    restore_blocked_signals(&mut k, 1, 8);
    assert_eq!(k.procs.get(1).unwrap().blocked_signals, 8);
}

#[test]
fn queued_signals_keep_their_order() {
    let mut k = booted();
    do_sigaction(&mut k, 1, 40, Some(caught(0x99)));
    for v in 1..=3u64 {
        assert_eq!(do_sigqueue(&mut k, 1, 1, 40, v), Ok(0));
    }
    for v in 1..=3u64 {
        match take_deliverable_signal(&mut k, 1) {
            Some(SignalDelivery::Handler { siginfo, .. }) => {
                assert_eq!((siginfo.value, siginfo.code), (v, -1));
            }
            _ => panic!("no handler"),
        }
    }
    assert_eq!(do_sigpending(&k, 1), 0);
    for _ in 0..16 {
        assert_eq!(do_sigqueue(&mut k, 1, 1, 40, 0), Ok(0));
    }
    assert_eq!(do_sigqueue(&mut k, 1, 1, 40, 0), Err(EAGAIN));
    assert_eq!(do_sigqueue(&mut k, 1, -1, 40, 0), Err(EINVAL));
    assert_eq!(do_sigqueue(&mut k, 1, 9, 40, 0), Err(ESRCH));
}

#[test]
fn waiting_for_a_signal() {
    let mut k = booted();
    assert_eq!(do_sigtimedwait(&mut k, 1, sig_bit(SIGUSR1), 50, 10), SigWait::Block);
    assert_eq!(do_kill(&mut k, 1, 1, SIGUSR1 as i64), Ok(0));
    let w = do_sigtimedwait(&mut k, 1, sig_bit(SIGUSR1), 50, 10);
    assert!(matches!(w, SigWait::Taken(10, _)));
    assert_eq!(sigtimedwait_answer(w), Some(Ok(10)));
    assert_eq!(do_sigtimedwait(&mut k, 1, sig_bit(SIGUSR1), 50, 50), SigWait::TimedOut);
    assert_eq!(sigtimedwait_answer(SigWait::TimedOut), Some(Err(EAGAIN)));
    assert_eq!(sigtimedwait_answer(SigWait::Block), None);
    assert_eq!(resolve_relative_deadline(Some((1, 0)), 10), Ok(110));
    assert_eq!(resolve_relative_deadline(None, 10), Ok(u64::MAX));
    assert_eq!(resolve_relative_deadline(Some((-1, 0)), 10), Err(EINVAL));
}

#[test]
fn suspending_with_another_mask() {
    let mut k = booted();
    restore_blocked_signals(&mut k, 1, sig_bit(SIGUSR1));
    assert_eq!(do_sigsuspend(&mut k, 1, sig_bit(SIGUSR2)), sig_bit(SIGUSR1));
    assert_eq!(sigsuspend_step(&mut k, 1, sig_bit(SIGUSR1)), Step::Block);
    do_sigaction(&mut k, 1, SIGUSR1, Some(caught(0x99)));
    assert_eq!(do_kill(&mut k, 1, 1, SIGUSR1 as i64), Ok(0));
    assert!(matches!(sigsuspend_step(&mut k, 1, sig_bit(SIGUSR1)), Step::Done(Err(4))));
    assert_eq!(take_sigsuspend_restore_mask(&mut k, 1), Some(sig_bit(SIGUSR1)));
    assert_eq!(take_sigsuspend_restore_mask(&mut k, 1), None);
    stash_signal_context(&mut k, 1, frame(1), 0);
    set_signal_saved_blocked_override(&mut k, 1, sig_bit(SIGUSR1));
    take_signal_saved_frame(&mut k, 1);
    assert_eq!(k.procs.get(1).unwrap().blocked_signals, sig_bit(SIGUSR1));
}

#[test]
fn alternate_stack() {
    let mut k = booted();
    let a = AltStack { sp: 0x7000, flags: 0, size: 8192 };
    let (old, r) = do_sigaltstack(&mut k, 1, Some(a));
    assert_eq!((old.flags, r), (SS_DISABLE, Ok(0)));
    assert_eq!(do_sigaltstack(&mut k, 1, None), (a, Ok(0)));
    let bad = AltStack { flags: 4, ..a };
    assert_eq!(do_sigaltstack(&mut k, 1, Some(bad)).1, Err(EINVAL));
}

#[test]
fn sender_record_as_bytes() {
    let i = QueuedSigInfo { code: -1, pid: 5, uid: 6, value: 7 };
    let b = siginfo_bytes(10, &i);
    assert_eq!(b.len(), 128);
    assert_eq!(b[..8], [10, 0, 0, 0, 255, 255, 255, 255]);
    assert_eq!(b[16..20], [5, 0, 0, 0]);
    assert_eq!(siginfo_value(&b), 7);
}

#[test]
fn trampoline_page() {
    let p = fault_trampoline::map(0x0102);
    assert_eq!(p.len(), 4096);
    assert_eq!(p[..2], [0x48, 0xa3]);
    assert_eq!(p[10..19], [0xb8, 2, 1, 0, 0, 0x0f, 0x05, 0x0f, 0x0b]);
    assert!(fault_trampoline::inside(0x1fff_ffff_f000));
    assert!(fault_trampoline::inside(0x1fff_ffff_f012));
    assert!(!fault_trampoline::inside(0x1fff_ffff_f013));
}

#[test]
fn shutting_down() {
    assert_eq!(do_reboot(RB_AUTOBOOT), Ok(Shutdown::Restart));
    assert_eq!(do_reboot(RB_HALT_SYSTEM), Ok(Shutdown::Halt));
    assert_eq!(do_reboot(RB_POWER_OFF), Ok(Shutdown::PowerOff));
    assert_eq!(do_reboot(7), Err(EINVAL));
}

#[test]
fn directories() {
    let mut k = booted();
    assert_eq!((oxidebsd_get_cwd(&k), oxidebsd_get_root(&k)), (0, 0));
    oxidebsd_set_cwd(&mut k, 3);
    oxidebsd_set_root(&mut k, 4);
    assert_eq!((oxidebsd_get_cwd(&k), oxidebsd_get_root(&k)), (3, 4));
}

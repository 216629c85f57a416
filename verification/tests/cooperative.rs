//! The cooperative kernel: scheduling, processes, pipes and the keyboard.

use oxidebsd::coop::lifecycle::{
    do_execve, do_exit, do_fork_from_current, do_getpid, do_getppid, do_wait4, exec_argv,
    first_entry, spawn, ProgramImage, WaitStep,
};
use oxidebsd::coop::memory::{complete_brk, do_brk, do_mmap, do_munmap};
use oxidebsd::coop::pipe::{self, do_pipe, pipe_close, pipe_read, pipe_write, Pipes};
use oxidebsd::coop::scheduler::{current_pid, enqueue_ready, pick_next, schedule, start};
use oxidebsd::coop::stdin::{self, push_byte, RingBuffer, CAPACITY};
use oxidebsd::coop::{BlockReason, Coop, ProcState};
use oxidebsd::exec::{read_file_step, FileStep};
use oxidebsd::errno::{EBADF, ECHILD, EINVAL, ENOEXEC, ENOMEM, EPIPE};
use oxidebsd::process::lifecycle::{ElfError, ExecError, ExecImage, SpawnError};
use oxidebsd::process::mm::BrkPlan;
use oxidebsd::process::scheduler::SchedAction;

fn image(n: u64) -> ProgramImage {
    ProgramImage {
        address_space: n,
        entry: 0x1000 + n,
        initial_rsp: 0x2000 + n,
        brk: 0x5000,
        kernel_stack_top: 0x3000 + n,
        rsp: 0x4000 + n,
    }
}

fn booted() -> Coop {
    let mut k = Coop::new();
    assert_eq!(spawn(&mut k, Ok(image(1)), None), Ok(1));
    let s = start(&mut k, 1);
    assert_eq!((s.from, s.to, s.address_space, s.rsp), (0, 1, 1, 0x4001));
    k
}

fn state(k: &Coop, pid: u64) -> ProcState {
    k.procs.get(pid).unwrap().state
}

#[test]
fn test_ring_buffer_fifo_order() {
    let mut buffer = RingBuffer::new();
    buffer.push(b'a');
    buffer.push(b'b');
    buffer.push(b'c');
    assert_eq!(buffer.pop(), Some(b'a'));
    assert_eq!(buffer.pop(), Some(b'b'));
    assert_eq!(buffer.pop(), Some(b'c'));
    assert_eq!(buffer.pop(), None);
}

#[test]
fn test_ring_buffer_drops_when_full() {
    let mut buffer = RingBuffer::new();
    for i in 0..CAPACITY {
        buffer.push(i as u8);
    }
    buffer.push(0xff);
    assert_eq!(buffer.pop(), Some(0));
}

#[test]
fn ring_goes_round_many_times() {
    let mut b = RingBuffer::new();
    let mut expected: u8 = 0;
    let mut next: u8 = 0;
    for _ in 0..1000 {
        for _ in 0..3 {
            b.push(next);
            next = next.wrapping_add(1);
        }
        for _ in 0..3 {
            assert_eq!(b.pop(), Some(expected));
            expected = expected.wrapping_add(1);
        }
    }
    assert_eq!(b.pop(), None);
}

#[test]
fn boot_leaves_nobody_queued() {
    let k = booted();
    assert_eq!(current_pid(&k), 1);
    assert_eq!(state(&k, 1), ProcState::Running);
    assert!(k.ready.is_empty());
    assert_eq!(first_entry(&k), (0x1001, 0x2001));
    assert_eq!(do_getpid(&k), 1);
    assert_eq!(do_getppid(&k), 0);
}

#[test]
fn spawn_fails_with_its_program() {
    let mut k = Coop::new();
    assert_eq!(spawn(&mut k, Err(ElfError::Malformed), None), Err(SpawnError::Elf(ElfError::Malformed)));
    assert_eq!(k.next_pid, 1);
}

#[test]
fn turns_go_round() {
    let mut k = booted();
    assert_eq!(spawn(&mut k, Ok(image(2)), Some(1)), Ok(2));
    assert_eq!(spawn(&mut k, Ok(image(3)), Some(1)), Ok(3));
    let mut order = Vec::new();
    for _ in 0..6 {
        match schedule(&mut k) {
            SchedAction::Switch(s) => order.push(s.to),
            _ => panic!("no switch"),
        }
    }
    assert_eq!(order, vec![2, 3, 1, 2, 3, 1]);
}

#[test]
fn alone_goes_on() {
    let mut k = booted();
    assert_eq!(schedule(&mut k), SchedAction::Continue);
    assert_eq!(state(&k, 1), ProcState::Running);
}

#[test]
fn waits_for_the_keyboard() {
    let mut k = booted();
    let mut b = RingBuffer::new();
    assert!(matches!(stdin::read(&mut b, &mut k, 10), stdin::ReadStep::Block));
    assert_eq!(state(&k, 1), ProcState::Blocked(BlockReason::WaitingForStdin));
    assert_eq!(schedule(&mut k), SchedAction::Idle);
    assert_eq!(pick_next(&mut k), SchedAction::Idle);
    push_byte(&mut b, &mut k, b'x');
    push_byte(&mut b, &mut k, b'y');
    assert_eq!(pick_next(&mut k), SchedAction::Continue);
    match stdin::read(&mut b, &mut k, 10) {
        stdin::ReadStep::Data(d) => assert_eq!(d, b"xy".to_vec()),
        _ => panic!("blocked"),
    }
    push_byte(&mut b, &mut k, b'1');
    push_byte(&mut b, &mut k, b'2');
    match stdin::read(&mut b, &mut k, 1) {
        stdin::ReadStep::Data(d) => assert_eq!(d, b"1".to_vec()),
        _ => panic!("blocked"),
    }
}

#[test]
fn reading_without_room() {
    let mut k = booted();
    let mut b = RingBuffer::new();
    assert!(b.is_empty());
    push_byte(&mut b, &mut k, b'x');
    match stdin::read(&mut b, &mut k, 0) {
        stdin::ReadStep::Data(d) => assert!(d.is_empty()),
        _ => panic!("blocked"),
    }
    assert_eq!(state(&k, 1), ProcState::Running);
    assert!(!b.is_empty());
    assert_eq!(b.pop(), Some(b'x'));
    assert!(matches!(stdin::read(&mut b, &mut k, 0), stdin::ReadStep::Block));
    assert_eq!(state(&k, 1), ProcState::Blocked(BlockReason::WaitingForStdin));
}

#[test]
fn fork_wait_exit() {
    let mut k = booted();
    assert_eq!(do_wait4(&mut k, 1, -1), WaitStep::Failed(ECHILD));
    assert_eq!(do_brk(&mut k, 1, 0x4800), BrkPlan::Done(Ok(0x4800)));
    assert_eq!(do_fork_from_current(&mut k, 22, 23, 24), Ok(2));
    let child = k.procs.get(2).unwrap();
    assert_eq!((child.brk, child.parent, child.rsp), (0x4800, Some(1), 24));
    assert_eq!(do_wait4(&mut k, 1, 9), WaitStep::Failed(ECHILD));
    assert_eq!(do_wait4(&mut k, 1, 2), WaitStep::Block);
    assert_eq!(state(&k, 1), ProcState::Blocked(BlockReason::WaitingForChild(Some(2))));
    assert!(matches!(schedule(&mut k), SchedAction::Switch(s) if s.from == 1 && s.to == 2));
    assert_eq!(do_getppid(&k), 1);
    do_exit(&mut k, 2, 7);
    assert_eq!(state(&k, 2), ProcState::Zombie(7));
    assert_eq!(state(&k, 1), ProcState::Ready);
    assert!(matches!(schedule(&mut k), SchedAction::Switch(s) if s.to == 1));
    assert_eq!(do_wait4(&mut k, 1, 2), WaitStep::Reaped { pid: 2, code: 7 });
    assert!(k.procs.get(2).is_none());
    assert_eq!(do_wait4(&mut k, 1, 2), WaitStep::Failed(ECHILD));
}

#[test]
fn last_exit_leaves_nothing_to_run() {
    let mut k = booted();
    do_exit(&mut k, 1, 0);
    assert_eq!(schedule(&mut k), SchedAction::Idle);
}

#[test]
fn exit_does_not_wake_who_waits_for_another() {
    let mut k = booted();
    assert_eq!(do_fork_from_current(&mut k, 0, 0, 0), Ok(2));
    assert_eq!(do_fork_from_current(&mut k, 0, 0, 0), Ok(3));
    assert_eq!(do_wait4(&mut k, 1, 3), WaitStep::Block);
    assert!(matches!(schedule(&mut k), SchedAction::Switch(s) if s.to == 2));
    do_exit(&mut k, 2, 0);
    assert_eq!(state(&k, 1), ProcState::Blocked(BlockReason::WaitingForChild(Some(3))));
}

#[test]
fn another_program() {
    let mut k = booted();
    let i = ExecImage { address_space: 9, entry: 8, initial_rsp: 7, brk: 6 };
    assert_eq!(do_execve(&mut k, 1, Err(ExecError::File(2))), Err(2));
    assert_eq!(do_execve(&mut k, 1, Err(ExecError::Program(ElfError::Malformed))), Err(ENOEXEC));
    assert_eq!(k.procs.get(1).unwrap().address_space, 1);
    assert_eq!(do_execve(&mut k, 1, Ok(i)), Ok(0));
    let p = k.procs.get(1).unwrap();
    assert_eq!((p.address_space, p.entry_point, p.user_stack_top, p.brk, p.fs_base), (9, 8, 7, 6, 0));
    let argv = exec_argv(b"/bin/cat", &vec![b"a".to_vec(), b"b".to_vec()]);
    assert_eq!(argv, vec![b"/bin/cat".to_vec(), b"a".to_vec(), b"b".to_vec()]);
}

#[test]
fn program_file_is_read_whole() {
    let mut f = Vec::new();
    assert_eq!(read_file_step(&mut f, Ok(b"ab")), FileStep::More);
    assert_eq!(read_file_step(&mut f, Ok(b"c")), FileStep::More);
    assert_eq!(read_file_step(&mut f, Ok(b"")), FileStep::Complete);
    assert_eq!(f, b"abc".to_vec());
    assert_eq!(read_file_step(&mut f, Err(5)), FileStep::Failed(5));
}

#[test]
fn mappings_and_heap() {
    let mut k = booted();
    assert_eq!(do_mmap(&mut k, 0, 0, 3), Err(EINVAL));
    assert_eq!(do_mmap(&mut k, 0, 1, 3), Ok(0x2000_0000_0000));
    assert_eq!(do_mmap(&mut k, 0, 4097, 3), Ok(0x2000_0000_1000));
    assert_eq!(do_mmap(&mut k, 0, 1, 3), Ok(0x2000_0000_3000));
    assert_eq!(do_mmap(&mut k, 0, 0x2000_0000_0000, 3), Err(ENOMEM));
    assert_eq!(do_munmap(0x2000_0000_0000, 1), Ok(0));
    assert_eq!(do_brk(&mut k, 1, 0), BrkPlan::Done(Ok(0x5000)));
    assert_eq!(do_brk(&mut k, 1, 0x1000_0001), BrkPlan::Done(Err(ENOMEM)));
    assert_eq!(
        do_brk(&mut k, 1, 0x6001),
        BrkPlan::Grow { first_page: 0x5000, last_page: 0x6000, new_top: 0x6001 }
    );
    assert_eq!(complete_brk(&mut k, 1, 0x6001, false), Err(ENOMEM));
    assert_eq!(do_brk(&mut k, 1, 0), BrkPlan::Done(Ok(0x5000)));
    assert_eq!(complete_brk(&mut k, 1, 0x6001, true), Ok(0x6001));
    assert_eq!(do_brk(&mut k, 1, 0x6fff), BrkPlan::Done(Ok(0x6fff)));
    assert_eq!(do_brk(&mut k, 1, 0x100), BrkPlan::Done(Ok(0x100)));
}

#[test]
fn pipe_carries_bytes_in_order() {
    let mut k = booted();
    let mut p = Pipes::new();
    assert_eq!(do_pipe(&mut p, 3, 4), vec![3, 0, 0, 0, 4, 0, 0, 0]);
    assert_eq!(pipe_write(&mut p, &mut k, 4, b"hello "), Ok(6));
    assert_eq!(pipe_write(&mut p, &mut k, 4, b"world"), Ok(5));
    match pipe_read(&mut p, &mut k, 3, 8) {
        pipe::ReadStep::Data(d) => assert_eq!(d, b"hello wo".to_vec()),
        _ => panic!("no data"),
    }
    match pipe_read(&mut p, &mut k, 3, 100) {
        pipe::ReadStep::Data(d) => assert_eq!(d, b"rld".to_vec()),
        _ => panic!("no data"),
    }
    assert_eq!(pipe::write_denied(), -9);
    assert_eq!(pipe::read_denied(), -9);
}

#[test]
fn reader_waits_and_is_woken() {
    let mut k = booted();
    let mut p = Pipes::new();
    do_pipe(&mut p, 3, 4);
    do_pipe(&mut p, 5, 6);
    assert_eq!(do_fork_from_current(&mut k, 0, 0, 0), Ok(2));
    assert!(matches!(pipe_read(&mut p, &mut k, 3, 8), pipe::ReadStep::Block));
    assert!(matches!(schedule(&mut k), SchedAction::Switch(s) if s.to == 2));
    assert_eq!(pipe_write(&mut p, &mut k, 6, b"other"), Ok(5));
    assert_eq!(state(&k, 1), ProcState::Blocked(BlockReason::WaitingForPipeData(1)));
    assert_eq!(pipe_write(&mut p, &mut k, 4, b"x"), Ok(1));
    assert_eq!(state(&k, 1), ProcState::Ready);
    assert_eq!(k.ready, vec![1]);
}

#[test]
fn closing_the_write_end_ends_the_stream() {
    let mut k = booted();
    let mut p = Pipes::new();
    do_pipe(&mut p, 3, 4);
    assert_eq!(pipe_write(&mut p, &mut k, 4, b"z"), Ok(1));
    assert_eq!(pipe_close(&mut p, &mut k, 4), 0);
    assert!(matches!(pipe_read(&mut p, &mut k, 3, 8), pipe::ReadStep::Data(_)));
    assert!(matches!(pipe_read(&mut p, &mut k, 3, 8), pipe::ReadStep::End));
    assert_eq!(pipe_close(&mut p, &mut k, 3), 0);
    assert!(p.pipes.get(1).is_none());
    assert_eq!(pipe_close(&mut p, &mut k, 3), -9);
}

#[test]
fn closing_wakes_the_reader() {
    let mut k = booted();
    let mut p = Pipes::new();
    do_pipe(&mut p, 3, 4);
    assert!(matches!(pipe_read(&mut p, &mut k, 3, 8), pipe::ReadStep::Block));
    assert_eq!(pipe_close(&mut p, &mut k, 4), 0);
    assert_eq!(state(&k, 1), ProcState::Ready);
}

#[test]
fn pipe_errors() {
    let mut k = booted();
    let mut p = Pipes::new();
    do_pipe(&mut p, 3, 4);
    assert!(matches!(pipe_read(&mut p, &mut k, 9, 8), pipe::ReadStep::Failed(EBADF)));
    assert_eq!(pipe_write(&mut p, &mut k, 9, b"x"), Err(EBADF));
    assert_eq!(pipe_close(&mut p, &mut k, 3), 0);
    assert_eq!(pipe_write(&mut p, &mut k, 4, b"x"), Err(EPIPE));
}

#[test]
fn queue_takes_who_is_ready() {
    let mut k = booted();
    assert_eq!(spawn(&mut k, Ok(image(2)), None), Ok(2));
    k.ready.clear();
    enqueue_ready(&mut k, 2);
    assert_eq!(k.ready, vec![2]);
    enqueue_ready(&mut k, 99);
    assert_eq!(k.ready, vec![2, 99]);
}

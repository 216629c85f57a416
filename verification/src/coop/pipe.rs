//! Pipes: readers wait for bytes, writers never wait.

use std::collections::VecDeque;

use vstd::prelude::*;

use crate::bytes::{append, drain, le32_bytes, push_le32};
use crate::coop::{
    block, lemma_all_woken, lemma_filtered, rouse, roused, runs, waits, with_state,
    BlockReason, Coop, CoopView, Pid, ProcState,
};
use crate::errno::{failed, negated, EBADF, EPIPE};
use crate::ordmap::{group_map_views, views, OrdMap};

verus! {

broadcast use group_map_views;

/// What is on its way through a pipe, and which ends are closed.
pub struct PipeBuffer {
    pub data: VecDeque<u8>,
    pub read_closed: bool,
    pub write_closed: bool,
}

/// What is on its way through a pipe, and which ends are closed.
pub struct PipeView {
    pub data: Seq<u8>,
    pub read_closed: bool,
    pub write_closed: bool,
}

impl View for PipeBuffer {
    type V = PipeView;

    open spec fn view(&self) -> PipeView {
        PipeView {
            data: self.data@,
            read_closed: self.read_closed,
            write_closed: self.write_closed,
        }
    }
}

/// The two ends of a pipe.
#[derive(Clone, Copy, PartialEq, Eq, Debug, Structural)]
pub enum End {
    Read,
    Write,
}

/// One end of one pipe.
#[derive(Clone, Copy, PartialEq, Eq, Debug, Structural)]
pub struct PipeEnd {
    pub id: u64,
    pub end: End,
}

/// The pipes by number, and which end each descriptor is.
pub struct Pipes {
    pub next_id: u64,
    pub pipes: OrdMap<PipeBuffer>,
    pub ends: OrdMap<PipeEnd>,
}

/// The pipes by number, and which end each descriptor is.
pub struct PipesView {
    pub next_id: u64,
    pub pipes: Map<u64, PipeView>,
    pub ends: Map<u64, PipeEnd>,
}

impl View for Pipes {
    type V = PipesView;

    open spec fn view(&self) -> PipesView {
        PipesView { next_id: self.next_id, pipes: views(self.pipes@), ends: self.ends@ }
    }
}

/// Every end belongs to a pipe in which it is not closed.
pub open spec fn ends_ok(s: PipesView) -> bool {
    forall|fd: u64| #[trigger]
        s.ends.contains_key(fd) ==> {
            let e = s.ends[fd];
            &&& s.pipes.contains_key(e.id)
            &&& e.end == End::Read ==> !s.pipes[e.id].read_closed
            &&& e.end == End::Write ==> !s.pipes[e.id].write_closed
        }
}

/// No two descriptors are the same end.
pub open spec fn ends_apart(s: PipesView) -> bool {
    forall|a: u64, b: u64|
        #![trigger s.ends.contains_key(a), s.ends.contains_key(b)]
        s.ends.contains_key(a) && s.ends.contains_key(b) && a != b ==> s.ends[a] != s.ends[b]
}

/// No number was handed out early.
pub open spec fn ids_ok(s: PipesView) -> bool {
    forall|id: u64| #[trigger] s.pipes.contains_key(id) ==> id < s.next_id
}

/// The tables agree.
pub open spec fn pipes_ok(s: PipesView) -> bool {
    ends_ok(s) && ends_apart(s) && ids_ok(s)
}

impl Pipes {
    /// The tables are well formed and agree.
    pub open spec fn wf(&self) -> bool {
        self.pipes.wf() && self.ends.wf() && pipes_ok(self@)
    }

    /// No pipe.
    pub fn new() -> (r: Self)
        ensures
            r.wf(),
            r@ == (PipesView { next_id: 1, pipes: Map::empty(), ends: Map::empty() }),
    {
        Pipes { next_id: 1, pipes: OrdMap::new(), ends: OrdMap::new() }
    }
}

/// A pipe that was just made.
pub open spec fn empty_pipe() -> PipeView {
    PipeView { data: Seq::empty(), read_closed: false, write_closed: false }
}

/// The pipes with a new one between two descriptors.
pub open spec fn piped(s: PipesView, read_fd: u64, write_fd: u64) -> PipesView {
    let id = s.next_id;
    PipesView {
        next_id: (id + 1) as u64,
        pipes: s.pipes.insert(id, empty_pipe()),
        ends: s.ends.insert(read_fd, PipeEnd { id, end: End::Read }).insert(
            write_fd,
            PipeEnd { id, end: End::Write },
        ),
    }
}

/// Makes a pipe between two new descriptors. The result is what the caller finds in its memory: the
/// descriptors as two 32-bit numbers.
pub fn do_pipe(p: &mut Pipes, read_fd: u64, write_fd: u64) -> (r: Vec<u8>)
    requires
        old(p).wf(),
        old(p)@.next_id < u64::MAX,
        read_fd != write_fd,
        !old(p)@.ends.contains_key(read_fd),
        !old(p)@.ends.contains_key(write_fd),
    ensures
        final(p).wf(),
        final(p)@ == piped(old(p)@, read_fd, write_fd),
        r@ == le32_bytes((read_fd % 0x1_0000_0000) as u32) + le32_bytes(
            (write_fd % 0x1_0000_0000) as u32,
        ),
{
    let ghost s = p@;
    let id: u64 = p.next_id;
    p.next_id = id + 1;
    p.pipes.insert(
        id,
        PipeBuffer { data: VecDeque::new(), read_closed: false, write_closed: false },
    );
    p.ends.insert(read_fd, PipeEnd { id, end: End::Read });
    p.ends.insert(write_fd, PipeEnd { id, end: End::Write });
    proof {
        let t = p@;
        assert(t == piped(s, read_fd, write_fd));
        assert(!s.pipes.contains_key(id));
        assert forall|fd: u64| #[trigger] t.ends.contains_key(fd) implies {
            let e = t.ends[fd];
            &&& t.pipes.contains_key(e.id)
            &&& e.end == End::Read ==> !t.pipes[e.id].read_closed
            &&& e.end == End::Write ==> !t.pipes[e.id].write_closed
        } by {
            if fd != read_fd && fd != write_fd {
                assert(s.ends.contains_key(fd));
            }
        }
        assert forall|a: u64, b: u64|
            #![trigger t.ends.contains_key(a), t.ends.contains_key(b)]
            t.ends.contains_key(a) && t.ends.contains_key(b) && a != b implies t.ends[a]
            != t.ends[b] by {
            if s.ends.contains_key(a) {
                assert(s.pipes.contains_key(s.ends[a].id));
            }
            if s.ends.contains_key(b) {
                assert(s.pipes.contains_key(s.ends[b].id));
            }
        }
        assert forall|i: u64| #[trigger] t.pipes.contains_key(i) implies i < t.next_id by {
            assert(i == id || s.pipes.contains_key(i));
        }
    }
    let mut r: Vec<u8> = Vec::new();
    push_le32(&mut r, (read_fd % 0x1_0000_0000) as u32);
    push_le32(&mut r, (write_fd % 0x1_0000_0000) as u32);
    assert(r@ =~= le32_bytes((read_fd % 0x1_0000_0000) as u32) + le32_bytes(
        (write_fd % 0x1_0000_0000) as u32,
    ));
    r
}

/// A read end takes no bytes.
pub fn write_denied() -> (r: i64)
    ensures
        r == negated(EBADF),
{
    failed(EBADF)
}

/// A write end gives no bytes.
pub fn read_denied() -> (r: i64)
    ensures
        r == negated(EBADF),
{
    failed(EBADF)
}

/// The pipes with other bytes in pipe `id`.
pub open spec fn with_data(s: PipesView, id: u64, data: Seq<u8>) -> PipesView {
    PipesView { pipes: s.pipes.insert(id, PipeView { data, ..s.pipes[id] }), ..s }
}

proof fn lemma_with_data(s: PipesView, id: u64, data: Seq<u8>)
    requires
        pipes_ok(s),
        s.pipes.contains_key(id),
    ensures
        pipes_ok(with_data(s, id, data)),
{
    let t = with_data(s, id, data);
    assert forall|fd: u64| #[trigger] t.ends.contains_key(fd) implies {
        let e = t.ends[fd];
        &&& t.pipes.contains_key(e.id)
        &&& e.end == End::Read ==> !t.pipes[e.id].read_closed
        &&& e.end == End::Write ==> !t.pipes[e.id].write_closed
    } by {
        assert(s.ends.contains_key(fd));
    }
    assert forall|a: u64, b: u64|
        #![trigger t.ends.contains_key(a), t.ends.contains_key(b)]
        t.ends.contains_key(a) && t.ends.contains_key(b) && a != b implies t.ends[a] != t.ends[b] by {
        assert(s.ends.contains_key(a) && s.ends.contains_key(b));
    }
    assert forall|i: u64| #[trigger] t.pipes.contains_key(i) implies i < t.next_id by {
        assert(s.pipes.contains_key(i));
    }
}

/// What a read comes to.
pub enum ReadStep {
    Failed(u64),
    Data(Vec<u8>),
    /// Everything was read, and nothing more will come.
    End,
    /// The caller now waits: `schedule`, and try again when it is back.
    Block,
}

/// How many bytes a reader with room for `len` gets.
pub open spec fn taken(data: Seq<u8>, len: u64) -> int {
    if data.len() <= len {
        data.len() as int
    } else {
        len as int
    }
}

/// Reads up to `len` bytes for the process that runs.
pub fn pipe_read(p: &mut Pipes, k: &mut Coop, real_fd: u64, len: u64) -> (r: ReadStep)
    requires
        old(p).wf(),
        old(k).wf(),
        runs(old(k)@, old(k)@.current),
        old(p)@.ends.contains_key(real_fd) ==> old(p)@.ends[real_fd].end == End::Read,
    ensures
        final(p).wf(),
        final(k).wf(),
        ({
            let s = old(p)@;
            let id = s.ends[real_fd].id;
            let data = s.pipes[id].data;
            let n = taken(data, len);
            if !s.ends.contains_key(real_fd) {
                r == ReadStep::Failed(EBADF) && final(p)@ == s && final(k)@ == old(k)@
            } else if data.len() > 0 {
                &&& r matches ReadStep::Data(bytes) && bytes@ == data.take(n)
                &&& final(p)@ == with_data(s, id, data.skip(n))
                &&& final(k)@ == old(k)@
            } else if s.pipes[id].write_closed {
                r == ReadStep::End && final(p)@ == s && final(k)@ == old(k)@
            } else {
                &&& r == ReadStep::Block
                &&& final(p)@ == s
                &&& final(k)@ == with_state(
                    old(k)@,
                    old(k)@.current,
                    ProcState::Blocked(BlockReason::WaitingForPipeData(id)),
                )
            }
        }),
{
    let ghost s = p@;
    let id: u64 = match p.ends.get(real_fd) {
        Some(e) => e.id,
        None => {
            return ReadStep::Failed(EBADF);
        },
    };
    let ghost data = s.pipes[id].data;
    assert(s.ends.contains_key(real_fd));
    proof {
        lemma_with_data(s, id, data.skip(taken(data, len)));
    }
    let mut got: Option<Vec<u8>> = None;
    let mut over = false;
    if let Some(pipe) = p.pipes.get_mut(id) {
        let waiting: usize = pipe.data.len();
        if waiting > 0 {
            let n: usize = if waiting as u64 <= len {
                waiting
            } else {
                len as usize
            };
            got = Some(drain(&mut pipe.data, n));
        } else {
            over = pipe.write_closed;
        }
    }
    if let Some(bytes) = got {
        assert(p@ == with_data(s, id, data.skip(taken(data, len))));
        return ReadStep::Data(bytes);
    }
    assert(p@.pipes =~= s.pipes);
    if over {
        return ReadStep::End;
    }
    let caller: Pid = k.current;
    block(k, caller, BlockReason::WaitingForPipeData(id));
    ReadStep::Block
}

/// Writes all of `bytes`, and wakes whoever waits for them.
pub fn pipe_write(p: &mut Pipes, k: &mut Coop, real_fd: u64, bytes: &[u8]) -> (r: Result<u64, u64>)
    requires
        old(p).wf(),
        old(k).wf(),
        old(p)@.ends.contains_key(real_fd) ==> old(p)@.ends[real_fd].end == End::Write,
    ensures
        final(p).wf(),
        final(k).wf(),
        ({
            let s = old(p)@;
            let id = s.ends[real_fd].id;
            if !s.ends.contains_key(real_fd) {
                r == Err::<u64, u64>(EBADF) && final(p)@ == s && final(k)@ == old(k)@
            } else if s.pipes[id].read_closed {
                r == Err::<u64, u64>(EPIPE) && final(p)@ == s && final(k)@ == old(k)@
            } else {
                &&& r == Ok::<u64, u64>(bytes@.len() as u64)
                &&& final(p)@ == with_data(s, id, s.pipes[id].data + bytes@)
                &&& final(k)@ == roused(old(k)@, BlockReason::WaitingForPipeData(id))
            }
        }),
{
    let ghost s = p@;
    let id: u64 = match p.ends.get(real_fd) {
        Some(e) => e.id,
        None => {
            return Err(EBADF);
        },
    };
    assert(s.ends.contains_key(real_fd));
    let ghost old_data = s.pipes[id].data;
    proof {
        lemma_with_data(s, id, old_data + bytes@);
    }
    let mut broken = false;
    if let Some(pipe) = p.pipes.get_mut(id) {
        if pipe.read_closed {
            broken = true;
        } else {
            append(&mut pipe.data, bytes);
        }
    }
    if broken {
        assert(p@.pipes =~= s.pipes);
        return Err(EPIPE);
    }
    assert(p@ == with_data(s, id, old_data + bytes@));
    rouse(k, BlockReason::WaitingForPipeData(id));
    Ok(bytes.len() as u64)
}

/// The pipes after an end was closed: a pipe with both ends closed is gone.
pub open spec fn end_closed(s: PipesView, fd: u64) -> PipesView {
    let e = s.ends[fd];
    let b = s.pipes[e.id];
    let after = match e.end {
        End::Read => PipeView { read_closed: true, ..b },
        End::Write => PipeView { write_closed: true, ..b },
    };
    PipesView {
        ends: s.ends.remove(fd),
        pipes: if after.read_closed && after.write_closed {
            s.pipes.insert(e.id, after).remove(e.id)
        } else {
            s.pipes.insert(e.id, after)
        },
        ..s
    }
}

/// Closes an end. Whoever waits at the read end is woken when the write end is closed.
pub fn pipe_close(p: &mut Pipes, k: &mut Coop, real_fd: u64) -> (r: i64)
    requires
        old(p).wf(),
        old(k).wf(),
    ensures
        final(p).wf(),
        final(k).wf(),
        ({
            let s = old(p)@;
            if !s.ends.contains_key(real_fd) {
                r == negated(EBADF) && final(p)@ == s && final(k)@ == old(k)@
            } else {
                &&& r == 0
                &&& final(p)@ == end_closed(s, real_fd)
                &&& final(k)@ == (if s.ends[real_fd].end == End::Write {
                    roused(old(k)@, BlockReason::WaitingForPipeData(s.ends[real_fd].id))
                } else {
                    old(k)@
                })
            }
        }),
{
    let ghost s = p@;
    let e: PipeEnd = match p.ends.remove(real_fd) {
        Some(e) => e,
        None => {
            assert(p@.ends =~= s.ends);
            return failed(EBADF);
        },
    };
    assert(s.ends.contains_key(real_fd));
    let mut both_closed = false;
    if let Some(pipe) = p.pipes.get_mut(e.id) {
        match e.end {
            End::Read => {
                pipe.read_closed = true;
            },
            End::Write => {
                pipe.write_closed = true;
            },
        }
        both_closed = pipe.read_closed && pipe.write_closed;
    }
    if e.end == End::Write {
        rouse(k, BlockReason::WaitingForPipeData(e.id));
    }
    if both_closed {
        let _ = p.pipes.remove(e.id);
    }
    proof {
        let t = p@;
        assert(t == end_closed(s, real_fd));
        assert forall|fd: u64| #[trigger] t.ends.contains_key(fd) implies {
            let f = t.ends[fd];
            &&& t.pipes.contains_key(f.id)
            &&& f.end == End::Read ==> !t.pipes[f.id].read_closed
            &&& f.end == End::Write ==> !t.pipes[f.id].write_closed
        } by {
            assert(s.ends.contains_key(fd) && s.ends.contains_key(real_fd));
            assert(s.ends[fd] != s.ends[real_fd]);
        }
        assert forall|a: u64, b: u64|
            #![trigger t.ends.contains_key(a), t.ends.contains_key(b)]
            t.ends.contains_key(a) && t.ends.contains_key(b) && a != b implies t.ends[a]
            != t.ends[b] by {
            assert(s.ends.contains_key(a) && s.ends.contains_key(b));
        }
        assert forall|i: u64| #[trigger] t.pipes.contains_key(i) implies i < t.next_id by {
            assert(s.pipes.contains_key(i));
        }
    }
    0
}

// ---------------------------------------------------------------------------------------------
// Laws
// ---------------------------------------------------------------------------------------------
/// What happens to an open pipe: bytes are written, or a reader comes with room for so many.
pub enum PipeOp {
    Write(Seq<u8>),
    Read(u64),
}

/// What is in the pipe after `ops`.
pub open spec fn contents(before: Seq<u8>, ops: Seq<PipeOp>) -> Seq<u8>
    decreases ops.len(),
{
    if ops.len() == 0 {
        before
    } else {
        let data = contents(before, ops.drop_last());
        match ops.last() {
            PipeOp::Write(bytes) => data + bytes,
            PipeOp::Read(len) => data.skip(taken(data, len)),
        }
    }
}

/// What readers got during `ops`.
pub open spec fn given(before: Seq<u8>, ops: Seq<PipeOp>) -> Seq<u8>
    decreases ops.len(),
{
    if ops.len() == 0 {
        Seq::empty()
    } else {
        let data = contents(before, ops.drop_last());
        let got = given(before, ops.drop_last());
        match ops.last() {
            PipeOp::Write(bytes) => got,
            PipeOp::Read(len) => got + data.take(taken(data, len)),
        }
    }
}

/// What writers wrote during `ops`.
pub open spec fn written(ops: Seq<PipeOp>) -> Seq<u8>
    decreases ops.len(),
{
    if ops.len() == 0 {
        Seq::empty()
    } else {
        match ops.last() {
            PipeOp::Write(bytes) => written(ops.drop_last()) + bytes,
            PipeOp::Read(len) => written(ops.drop_last()),
        }
    }
}

/// However writes and reads follow each other, the readers get the writers' bytes, in order and
/// each once; what they have not got yet is in the pipe.
pub proof fn law_stream(before: Seq<u8>, ops: Seq<PipeOp>)
    ensures
        given(before, ops) + contents(before, ops) == before + written(ops),
    decreases ops.len(),
{
    if ops.len() == 0 {
        assert(given(before, ops) + contents(before, ops) =~= before + written(ops));
    } else {
        law_stream(before, ops.drop_last());
        let data = contents(before, ops.drop_last());
        let got = given(before, ops.drop_last());
        match ops.last() {
            PipeOp::Write(bytes) => {
                assert(got + (data + bytes) =~= (got + data) + bytes);
                assert(before + written(ops) =~= (before + written(ops.drop_last())) + bytes);
            },
            PipeOp::Read(len) => {
                let n = taken(data, len);
                assert((got + data.take(n)) + data.skip(n) =~= got + data);
            },
        }
    }
}

/// A reader with enough room gets exactly what was written to an empty pipe.
pub proof fn law_read_gives_back(s: PipesView, read_fd: u64, write_fd: u64, written: Seq<u8>, len: u64)
    requires
        written.len() <= len,
        read_fd != write_fd,
    ensures
        ({
            let t = piped(s, read_fd, write_fd);
            let id = t.ends[write_fd].id;
            let u = with_data(t, id, t.pipes[id].data + written);
            let data = u.pipes[u.ends[read_fd].id].data;
            data.take(taken(data, len)) == written
        }),
{
    let t = piped(s, read_fd, write_fd);
    let id = t.ends[write_fd].id;
    let u = with_data(t, id, t.pipes[id].data + written);
    let data = u.pipes[u.ends[read_fd].id].data;
    assert(data =~= written);
    assert(data.take(taken(data, len)) =~= written);
}

/// When the write end is closed, what is in the pipe stays to be read, and after it comes the end.
pub proof fn law_close_keeps_bytes(s: PipesView, read_fd: u64, write_fd: u64)
    requires
        pipes_ok(s),
        s.ends.contains_key(read_fd),
        s.ends.contains_key(write_fd),
        s.ends[read_fd] == (PipeEnd { id: s.ends[write_fd].id, end: End::Read }),
        s.ends[write_fd].end == End::Write,
    ensures
        ({
            let t = end_closed(s, write_fd);
            let id = s.ends[read_fd].id;
            &&& t.ends.contains_key(read_fd) && t.ends[read_fd].id == id
            &&& t.pipes.contains_key(id)
            &&& t.pipes[id].data == s.pipes[id].data
            &&& t.pipes[id].write_closed
        }),
{
}

/// When the read end is closed, writing fails for good.
pub proof fn law_no_reader(s: PipesView, read_fd: u64, write_fd: u64)
    requires
        pipes_ok(s),
        s.ends.contains_key(read_fd),
        s.ends.contains_key(write_fd),
        s.ends[read_fd] == (PipeEnd { id: s.ends[write_fd].id, end: End::Read }),
        s.ends[write_fd].end == End::Write,
    ensures
        ({
            let t = end_closed(s, read_fd);
            t.ends.contains_key(write_fd) && t.pipes[t.ends[write_fd].id].read_closed
        }),
{
}

/// A pipe with both ends closed is gone, and no other pipe changed.
pub proof fn law_both_closed(s: PipesView, a: u64, b: u64, other: u64)
    requires
        pipes_ok(s),
        s.ends.contains_key(a),
        s.ends.contains_key(b),
        a != b,
        s.ends[a].id == s.ends[b].id,
        other != s.ends[a].id,
    ensures
        ({
            let t = end_closed(end_closed(s, a), b);
            &&& !t.pipes.contains_key(s.ends[a].id)
            &&& t.pipes.contains_key(other) == s.pipes.contains_key(other)
            &&& t.pipes[other] == s.pipes[other]
        }),
{
    assert(s.ends[a] != s.ends[b]);
}

/// Whoever waits for bytes of a pipe can run once bytes come; whoever waits for something else
/// goes on waiting.
pub proof fn law_readers_woken(s: CoopView, id: u64, pid: Pid)
    requires
        s.procs.contains_key(pid),
        s.pids.contains(pid),
        forall|i: int| 0 <= i < s.pids.len() ==> s.procs.contains_key(#[trigger] s.pids[i]),
    ensures
        ({
            let reason = BlockReason::WaitingForPipeData(id);
            let t = roused(s, reason);
            &&& s.procs[pid].state == ProcState::Blocked(reason) ==> t.procs[pid].state
                == ProcState::Ready && t.ready.contains(pid)
            &&& s.procs[pid].state != ProcState::Blocked(reason) ==> t.procs[pid] == s.procs[pid]
        }),
{
    let reason = BlockReason::WaitingForPipeData(id);
    let list = s.pids.filter(waits(s, reason));
    lemma_filtered(s.pids, waits(s, reason));
    assert forall|i: int| 0 <= i < list.len() implies s.procs.contains_key(#[trigger] list[i]) by {
        assert(list.contains(list[i]));
    }
    lemma_all_woken(s, list);
    if s.procs[pid].state == ProcState::Blocked(reason) {
        assert(list.contains(pid));
        let i = list.index_of(pid);
        assert((s.ready + list)[s.ready.len() + i] == pid);
    } else {
        assert(!list.contains(pid));
    }
}

} // verus!

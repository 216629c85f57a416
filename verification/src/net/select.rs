//! Waiting for sets of descriptors.

use vstd::prelude::*;

use crate::errno::{EINTR, EINVAL};
use crate::net::poll::{data_ready, expired, has_expired, is_ready};
use crate::net::stack::{Net, NetView};
use crate::ordmap::OrdMap;
use crate::process::{Kernel, KernelView};

verus! {

/// How many descriptors a set covers.
pub const FD_SETSIZE: usize = 1024;

/// A set of descriptors, one bit each.
pub type FdSet = [u64; 16];

/// Whether bit `k` of a word is set.
pub open spec fn bit(word: u64, k: u64) -> bool {
    word & (1u64 << k) != 0
}

/// Whether a descriptor is in a set.
pub open spec fn in_set(set: Seq<u64>, fd: int) -> bool {
    bit(set[fd / 64], (fd % 64) as u64)
}

/// Whether a descriptor is in a set that may not have been given.
pub open spec fn wanted(set: Option<FdSet>, fd: int) -> bool {
    set matches Some(s) && in_set(s@, fd)
}

proof fn lemma_set_bit(word: u64, k: u64)
    requires
        k < 64,
    ensures
        forall|j: u64| j < 64 ==> (#[trigger] bit(word | (1u64 << k), j) <==> bit(word, j) || j == k),
{
    assert forall|j: u64| j < 64 implies (#[trigger] bit(word | (1u64 << k), j) <==> bit(word, j)
        || j == k) by {
        assert(((word | (1u64 << k)) & (1u64 << j) != 0) <==> (word & (1u64 << j) != 0 || j == k))
            by (bit_vector)
            requires
                j < 64,
                k < 64,
        ;
    }
}

/// Whether a descriptor is in a set.
fn fd_set_bit(set: &Option<FdSet>, idx: usize) -> (r: bool)
    requires
        idx < FD_SETSIZE,
    ensures
        r == wanted(*set, idx as int),
{
    match set {
        None => false,
        Some(words) => words[idx / 64] & (1u64 << (idx % 64) as u64) != 0,
    }
}

/// Puts a descriptor into a set.
fn fd_set_put(set: &mut FdSet, idx: usize)
    requires
        idx < FD_SETSIZE,
    ensures
        forall|fd: int|
            0 <= fd < FD_SETSIZE ==> (#[trigger] in_set(final(set)@, fd) <==> in_set(old(set)@, fd)
                || fd == idx),
{
    let ghost before = set@;
    let w: usize = idx / 64;
    let k: u64 = (idx % 64) as u64;
    let word: u64 = set[w];
    proof {
        lemma_set_bit(word, k);
    }
    set[w] = word | (1u64 << k);
    assert forall|fd: int| 0 <= fd < FD_SETSIZE implies (#[trigger] in_set(set@, fd) <==> in_set(
        before,
        fd,
    ) || fd == idx) by {
        if fd / 64 == w {
            assert(bit(word | (1u64 << k), (fd % 64) as u64) <==> bit(word, (fd % 64) as u64) || (fd
                % 64) as u64 == k);
        }
    }
}

/// An empty set.
fn empty_set() -> (r: FdSet)
    ensures
        forall|fd: int| 0 <= fd < FD_SETSIZE ==> !#[trigger] in_set(r@, fd),
{
    let r: FdSet = [0u64;16];
    assert forall|fd: int| 0 <= fd < FD_SETSIZE implies !#[trigger] in_set(r@, fd) by {
        let k = (fd % 64) as u64;
        assert(r@[fd / 64] == 0);
        assert(0u64 & (1u64 << k) == 0) by (bit_vector);
    }
    r
}

/// What a call waits for: descriptors below `n` to read from, to write to, and with anything
/// exceptional, and for how long. Negative seconds stand for ever.
#[derive(Clone, Copy)]
pub struct SelectRequest {
    pub n: i32,
    pub rfds: Option<FdSet>,
    pub wfds: Option<FdSet>,
    pub efds: Option<FdSet>,
    pub tv_sec: i64,
    pub tv_usec: i64,
}

/// Whether a descriptor is not looked at: one to read from that is not open.
pub open spec fn skipped(fds: Map<u64, u64>, req: SelectRequest, fd: int) -> bool {
    wanted(req.rfds, fd) && !fds.contains_key(fd as u64)
}

/// Whether a descriptor is reported as ready for reading.
pub open spec fn read_ready(n: NetView, fds: Map<u64, u64>, req: SelectRequest, fd: int) -> bool {
    wanted(req.rfds, fd) && fds.contains_key(fd as u64) && is_ready(n, fds[fd as u64])
}

/// Whether a descriptor is reported as ready for writing: nothing ever stands in the way.
pub open spec fn write_ready(fds: Map<u64, u64>, req: SelectRequest, fd: int) -> bool {
    wanted(req.wfds, fd) && !skipped(fds, req, fd)
}

/// Whether a descriptor is reported as exceptional: every one is, on demand.
pub open spec fn except_ready(fds: Map<u64, u64>, req: SelectRequest, fd: int) -> bool {
    wanted(req.efds, fd) && !skipped(fds, req, fd)
}

/// One for yes.
pub open spec fn one_if(b: bool) -> int {
    if b {
        1
    } else {
        0
    }
}

/// How many reports there are about the descriptors below `k`.
pub open spec fn reports(n: NetView, fds: Map<u64, u64>, req: SelectRequest, k: int) -> int
    decreases k,
{
    if k <= 0 {
        0
    } else {
        reports(n, fds, req, k - 1) + one_if(read_ready(n, fds, req, k - 1)) + one_if(
            write_ready(fds, req, k - 1),
        ) + one_if(except_ready(fds, req, k - 1))
    }
}

/// What a call did after it looked.
pub enum SelectStep {
    /// It is over: this many reports, in these sets, which replace the caller's.
    Return { count: i64, rout: FdSet, wout: FdSet, eout: FdSet },
    /// It is over, and the caller's sets are as they were.
    Failed(u64),
    /// Handle what arrives, and look again.
    Spin,
    /// There is nothing to look at: let others run, and look again.
    Yield,
}

/// How long a call waits, in milliseconds; `None` for ever.
pub open spec fn select_timeout_of(tv_sec: i64, tv_usec: i64) -> Option<u64> {
    if tv_sec < 0 {
        None
    } else {
        Some((tv_sec * 1000 + unsigned(tv_usec) / 1000) as u64)
    }
}

/// A number as it reads without its sign.
pub open spec fn unsigned(n: i64) -> int {
    if n >= 0 {
        n as int
    } else {
        n + 0x1_0000_0000_0000_0000
    }
}

/// How long a call waits, in milliseconds; `None` for ever.
pub fn select_timeout(tv_sec: i64, tv_usec: i64) -> (r: Option<u64>)
    requires
        tv_sec >= 0 ==> tv_sec * 1000 + unsigned(tv_usec) / 1000 <= u64::MAX,
    ensures
        r == select_timeout_of(tv_sec, tv_usec),
{
    if tv_sec < 0 {
        None
    } else {
        let usec: u64 = if tv_usec >= 0 {
            tv_usec as u64
        } else {
            (tv_usec as i128 + 0x1_0000_0000_0000_0000) as u64
        };
        Some(tv_sec as u64 * 1000 + usec / 1000)
    }
}

/// Whether a process has a signal that it does not hold back.
pub open spec fn signal_pending(k: KernelView, pid: u64) -> bool {
    k.procs.contains_key(pid) && k.procs[pid].pending_signals & !k.procs[pid].blocked_signals != 0
}

fn has_signal(kernel: &Kernel, pid: u64) -> (r: bool)
    requires
        kernel.wf(),
    ensures
        r == signal_pending(kernel@, pid),
{
    match kernel.procs.get(pid) {
        Some(p) => p.pending_signals & !p.blocked_signals != 0,
        None => false,
    }
}

/// Whether the sets of an answer are what they should be.
pub open spec fn sets_right(
    n: NetView,
    fds: Map<u64, u64>,
    req: SelectRequest,
    rout: FdSet,
    wout: FdSet,
    eout: FdSet,
) -> bool {
    forall|fd: int|
        #![trigger in_set(rout@, fd)]
        #![trigger in_set(wout@, fd)]
        #![trigger in_set(eout@, fd)]
        0 <= fd < FD_SETSIZE ==> {
            &&& in_set(rout@, fd) <==> fd < req.n && read_ready(n, fds, req, fd)
            &&& in_set(wout@, fd) <==> fd < req.n && write_ready(fds, req, fd)
            &&& in_set(eout@, fd) <==> fd < req.n && except_ready(fds, req, fd)
        }
}

/// Whether the sets of an answer are right for the descriptors below `k`, and empty above.
spec fn sets_below(
    n: NetView,
    fds: Map<u64, u64>,
    req: SelectRequest,
    rout: FdSet,
    wout: FdSet,
    eout: FdSet,
    k: int,
) -> bool {
    forall|fd: int|
        #![trigger in_set(rout@, fd)]
        #![trigger in_set(wout@, fd)]
        #![trigger in_set(eout@, fd)]
        0 <= fd < FD_SETSIZE ==> {
            &&& in_set(rout@, fd) <==> fd < k && read_ready(n, fds, req, fd)
            &&& in_set(wout@, fd) <==> fd < k && write_ready(fds, req, fd)
            &&& in_set(eout@, fd) <==> fd < k && except_ready(fds, req, fd)
        }
}

/// Looks at every descriptor once, after what had arrived was handled. The call is over where
/// there is something to report, the deadline has passed, or a signal came for the caller.
pub fn oxidebsd_sys_select(
    net: &Net,
    fds: &OrdMap<u64>,
    req: Option<&SelectRequest>,
    kernel: &Kernel,
    caller: u64,
    now: u64,
    deadline: Option<u64>,
) -> (r: SelectStep)
    requires
        net.wf(),
        fds.wf(),
        kernel.wf(),
    ensures
        match req {
            None => r == SelectStep::Failed(EINVAL),
            Some(q) => if !(0 <= q.n <= FD_SETSIZE) {
                r == SelectStep::Failed(EINVAL)
            } else {
                let count = reports(net@, fds@, *q, q.n as int);
                if count > 0 || expired(now, deadline) {
                    r matches SelectStep::Return { count: c, rout, wout, eout } && c == count
                        && sets_right(net@, fds@, *q, rout, wout, eout)
                } else if signal_pending(kernel@, caller) {
                    r == SelectStep::Failed(EINTR)
                } else if q.n == 0 {
                    r is Yield
                } else {
                    r is Spin
                }
            },
        },
{
    let q: &SelectRequest = match req {
        Some(q) => q,
        None => {
            return SelectStep::Failed(EINVAL);
        },
    };
    if q.n < 0 || q.n > 1024 {
        return SelectStep::Failed(EINVAL);
    }
    let n: usize = q.n as usize;
    let mut ready_count: i64 = 0;
    let mut rout: FdSet = empty_set();
    let mut wout: FdSet = empty_set();
    let mut eout: FdSet = empty_set();
    let mut fd: usize = 0;
    while fd < n
        invariant
            net.wf(),
            fds.wf(),
            fd <= n <= FD_SETSIZE,
            0 <= ready_count <= 3 * fd,
            ready_count == reports(net@, fds@, *q, fd as int),
            sets_below(net@, fds@, *q, rout, wout, eout, fd as int),
        decreases n - fd,
    {
        let ghost before = (rout, wout, eout);
        assert(forall|f: int|
            #![trigger in_set(rout@, f)]
            #![trigger in_set(wout@, f)]
            #![trigger in_set(eout@, f)]
            fd <= f < FD_SETSIZE ==> !in_set(rout@, f) && !in_set(wout@, f) && !in_set(eout@, f));
        let wants_r = fd_set_bit(&q.rfds, fd);
        let wants_w = fd_set_bit(&q.wfds, fd);
        let wants_e = fd_set_bit(&q.efds, fd);
        let mut look = true;
        if wants_r {
            match fds.get(fd as u64) {
                None => {
                    look = false;
                },
                Some(real_fd) => {
                    if data_ready(net, *real_fd) {
                        fd_set_put(&mut rout, fd);
                        ready_count = ready_count + 1;
                    }
                },
            }
        }
        if look && wants_w {
            fd_set_put(&mut wout, fd);
            ready_count = ready_count + 1;
        }
        if look && wants_e {
            fd_set_put(&mut eout, fd);
            ready_count = ready_count + 1;
        }
        proof {
            assert(fd == fd as u64 as int);
            assert(look == !skipped(fds@, *q, fd as int));
            assert forall|f: int|
                #![trigger in_set(rout@, f)]
                #![trigger in_set(wout@, f)]
                #![trigger in_set(eout@, f)]
                0 <= f < FD_SETSIZE implies {
                &&& in_set(rout@, f) <==> f < fd + 1 && read_ready(net@, fds@, *q, f)
                &&& in_set(wout@, f) <==> f < fd + 1 && write_ready(fds@, *q, f)
                &&& in_set(eout@, f) <==> f < fd + 1 && except_ready(fds@, *q, f)
            } by {
                assert(in_set(before.0@, f) <==> f < fd && read_ready(net@, fds@, *q, f));
                assert(in_set(before.1@, f) <==> f < fd && write_ready(fds@, *q, f));
                assert(in_set(before.2@, f) <==> f < fd && except_ready(fds@, *q, f));
            }
        }
        fd += 1;
    }
    if ready_count > 0 {
        return SelectStep::Return { count: ready_count, rout, wout, eout };
    }
    if has_expired(now, deadline) {
        return SelectStep::Return { count: 0, rout, wout, eout };
    }
    if has_signal(kernel, caller) {
        return SelectStep::Failed(EINTR);
    }
    if n == 0 {
        SelectStep::Yield
    } else {
        SelectStep::Spin
    }
}

proof fn lemma_no_reports(n: NetView, fds: Map<u64, u64>, req: SelectRequest, k: int, fd: int)
    requires
        reports(n, fds, req, k) == 0,
        0 <= fd < k,
    ensures
        !read_ready(n, fds, req, fd),
        !write_ready(fds, req, fd),
        !except_ready(fds, req, fd),
    decreases k,
{
    lemma_reports_not_negative(n, fds, req, k - 1);
    if fd < k - 1 {
        lemma_no_reports(n, fds, req, k - 1, fd);
    }
}

proof fn lemma_reports_not_negative(n: NetView, fds: Map<u64, u64>, req: SelectRequest, k: int)
    ensures
        reports(n, fds, req, k) >= 0,
    decreases k,
{
    if k > 0 {
        lemma_reports_not_negative(n, fds, req, k - 1);
    }
}

/// When time runs out, every set comes back empty.
pub proof fn law_timeout_empties(
    n: NetView,
    fds: Map<u64, u64>,
    req: SelectRequest,
    rout: FdSet,
    wout: FdSet,
    eout: FdSet,
    fd: int,
)
    requires
        0 <= req.n <= FD_SETSIZE,
        reports(n, fds, req, req.n as int) == 0,
        sets_right(n, fds, req, rout, wout, eout),
        0 <= fd < FD_SETSIZE,
    ensures
        !in_set(rout@, fd),
        !in_set(wout@, fd),
        !in_set(eout@, fd),
{
    if fd < req.n {
        lemma_no_reports(n, fds, req, req.n as int, fd);
    }
    assert(in_set(rout@, fd) <==> fd < req.n && read_ready(n, fds, req, fd));
}

/// An answer reports only what the caller asked for.
pub proof fn law_only_wanted(
    n: NetView,
    fds: Map<u64, u64>,
    req: SelectRequest,
    rout: FdSet,
    wout: FdSet,
    eout: FdSet,
    fd: int,
)
    requires
        sets_right(n, fds, req, rout, wout, eout),
        0 <= fd < FD_SETSIZE,
    ensures
        in_set(rout@, fd) ==> wanted(req.rfds, fd) && is_ready(n, fds[fd as u64]),
        in_set(wout@, fd) ==> wanted(req.wfds, fd),
        in_set(eout@, fd) ==> wanted(req.efds, fd),
{
    assert(in_set(rout@, fd) <==> fd < req.n && read_ready(n, fds, req, fd));
}

} // verus!

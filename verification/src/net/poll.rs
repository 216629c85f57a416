//! Driving the stack, and waiting for sockets.

use vstd::prelude::*;

use crate::errno::{EAGAIN, EINVAL};
use crate::net::ethernet::{
    answer_to, delivered, frame_view, handle_frame, reaction_to, Handled,
};
use crate::net::nic::MacAddr;
use crate::net::queue::packet_view;
use crate::net::socket::{recvfrom_outcome, Received};
use crate::net::stack::{Net, NetView};
use crate::net::tcp::{
    accept_error, beyond, check_retransmits, is_next_due, overdue, readable_now, ready, retried,
    retry_packet, Retry, SocketView, RETRANSMIT_TICKS,
};
use crate::ordmap::OrdMap;

verus! {

// ---------------------------------------------------------------------------------------------
// Driving the stack
// ---------------------------------------------------------------------------------------------
/// How far a round of handling what arrived has come.
pub enum Round {
    /// Segments that were overdue when the round began, at tick `began`, are seen to; those of the
    /// connections up to `after` were.
    Resend { after: Option<u64>, began: u64 },
    /// The card was asked for a frame.
    Asked(Option<Vec<u8>>),
}

/// What the round does next.
pub enum RoundStep {
    /// Send the packet, if there is one, whether it goes out or not; then go on behind this
    /// connection.
    Resend(Retry),
    /// Nothing is overdue any more: ask the card.
    Ask,
    /// See to what the frame calls for; then ask the card.
    React(Handled),
    /// Everything that had arrived was handled.
    Done,
}

/// One step of a round: overdue segments first, one connection at a time, then frame after frame
/// until the card, whose address is `our`, has none.
pub fn poll(net: &mut Net, our: Option<MacAddr>, at: Round, fresh: u64, ticks: u64) -> (r: RoundStep)
    requires
        old(net).wf(),
        at matches Round::Asked(Some(_)) ==> !old(net)@.tcp.sockets.contains_key(fresh),
        at is Resend ==> ticks <= u64::MAX - RETRANSMIT_TICKS,
    ensures
        final(net).wf(),
        match at {
            Round::Resend { after, began } => {
                let n = old(net)@;
                match r {
                    RoundStep::Resend(again) => {
                        &&& is_next_due(n.tcp, after, began, again.fd)
                        &&& final(net)@ == (NetView { tcp: retried(n.tcp, again.fd, ticks), ..n })
                        &&& packet_view(again.packet) == retry_packet(n.tcp, again.fd)
                    },
                    RoundStep::Ask => {
                        &&& forall|g: u64|
                            beyond(after, g) ==> !#[trigger] overdue(n.tcp, g, began)
                        &&& final(net)@ == n
                    },
                    _ => false,
                }
            },
            Round::Asked(None) => final(net)@ == old(net)@ && r is Done,
            Round::Asked(Some(frame)) => {
                &&& final(net)@ == delivered(old(net)@, frame@, fresh, ticks)
                &&& r matches RoundStep::React(h) && {
                    &&& h.reaction@ == reaction_to(old(net)@, frame@, fresh, ticks)
                    &&& frame_view(h.frame) == answer_to(our, frame@)
                }
            },
        },
{
    match at {
        Round::Resend { after, began } => match check_retransmits(
            &mut net.tcp,
            after,
            began,
            ticks,
        ) {
            Some(again) => RoundStep::Resend(again),
            None => RoundStep::Ask,
        },
        Round::Asked(None) => RoundStep::Done,
        Round::Asked(Some(frame)) => RoundStep::React(
            handle_frame(net, our, frame.as_slice(), fresh, ticks),
        ),
    }
}

// ---------------------------------------------------------------------------------------------
// Readiness
// ---------------------------------------------------------------------------------------------
/// Whether reading `real_fd` gives something at once. What is not a socket always does.
pub open spec fn is_ready(n: NetView, real_fd: u64) -> bool {
    if n.udp.sockets.contains_key(real_fd) {
        n.udp.sockets[real_fd].queue.len() > 0
    } else if n.tcp.sockets.contains_key(real_fd) {
        ready(n.tcp.sockets[real_fd])
    } else if n.echo.sockets.contains_key(real_fd) {
        n.echo.sockets[real_fd].len() > 0
    } else {
        true
    }
}

/// Whether reading `real_fd` gives something at once.
pub fn data_ready(net: &Net, real_fd: u64) -> (r: bool)
    requires
        net.wf(),
    ensures
        r == is_ready(net@, real_fd),
{
    if let Some(r) = crate::net::udp::has_data_ready(&net.udp, real_fd) {
        return r;
    }
    if let Some(r) = crate::net::tcp::has_data_ready(&net.tcp, real_fd) {
        return r;
    }
    if let Some(r) = crate::net::icmp::has_data_ready(&net.echo, real_fd) {
        return r;
    }
    true
}

// ---------------------------------------------------------------------------------------------
// poll
// ---------------------------------------------------------------------------------------------
pub const POLLIN: u16 = 0x0001;

pub const POLLNVAL: u16 = 0x0020;

/// One descriptor to wait for.
#[derive(Debug, Clone, Copy, PartialEq, Eq, Structural)]
pub struct PollFd {
    pub fd: i32,
    pub events: u16,
    pub revents: u16,
}

/// Whether a descriptor is ready, or is none: `fds` holds the open ones. A negative one is passed
/// over.
pub open spec fn counts(n: NetView, fds: Map<u64, u64>, e: PollFd) -> bool {
    e.fd >= 0 && (fds.contains_key(e.fd as u64) ==> is_ready(n, fds[e.fd as u64]))
}

/// What is reported of a descriptor.
pub open spec fn reported(n: NetView, fds: Map<u64, u64>, e: PollFd) -> PollFd {
    PollFd {
        revents: if !counts(n, fds, e) {
            0
        } else if fds.contains_key(e.fd as u64) {
            e.events & POLLIN
        } else {
            POLLNVAL
        },
        ..e
    }
}

/// How many descriptors are reported.
pub open spec fn count_of(n: NetView, fds: Map<u64, u64>, es: Seq<PollFd>) -> nat
    decreases es.len(),
{
    if es.len() == 0 {
        0
    } else {
        count_of(n, fds, es.drop_last()) + if counts(n, fds, es.last()) {
            1nat
        } else {
            0nat
        }
    }
}

/// How long a call with this argument waits, in milliseconds: the low half is a signed number, and
/// a negative one stands for ever.
pub open spec fn timeout_of(timeout_ms: u64) -> Option<u64> {
    let low = timeout_ms % 0x1_0000_0000;
    if low < 0x8000_0000 {
        Some(low)
    } else {
        None
    }
}

/// Reads the arguments of a call. `given` says whether there is a list at all.
pub fn poll_begin(given: bool, nfds: u64, timeout_ms: u64) -> (r: Result<Option<u64>, u64>)
    ensures
        r == (if !given && nfds > 0 {
            Err::<Option<u64>, u64>(EINVAL)
        } else {
            Ok(timeout_of(timeout_ms))
        }),
{
    if !given && nfds > 0 {
        return Err(EINVAL);
    }
    let low: u64 = timeout_ms % 0x1_0000_0000;
    if low < 0x8000_0000 {
        Ok(Some(low))
    } else {
        Ok(None)
    }
}

/// What a call that waits does after it looked.
#[derive(Debug, Clone, Copy, PartialEq, Eq, Structural)]
pub enum WaitStep {
    /// It is over, with this answer.
    Return(i64),
    /// Handle what arrives, and look again.
    Spin,
    /// There is nothing to look at: let others run, and look at the clock again.
    Yield,
}

/// Whether the deadline, if there is one, has passed.
pub open spec fn expired(now: u64, deadline: Option<u64>) -> bool {
    deadline matches Some(d) && now >= d
}

/// Whether the deadline, if there is one, has passed.
pub fn has_expired(now: u64, deadline: Option<u64>) -> (r: bool)
    ensures
        r == expired(now, deadline),
{
    match deadline {
        Some(d) => now >= d,
        None => false,
    }
}

/// Looks at every descriptor once, after what had arrived was handled. The call is over where one
/// is reported, or the deadline has passed.
pub fn oxidebsd_sys_poll(
    net: &Net,
    fds: &OrdMap<u64>,
    entries: &mut Vec<PollFd>,
    now: u64,
    deadline: Option<u64>,
) -> (r: WaitStep)
    requires
        net.wf(),
        fds.wf(),
        old(entries)@.len() <= i64::MAX,
    ensures
        final(entries)@ == Seq::new(
            old(entries)@.len(),
            |i: int| reported(net@, fds@, old(entries)@[i]),
        ),
        ({
            let count = count_of(net@, fds@, old(entries)@);
            r == (if count > 0 {
                WaitStep::Return(count as i64)
            } else if expired(now, deadline) {
                WaitStep::Return(0)
            } else if old(entries)@.len() == 0 {
                WaitStep::Yield
            } else {
                WaitStep::Spin
            })
        }),
{
    let ghost all = entries@;
    let ghost n = net@;
    let mut ready_count: i64 = 0;
    let mut i: usize = 0;
    assert(all.take(0) =~= Seq::<PollFd>::empty());
    while i < entries.len()
        invariant
            net.wf(),
            fds.wf(),
            n == net@,
            entries@.len() == all.len(),
            i <= all.len() <= i64::MAX,
            0 <= ready_count <= i,
            ready_count == count_of(n, fds@, all.take(i as int)),
            forall|j: int| 0 <= j < i ==> #[trigger] entries@[j] == reported(n, fds@, all[j]),
            forall|j: int| i <= j < all.len() ==> #[trigger] entries@[j] == all[j],
        decreases all.len() - i,
    {
        let e: PollFd = entries[i];
        let mut revents: u16 = 0;
        assert(all.take(i + 1).drop_last() =~= all.take(i as int));
        assert(all.take(i + 1).last() == e);
        if e.fd >= 0 {
            match fds.get(e.fd as u64) {
                None => {
                    revents = POLLNVAL;
                    ready_count = ready_count + 1;
                },
                Some(real_fd) => {
                    if data_ready(net, *real_fd) {
                        revents = e.events & POLLIN;
                        ready_count = ready_count + 1;
                    }
                },
            }
        }
        entries[i] = PollFd { fd: e.fd, events: e.events, revents };
        assert(entries@[i as int] == reported(n, fds@, e));
        i += 1;
    }
    assert(all.take(i as int) =~= all);
    assert(entries@ =~= Seq::new(all.len(), |i: int| reported(n, fds@, all[i])));
    if ready_count > 0 {
        WaitStep::Return(ready_count)
    } else if has_expired(now, deadline) {
        WaitStep::Return(0)
    } else if entries.len() == 0 {
        WaitStep::Yield
    } else {
        WaitStep::Spin
    }
}

// ---------------------------------------------------------------------------------------------
// Laws
// ---------------------------------------------------------------------------------------------
/// A datagram socket is ready exactly if reading it gives a datagram.
pub proof fn law_ready_gives_datagram(
    n: NetView,
    after: NetView,
    fd: u64,
    room: u64,
    got: Option<Received>,
)
    requires
        n.udp.sockets.contains_key(fd) || (n.echo.sockets.contains_key(fd)
            && !n.tcp.sockets.contains_key(fd)),
        recvfrom_outcome(n, after, fd, room, got),
    ensures
        is_ready(n, fd) == got.is_some(),
{
}

/// A connection is ready exactly if a reader with any room gets bytes, and a listener exactly if
/// somebody waits to be accepted.
pub proof fn law_ready_gives_stream(n: NetView, fd: u64, len: u64)
    requires
        n.tcp.sockets.contains_key(fd),
        !n.udp.sockets.contains_key(fd),
        len > 0,
    ensures
        match n.tcp.sockets[fd] {
            SocketView::Connection(c) => is_ready(n, fd) == (readable_now(c, len) > 0),
            SocketView::Listener { .. } => is_ready(n, fd) == (accept_error(n.tcp, Some(fd)) != Some(
                EAGAIN,
            )),
            SocketView::Unbound { .. } => !is_ready(n, fd),
        },
{
}

/// A call that waits for ever for something to read ends when, and only when, a descriptor that it
/// waits for is reported.
pub proof fn law_report_ends_wait(n: NetView, fds: Map<u64, u64>, es: Seq<PollFd>)
    ensures
        count_of(n, fds, es) > 0 <==> exists|i: int|
            0 <= i < es.len() && counts(n, fds, #[trigger] es[i]),
    decreases es.len(),
{
    if es.len() > 0 {
        let t = es.drop_last();
        law_report_ends_wait(n, fds, t);
        if counts(n, fds, es.last()) {
            assert(counts(n, fds, es[es.len() - 1]));
        }
        if exists|i: int| 0 <= i < t.len() && counts(n, fds, #[trigger] t[i]) {
            let i = choose|i: int| 0 <= i < t.len() && counts(n, fds, #[trigger] t[i]);
            assert(counts(n, fds, es[i]));
        }
        if exists|i: int| 0 <= i < es.len() && counts(n, fds, #[trigger] es[i]) {
            let i = choose|i: int| 0 <= i < es.len() && counts(n, fds, #[trigger] es[i]);
            if i < t.len() {
                assert(counts(n, fds, t[i]));
            }
        }
    }
}

} // verus!

//! Ports for sockets that did not ask for one.

use vstd::prelude::*;

use crate::ordmap::OrdMap;

verus! {

/// The first port that is given out unasked.
pub const EPHEMERAL_PORT_START: u16 = 49152;

/// How many ports are given out unasked.
pub const EPHEMERAL_PORTS: u16 = 16384;

/// Whether a port is one that is given out unasked.
pub open spec fn ephemeral(port: u16) -> bool {
    EPHEMERAL_PORT_START <= port
}

/// The port after `port`, round and round.
pub open spec fn port_after(port: u16) -> u16 {
    if port == 65535 {
        EPHEMERAL_PORT_START
    } else {
        (port + 1) as u16
    }
}

/// The first port that is not used, of the `left` ports from `port` on.
pub open spec fn first_unused(used: Map<u64, u64>, port: u16, left: nat) -> Option<u16>
    decreases left,
{
    if left == 0 {
        None
    } else if !used.contains_key(port as u64) {
        Some(port)
    } else {
        first_unused(used, port_after(port), (left - 1) as nat)
    }
}

/// The port that a socket is given unasked when `next` is up next.
pub open spec fn port_for(used: Map<u64, u64>, next: u16) -> Option<u16> {
    first_unused(used, next, EPHEMERAL_PORTS as nat)
}

/// Which port is up next after that.
pub open spec fn next_after(used: Map<u64, u64>, next: u16) -> u16 {
    match port_for(used, next) {
        Some(p) => port_after(p),
        None => next,
    }
}

/// The place of a port in the round that begins at `start`.
spec fn place(start: u16, port: u16) -> int {
    if port >= start {
        port - start
    } else {
        port - start + EPHEMERAL_PORTS
    }
}

/// Finds a port that is not used, starting at `next` and moving it on.
pub fn alloc_ephemeral_port(used: &OrdMap<u64>, next: &mut u16) -> (r: Option<u16>)
    requires
        used.wf(),
        ephemeral(*old(next)),
    ensures
        r == port_for(used@, *old(next)),
        *final(next) == next_after(used@, *old(next)),
        ephemeral(*final(next)),
{
    let start: u16 = *next;
    let mut left: u16 = EPHEMERAL_PORTS;
    while left > 0
        invariant
            used.wf(),
            ephemeral(*next),
            ephemeral(start),
            start == *old(next),
            left <= EPHEMERAL_PORTS,
            left > 0 ==> place(start, *next) == EPHEMERAL_PORTS - left,
            left == 0 ==> *next == start,
            port_for(used@, start) == first_unused(used@, *next, left as nat),
        decreases left,
    {
        let port: u16 = *next;
        *next = if port == 65535 {
            EPHEMERAL_PORT_START
        } else {
            port + 1
        };
        if !used.contains_key(port as u64) {
            return Some(port);
        }
        left = left - 1;
    }
    None
}

proof fn lemma_first_unused(used: Map<u64, u64>, port: u16, left: nat)
    requires
        ephemeral(port),
        left <= EPHEMERAL_PORTS,
    ensures
        match first_unused(used, port, left) {
            Some(p) => ephemeral(p) && !used.contains_key(p as u64),
            None => forall|p: u16|
                ephemeral(p) && #[trigger] place(port, p) < left ==> used.contains_key(p as u64),
        },
    decreases left,
{
    if left > 0 && used.contains_key(port as u64) {
        lemma_first_unused(used, port_after(port), (left - 1) as nat);
        if first_unused(used, port, left).is_none() {
            assert forall|p: u16|
                ephemeral(p) && #[trigger] place(port, p) < left implies used.contains_key(
                p as u64,
            ) by {
                if p != port {
                    assert(place(port_after(port), p) == place(port, p) - 1);
                }
            }
        }
    }
}

/// A port that is given out unasked is from the range for that and not in use; none is given out
/// only where the whole range is in use.
pub proof fn law_port_is_free(used: Map<u64, u64>, next: u16)
    requires
        ephemeral(next),
    ensures
        match port_for(used, next) {
            Some(p) => ephemeral(p) && !used.contains_key(p as u64),
            None => forall|p: u16| ephemeral(p) ==> #[trigger] used.contains_key(p as u64),
        },
        ephemeral(next_after(used, next)),
{
    lemma_first_unused(used, next, EPHEMERAL_PORTS as nat);
    if port_for(used, next).is_none() {
        assert forall|p: u16| ephemeral(p) implies #[trigger] used.contains_key(p as u64) by {
            assert(place(next, p) < EPHEMERAL_PORTS);
        }
    }
}

} // verus!

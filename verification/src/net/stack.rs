//! The state of the whole stack.

use vstd::prelude::*;

use crate::net::arp::{ArpTable, NeighbourView};
use crate::net::icmp::{EchoState, EchoView};
use crate::net::tcp::{TcpState, TcpView};
use crate::net::udp::{UdpState, UdpView};

verus! {

/// The neighbours, and the sockets of each protocol.
pub struct Net {
    pub arp: ArpTable,
    pub echo: EchoState,
    pub udp: UdpState,
    pub tcp: TcpState,
}

/// The neighbours, and the sockets of each protocol, as a value.
pub struct NetView {
    pub arp: Seq<Option<NeighbourView>>,
    pub echo: EchoView,
    pub udp: UdpView,
    pub tcp: TcpView,
}

impl View for Net {
    type V = NetView;

    open spec fn view(&self) -> NetView {
        NetView { arp: self.arp@, echo: self.echo@, udp: self.udp@, tcp: self.tcp@ }
    }
}

impl Net {
    /// Every part is well formed.
    pub open spec fn wf(&self) -> bool {
        &&& self.arp.wf()
        &&& self.echo.wf()
        &&& self.udp.wf()
        &&& self.tcp.wf()
    }

    /// Nobody known, no socket open.
    pub fn new() -> (r: Self)
        ensures
            r.wf(),
            r@.arp == Seq::new(16, |i: int| None::<NeighbourView>),
            r@.echo.last_echo_reply.is_none(),
            r@.echo.sockets == Map::<u64, Seq<crate::net::queue::DatagramView>>::empty(),
            r@.udp.sockets == Map::<u64, crate::net::udp::UdpSocketView>::empty(),
            r@.udp.ports == Map::<u64, u64>::empty(),
            r@.tcp.sockets == Map::<u64, crate::net::tcp::SocketView>::empty(),
            r@.tcp.listeners == Map::<u64, u64>::empty(),
            r@.tcp.connections == Map::<u64, u64>::empty(),
            r@.udp.next_ephemeral == 49152,
            r@.tcp.next_ephemeral == 49152,
            r@.tcp.isn_counter == 0,
    {
        Net {
            arp: ArpTable::new(),
            echo: EchoState::new(),
            udp: UdpState::new(),
            tcp: TcpState::new(),
        }
    }
}

} // verus!

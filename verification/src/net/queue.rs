//! Packets on their way out, and datagrams that wait for a reader.

use std::collections::VecDeque;

use vstd::prelude::*;

use crate::bytes::copy_range;
use crate::net::ipv4::Ipv4Addr;

verus! {

/// A packet to be sent.
pub struct Packet {
    pub dest: Ipv4Addr,
    pub protocol: u8,
    pub payload: Vec<u8>,
}

/// A packet to be sent, as a value.
pub struct PacketView {
    pub dest: Seq<u8>,
    pub protocol: u8,
    pub payload: Seq<u8>,
}

impl View for Packet {
    type V = PacketView;

    open spec fn view(&self) -> PacketView {
        PacketView { dest: self.dest@, protocol: self.protocol, payload: self.payload@ }
    }
}

/// A packet that there may be.
pub open spec fn packet_view(p: Option<Packet>) -> Option<PacketView> {
    match p {
        Some(p) => Some(p@),
        None => None,
    }
}

/// What arrived for a socket, and from where.
pub struct Datagram {
    pub ip: Ipv4Addr,
    pub port: u16,
    pub data: Vec<u8>,
}

/// What arrived for a socket, as a value.
pub struct DatagramView {
    pub ip: Seq<u8>,
    pub port: u16,
    pub data: Seq<u8>,
}

impl View for Datagram {
    type V = DatagramView;

    open spec fn view(&self) -> DatagramView {
        DatagramView { ip: self.ip@, port: self.port, data: self.data@ }
    }
}

/// How many datagrams wait at most.
pub const MAX_QUEUED: usize = 32;

/// The datagrams that wait for one socket's reader, oldest first.
pub struct RecvQueue {
    pub items: VecDeque<Datagram>,
}

impl View for RecvQueue {
    type V = Seq<DatagramView>;

    open spec fn view(&self) -> Seq<DatagramView> {
        Seq::new(self.items@.len(), |i: int| self.items@[i]@)
    }
}

/// A queue after one more arrival: a full one loses its oldest.
pub open spec fn queued(q: Seq<DatagramView>, d: DatagramView) -> Seq<DatagramView> {
    if q.len() >= MAX_QUEUED {
        q.drop_first().push(d)
    } else {
        q.push(d)
    }
}

/// What a reader with room for `room` bytes gets of a datagram.
pub open spec fn cut(data: Seq<u8>, room: u64) -> Seq<u8> {
    if data.len() <= room {
        data
    } else {
        data.take(room as int)
    }
}

impl RecvQueue {
    /// Nothing waits.
    pub fn new() -> (r: Self)
        ensures
            r@ == Seq::<DatagramView>::empty(),
    {
        let r = RecvQueue { items: VecDeque::new() };
        assert(r@ =~= Seq::<DatagramView>::empty());
        r
    }

    /// Adds what arrived.
    pub fn push(&mut self, d: Datagram)
        ensures
            final(self)@ == queued(old(self)@, d@),
    {
        let ghost before = self@;
        if self.items.len() >= MAX_QUEUED {
            let _ = self.items.pop_front();
            assert(self@ =~= before.drop_first());
        }
        let ghost mid = self@;
        self.items.push_back(d);
        assert(self@ =~= mid.push(d@));
    }

    /// Takes the oldest.
    pub fn pop(&mut self) -> (r: Option<Datagram>)
        ensures
            match r {
                Some(d) => {
                    &&& old(self)@.len() > 0
                    &&& d@ == old(self)@[0]
                    &&& final(self)@ == old(self)@.drop_first()
                },
                None => old(self)@.len() == 0 && final(self)@ == old(self)@,
            },
    {
        let ghost before = self@;
        let r = self.items.pop_front();
        if r.is_some() {
            assert(self@ =~= before.drop_first());
        }
        r
    }

    /// Whether anything waits.
    pub fn is_empty(&self) -> (r: bool)
        ensures
            r == (self@.len() == 0),
    {
        self.items.len() == 0
    }
}

/// A copy of the first `room` bytes, or of all where there are fewer.
pub fn cut_to(data: &[u8], room: u64) -> (r: Vec<u8>)
    ensures
        r@ == cut(data@, room),
{
    let n: usize = data.len();
    if n as u64 <= room {
        let r = copy_range(data, 0, n);
        assert(r@ =~= data@);
        r
    } else {
        let r = copy_range(data, 0, room as usize);
        assert(r@ =~= data@.take(room as int));
        r
    }
}

/// A queue that keeps to its bound goes on keeping to it.
pub proof fn law_queue_bounded(q: Seq<DatagramView>, d: DatagramView)
    requires
        q.len() <= MAX_QUEUED,
    ensures
        0 < queued(q, d).len() <= MAX_QUEUED,
        queued(q, d).last() == d,
{
}

/// The queue after a run of arrivals.
pub open spec fn queued_all(q: Seq<DatagramView>, ds: Seq<DatagramView>) -> Seq<DatagramView>
    decreases ds.len(),
{
    if ds.len() == 0 {
        q
    } else {
        queued(queued_all(q, ds.drop_last()), ds.last())
    }
}

/// However much arrives, what waits is the newest of it, in the order of arrival.
pub proof fn law_newest_wait(q: Seq<DatagramView>, ds: Seq<DatagramView>)
    requires
        q.len() <= MAX_QUEUED,
    ensures
        ({
            let all = q + ds;
            let n = if all.len() <= MAX_QUEUED {
                all.len() as int
            } else {
                MAX_QUEUED as int
            };
            queued_all(q, ds) == all.subrange(all.len() - n, all.len() as int)
        }),
    decreases ds.len(),
{
    let all = q + ds;
    if ds.len() == 0 {
        assert(queued_all(q, ds) =~= all.subrange(0, all.len() as int));
    } else {
        law_newest_wait(q, ds.drop_last());
        let before = q + ds.drop_last();
        let mid = queued_all(q, ds.drop_last());
        assert(all =~= before.push(ds.last()));
        if before.len() < MAX_QUEUED {
            assert(queued_all(q, ds) =~= all.subrange(0, all.len() as int));
        } else {
            assert(mid.len() == MAX_QUEUED);
            assert(queued_all(q, ds) =~= all.subrange(all.len() - MAX_QUEUED, all.len() as int));
        }
    }
}

} // verus!

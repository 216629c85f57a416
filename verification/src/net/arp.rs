//! ARP: which hardware address stands behind an IPv4 address.

use vstd::prelude::*;

use crate::bytes::{be16, be16_bytes, lemma_be16, push_all, push_be16, read_be16};
use crate::net::ethernet::{frame_of, frame_view, send_frame, BROADCAST_MAC, ETHERTYPE_ARP};
use crate::net::ipv4::{push_ip, read_ip, same_ip, Ipv4Addr, GUEST_IP};
use crate::net::nic::{push_mac, read_mac, MacAddr};

verus! {

pub const HTYPE_ETHERNET: u16 = 1;

pub const PTYPE_IPV4: u16 = 0x0800;

pub const OPER_REQUEST: u16 = 1;

pub const OPER_REPLY: u16 = 2;

pub const PACKET_LEN: usize = 28;

/// How many neighbours are remembered.
pub const TABLE_SIZE: usize = 16;

/// One neighbour.
#[derive(Debug, Clone, Copy)]
pub struct Neighbour {
    pub ip: Ipv4Addr,
    pub mac: MacAddr,
}

/// The neighbours that were heard from.
pub struct ArpTable {
    pub slots: Vec<Option<Neighbour>>,
}

/// One neighbour: address and hardware address.
pub struct NeighbourView {
    pub ip: Seq<u8>,
    pub mac: Seq<u8>,
}

impl View for Neighbour {
    type V = NeighbourView;

    open spec fn view(&self) -> NeighbourView {
        NeighbourView { ip: self.ip@, mac: self.mac@ }
    }
}

/// What a slot holds.
pub open spec fn slot_view(s: Option<Neighbour>) -> Option<NeighbourView> {
    match s {
        Some(n) => Some(n@),
        None => None,
    }
}

impl View for ArpTable {
    type V = Seq<Option<NeighbourView>>;

    open spec fn view(&self) -> Seq<Option<NeighbourView>> {
        Seq::new(self.slots@.len(), |i: int| slot_view(self.slots@[i]))
    }
}

/// Whether a slot holds `ip`.
pub open spec fn holds(slot: Option<NeighbourView>, ip: Seq<u8>) -> bool {
    slot matches Some(n) && n.ip == ip
}

/// The first slot from `i` on that holds `ip`, or the length.
pub open spec fn first_holding(t: Seq<Option<NeighbourView>>, ip: Seq<u8>, i: int) -> int
    decreases t.len() - i,
{
    if i < 0 || i >= t.len() || holds(t[i], ip) {
        i
    } else {
        first_holding(t, ip, i + 1)
    }
}

/// The first free slot from `i` on, or the length.
pub open spec fn first_free(t: Seq<Option<NeighbourView>>, i: int) -> int
    decreases t.len() - i,
{
    if i < 0 || i >= t.len() || t[i].is_none() {
        i
    } else {
        first_free(t, i + 1)
    }
}

/// Where `ip` is put: where it stands already, else the first free slot, else the first slot.
pub open spec fn place(t: Seq<Option<NeighbourView>>, ip: Seq<u8>) -> int {
    if first_holding(t, ip, 0) < t.len() {
        first_holding(t, ip, 0)
    } else if first_free(t, 0) < t.len() {
        first_free(t, 0)
    } else {
        0
    }
}

/// The table after hearing that `ip` is at `mac`.
pub open spec fn learned(t: Seq<Option<NeighbourView>>, ip: Seq<u8>, mac: Seq<u8>) -> Seq<
    Option<NeighbourView>,
> {
    t.update(place(t, ip), Some(NeighbourView { ip, mac }))
}

/// The hardware address that the table has for `ip`.
pub open spec fn known(t: Seq<Option<NeighbourView>>, ip: Seq<u8>) -> Option<Seq<u8>> {
    let i = first_holding(t, ip, 0);
    if i < t.len() {
        match t[i] {
            Some(n) => Some(n.mac),
            None => None,
        }
    } else {
        None
    }
}

/// A table has its fixed number of slots and no address twice.
pub open spec fn table_ok(t: Seq<Option<NeighbourView>>) -> bool {
    &&& t.len() == TABLE_SIZE
    &&& forall|i: int, j: int|
        #![trigger t[i], t[j]]
        0 <= i < j < t.len() && t[i].is_some() && t[j].is_some() ==> t[i]->Some_0.ip
            != t[j]->Some_0.ip
}

proof fn lemma_first_holding(t: Seq<Option<NeighbourView>>, ip: Seq<u8>, i: int)
    requires
        0 <= i <= t.len(),
    ensures
        i <= first_holding(t, ip, i) <= t.len(),
        first_holding(t, ip, i) < t.len() ==> holds(t[first_holding(t, ip, i)], ip),
        forall|j: int| i <= j < first_holding(t, ip, i) ==> !holds(#[trigger] t[j], ip),
    decreases t.len() - i,
{
    if i < t.len() && !holds(t[i], ip) {
        lemma_first_holding(t, ip, i + 1);
    }
}

proof fn lemma_first_free(t: Seq<Option<NeighbourView>>, i: int)
    requires
        0 <= i <= t.len(),
    ensures
        i <= first_free(t, i) <= t.len(),
        first_free(t, i) < t.len() ==> t[first_free(t, i)].is_none(),
        forall|j: int| i <= j < first_free(t, i) ==> (#[trigger] t[j]).is_some(),
    decreases t.len() - i,
{
    if i < t.len() && t[i].is_some() {
        lemma_first_free(t, i + 1);
    }
}

impl ArpTable {
    /// Whether the table is one.
    pub open spec fn wf(&self) -> bool {
        table_ok(self@)
    }

    /// A table that knows nobody.
    pub fn new() -> (r: Self)
        ensures
            r.wf(),
            r@ == Seq::new(TABLE_SIZE as nat, |i: int| None::<NeighbourView>),
    {
        let mut slots: Vec<Option<Neighbour>> = Vec::new();
        let mut i: usize = 0;
        while i < TABLE_SIZE
            invariant
                i <= TABLE_SIZE,
                slots@.len() == i,
                forall|j: int| 0 <= j < i ==> (#[trigger] slots@[j]).is_none(),
            decreases TABLE_SIZE - i,
        {
            slots.push(None);
            i += 1;
        }
        let r = ArpTable { slots };
        assert(r@ =~= Seq::new(TABLE_SIZE as nat, |i: int| None::<NeighbourView>));
        r
    }
}

fn position(table: &ArpTable, ip: Ipv4Addr) -> (r: usize)
    ensures
        r == first_holding(table@, ip@, 0),
        r <= table@.len(),
{
    let mut i: usize = 0;
    while i < table.slots.len()
        invariant
            i <= table.slots@.len(),
            first_holding(table@, ip@, 0) == first_holding(table@, ip@, i as int),
        decreases table.slots@.len() - i,
    {
        if let Some(n) = table.slots[i] {
            if same_ip(n.ip, ip) {
                assert(holds(table@[i as int], ip@));
                return i;
            }
        }
        assert(!holds(table@[i as int], ip@));
        i += 1;
    }
    i
}

/// Remembers where `ip` is.
pub fn learn(table: &mut ArpTable, ip: Ipv4Addr, mac: MacAddr)
    requires
        old(table).wf(),
    ensures
        final(table).wf(),
        final(table)@ == learned(old(table)@, ip@, mac@),
{
    let ghost before = table@;
    proof {
        lemma_first_holding(before, ip@, 0);
        lemma_first_free(before, 0);
        law_no_address_twice(before, ip@, mac@);
    }
    let mut at: usize = position(table, ip);
    if at == table.slots.len() {
        let mut i: usize = 0;
        while i < table.slots.len() && table.slots[i].is_some()
            invariant
                i <= table.slots@.len(),
                first_free(table@, 0) == first_free(table@, i as int),
            decreases table.slots@.len() - i,
        {
            assert(table@[i as int].is_some());
            i += 1;
        }
        proof {
            if i < table.slots@.len() {
                assert(table@[i as int].is_none());
            }
            assert(i == first_free(before, 0));
        }
        at = if i < table.slots.len() {
            i
        } else {
            0
        };
    }
    table.slots[at] = Some(Neighbour { ip, mac });
    assert(table@ =~= learned(before, ip@, mac@));
}

/// The hardware address of `ip`, if it was learned.
pub fn resolve(table: &ArpTable, ip: Ipv4Addr) -> (r: Option<MacAddr>)
    ensures
        match r {
            Some(mac) => known(table@, ip@) == Some(mac@),
            None => known(table@, ip@).is_none(),
        },
{
    let at: usize = position(table, ip);
    if at < table.slots.len() {
        match table.slots[at] {
            Some(n) => Some(n.mac),
            None => None,
        }
    } else {
        None
    }
}

/// Learning keeps every address at most once in the table.
pub proof fn law_no_address_twice(t: Seq<Option<NeighbourView>>, ip: Seq<u8>, mac: Seq<u8>)
    requires
        table_ok(t),
    ensures
        table_ok(learned(t, ip, mac)),
{
    lemma_first_holding(t, ip, 0);
    lemma_first_free(t, 0);
    let p = place(t, ip);
    let after = learned(t, ip, mac);
    assert forall|i: int, j: int|
        #![trigger after[i], after[j]]
        0 <= i < j < after.len() && after[i].is_some() && after[j].is_some() implies after[i]->Some_0.ip
        != after[j]->Some_0.ip by {
        if i == p {
            assert(after[j] == t[j]);
            assert(!holds(t[j], ip)) by {
                if first_holding(t, ip, 0) < t.len() {
                    assert(holds(t[i], ip));
                    assert(t[i].is_some());
                }
            }
        } else if j == p {
            assert(after[i] == t[i]);
            assert(!holds(t[i], ip)) by {
                if first_holding(t, ip, 0) < t.len() {
                    assert(holds(t[j], ip));
                    assert(t[j].is_some());
                }
            }
        } else {
            assert(after[i] == t[i] && after[j] == t[j]);
        }
    }
}

/// What was learned last about an address is what the table answers.
pub proof fn law_learned_is_known(t: Seq<Option<NeighbourView>>, ip: Seq<u8>, mac: Seq<u8>)
    requires
        table_ok(t),
    ensures
        known(learned(t, ip, mac), ip) == Some(mac),
{
    law_no_address_twice(t, ip, mac);
    lemma_first_holding(t, ip, 0);
    lemma_first_free(t, 0);
    let after = learned(t, ip, mac);
    let p = place(t, ip);
    lemma_first_holding(after, ip, 0);
    let f = first_holding(after, ip, 0);
    assert(holds(after[p], ip));
    assert(f <= p);
    assert(holds(after[f], ip));
    assert(after[f].is_some() && after[p].is_some());
}

/// Learning about one address keeps what is known of another, unless the table was full of
/// others and the other address stood in the first slot, which makes room.
pub proof fn law_others_kept(
    t: Seq<Option<NeighbourView>>,
    ip: Seq<u8>,
    mac: Seq<u8>,
    other: Seq<u8>,
)
    requires
        table_ok(t),
        other != ip,
    ensures
        known(learned(t, ip, mac), other) == known(t, other) || {
            &&& first_holding(t, ip, 0) == t.len()
            &&& first_free(t, 0) == t.len()
            &&& holds(t[0], other)
        },
{
    lemma_first_holding(t, ip, 0);
    lemma_first_free(t, 0);
    lemma_first_holding(t, other, 0);
    let after = learned(t, ip, mac);
    law_no_address_twice(t, ip, mac);
    lemma_first_holding(after, other, 0);
    let f = first_holding(t, other, 0);
    let g = first_holding(after, other, 0);
    let p = place(t, ip);
    if !holds(t[p], other) {
        if f < t.len() {
            assert(f != p && after[f] == t[f]);
            assert(g <= f);
            assert(g != p && t[g] == after[g]);
        } else if g < t.len() {
            assert(g != p && t[g] == after[g]);
        }
    }
}

// ---------------------------------------------------------------------------------------------
// Packets
// ---------------------------------------------------------------------------------------------
/// The bytes of a packet from this machine.
pub open spec fn packet_of(oper: u16, our: Seq<u8>, target_mac: Seq<u8>, target_ip: Seq<u8>) -> Seq<
    u8,
> {
    be16_bytes(HTYPE_ETHERNET) + be16_bytes(PTYPE_IPV4) + seq![6u8, 4u8] + be16_bytes(oper) + our
        + GUEST_IP@ + target_mac + target_ip
}

/// Builds a packet from this machine.
pub fn build_packet(oper: u16, our: MacAddr, target_mac: MacAddr, target_ip: Ipv4Addr) -> (r: Vec<
    u8,
>)
    ensures
        r@ == packet_of(oper, our@, target_mac@, target_ip@),
        r@.len() == PACKET_LEN,
{
    let mut packet: Vec<u8> = Vec::new();
    push_be16(&mut packet, HTYPE_ETHERNET);
    push_be16(&mut packet, PTYPE_IPV4);
    push_all(&mut packet, &[6u8, 4]);
    push_be16(&mut packet, oper);
    push_mac(&mut packet, our);
    push_ip(&mut packet, GUEST_IP);
    push_mac(&mut packet, target_mac);
    push_ip(&mut packet, target_ip);
    assert(packet@ =~= packet_of(oper, our@, target_mac@, target_ip@));
    packet
}

/// Whether a received packet is one to learn from.
pub open spec fn readable(s: Seq<u8>) -> bool {
    s.len() >= PACKET_LEN && be16(s, 0) == HTYPE_ETHERNET && be16(s, 2) == PTYPE_IPV4
}

/// Whether a received packet asks for this machine's hardware address.
pub open spec fn asks_us(s: Seq<u8>) -> bool {
    readable(s) && be16(s, 6) == OPER_REQUEST && s.subrange(24, 28) == GUEST_IP@
}

/// The table after a packet was received.
pub open spec fn heard(t: Seq<Option<NeighbourView>>, payload: Seq<u8>) -> Seq<
    Option<NeighbourView>,
> {
    if readable(payload) {
        learned(t, payload.subrange(14, 18), payload.subrange(8, 14))
    } else {
        t
    }
}

/// The frame that answers a received packet, where it asks for this machine and there is a card.
pub open spec fn answer_of(our: Option<MacAddr>, payload: Seq<u8>) -> Option<Seq<u8>> {
    match our {
        Some(mac) => if asks_us(payload) {
            let to = payload.subrange(8, 14);
            Some(
                frame_of(
                    to,
                    mac@,
                    ETHERTYPE_ARP,
                    packet_of(OPER_REPLY, mac@, to, payload.subrange(14, 18)),
                ),
            )
        } else {
            None
        },
        None => None,
    }
}

/// The frame that tells `target_ip` this machine's hardware address.
pub fn send_reply(our: Option<MacAddr>, target_mac: MacAddr, target_ip: Ipv4Addr) -> (r: Option<
    Vec<u8>,
>)
    ensures
        frame_view(r) == (match our {
            Some(mac) => Some(
                frame_of(
                    target_mac@,
                    mac@,
                    ETHERTYPE_ARP,
                    packet_of(OPER_REPLY, mac@, target_mac@, target_ip@),
                ),
            ),
            None => None,
        }),
{
    match our {
        None => None,
        Some(mac) => {
            let packet = build_packet(OPER_REPLY, mac, target_mac, target_ip);
            send_frame(our, target_mac, ETHERTYPE_ARP, packet.as_slice())
        },
    }
}

/// Learns the sender of a received packet. The result is the frame that answers it, where it asks
/// for this machine.
pub fn handle_packet(table: &mut ArpTable, our: Option<MacAddr>, payload: &[u8]) -> (r: Option<
    Vec<u8>,
>)
    requires
        old(table).wf(),
    ensures
        final(table).wf(),
        final(table)@ == heard(old(table)@, payload@),
        frame_view(r) == answer_of(our, payload@),
{
    if payload.len() < PACKET_LEN {
        return None;
    }
    if read_be16(payload, 0) != HTYPE_ETHERNET || read_be16(payload, 2) != PTYPE_IPV4 {
        return None;
    }
    let oper: u16 = read_be16(payload, 6);
    let sender_mac = read_mac(payload, 8);
    let sender_ip = read_ip(payload, 14);
    let target_ip = read_ip(payload, 24);
    learn(table, sender_ip, sender_mac);
    if oper == OPER_REQUEST && same_ip(target_ip, GUEST_IP) {
        send_reply(our, sender_mac, sender_ip)
    } else {
        None
    }
}

/// The frame that asks everybody for the hardware address of `target_ip`, where there is a card.
pub open spec fn request_of(our: Option<MacAddr>, target_ip: Seq<u8>) -> Option<Seq<u8>> {
    match our {
        Some(mac) => Some(
            frame_of(
                BROADCAST_MAC@,
                mac@,
                ETHERTYPE_ARP,
                packet_of(OPER_REQUEST, mac@, seq![0u8, 0, 0, 0, 0, 0], target_ip),
            ),
        ),
        None => None,
    }
}

/// Builds the frame that asks everybody for the hardware address of `target_ip`.
pub fn send_request(our: Option<MacAddr>, target_ip: Ipv4Addr) -> (r: Option<Vec<u8>>)
    ensures
        frame_view(r) == request_of(our, target_ip@),
{
    match our {
        None => None,
        Some(mac) => {
            let nobody: MacAddr = [0, 0, 0, 0, 0, 0];
            let packet = build_packet(OPER_REQUEST, mac, nobody, target_ip);
            assert(nobody@ =~= seq![0u8, 0, 0, 0, 0, 0]);
            send_frame(our, BROADCAST_MAC, ETHERTYPE_ARP, packet.as_slice())
        },
    }
}

/// Whoever reads a packet of this machine's learns where this machine is.
pub proof fn law_packet_teaches(oper: u16, our: Seq<u8>, target_mac: Seq<u8>, target_ip: Seq<u8>)
    requires
        our.len() == 6,
        target_mac.len() == 6,
        target_ip.len() == 4,
    ensures
        ({
            let s = packet_of(oper, our, target_mac, target_ip);
            &&& readable(s)
            &&& be16(s, 6) == oper
            &&& s.subrange(8, 14) == our
            &&& s.subrange(14, 18) == GUEST_IP@
            &&& s.subrange(24, 28) == target_ip
        }),
{
    let s = packet_of(oper, our, target_mac, target_ip);
    lemma_be16(HTYPE_ETHERNET);
    lemma_be16(PTYPE_IPV4);
    lemma_be16(oper);
    assert(s.len() == 28);
    assert(s[0] == be16_bytes(HTYPE_ETHERNET)[0] && s[1] == be16_bytes(HTYPE_ETHERNET)[1]);
    assert(s[2] == be16_bytes(PTYPE_IPV4)[0] && s[3] == be16_bytes(PTYPE_IPV4)[1]);
    assert(s[6] == be16_bytes(oper)[0] && s[7] == be16_bytes(oper)[1]);
    assert(s.subrange(8, 14) =~= our);
    assert(s.subrange(14, 18) =~= GUEST_IP@);
    assert(s.subrange(24, 28) =~= target_ip);
}

/// Whoever is heard from is known at once, at the hardware address that the packet gives.
pub proof fn law_heard_is_known(t: Seq<Option<NeighbourView>>, payload: Seq<u8>)
    requires
        table_ok(t),
        readable(payload),
    ensures
        known(heard(t, payload), payload.subrange(14, 18)) == Some(payload.subrange(8, 14)),
{
    law_learned_is_known(t, payload.subrange(14, 18), payload.subrange(8, 14));
}

} // verus!

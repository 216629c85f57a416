//! The keyboard: bytes wait in a ring of fixed size for whoever reads them.

use vstd::prelude::*;

use crate::coop::{
    block, rouse, roused, runs, with_state, BlockReason, Coop, Pid, ProcState,
};

verus! {

/// How many bytes wait at most.
pub const CAPACITY: usize = 256;

/// Bytes in the order in which they came: `len` of them from `head` on, round the array.
pub struct RingBuffer {
    data: [u8; 256],
    head: usize,
    len: usize,
}

impl View for RingBuffer {
    type V = Seq<u8>;

    closed spec fn view(&self) -> Seq<u8> {
        Seq::new(self.len as nat, |i: int| self.data@[(self.head + i) % 256])
    }
}

/// The bytes after one more came: one too many is lost.
pub open spec fn pushed(s: Seq<u8>, byte: u8) -> Seq<u8> {
    if s.len() >= CAPACITY {
        s
    } else {
        s.push(byte)
    }
}

impl RingBuffer {
    /// The positions are within the array.
    pub closed spec fn wf(&self) -> bool {
        self.head < 256 && self.len <= 256
    }

    /// What waits fits.
    pub proof fn law_bounded(&self)
        requires
            self.wf(),
        ensures
            self@.len() <= CAPACITY,
    {
    }

    /// Nothing waits.
    pub fn new() -> (r: Self)
        ensures
            r.wf(),
            r@ == Seq::<u8>::empty(),
    {
        let r = RingBuffer { data: [0u8;256], head: 0, len: 0 };
        assert(r@ =~= Seq::<u8>::empty());
        r
    }

    /// Whether nothing waits.
    pub fn is_empty(&self) -> (r: bool)
        ensures
            r == (self@.len() == 0),
    {
        self.len == 0
    }

    /// Adds a byte, unless the ring is full.
    pub fn push(&mut self, byte: u8)
        requires
            old(self).wf(),
        ensures
            final(self).wf(),
            final(self)@ == pushed(old(self)@, byte),
    {
        if self.len == CAPACITY {
            return;
        }
        let ghost before = self@;
        let tail: usize = (self.head + self.len) % CAPACITY;
        self.data[tail] = byte;
        self.len += 1;
        assert(self@ =~= before.push(byte)) by {
            assert forall|i: int| 0 <= i < before.len() implies self@[i] == before[i] by {
                assert((self.head + i) % 256 != tail);
            }
        }
    }

    /// Takes the oldest byte.
    pub fn pop(&mut self) -> (r: Option<u8>)
        requires
            old(self).wf(),
        ensures
            final(self).wf(),
            match r {
                Some(b) => {
                    &&& old(self)@.len() > 0
                    &&& b == old(self)@[0]
                    &&& final(self)@ == old(self)@.drop_first()
                },
                None => old(self)@.len() == 0 && final(self)@ == old(self)@,
            },
    {
        if self.len == 0 {
            return None;
        }
        let ghost before = self@;
        let ghost h = self.head;
        let byte: u8 = self.data[self.head];
        self.head = (self.head + 1) % CAPACITY;
        self.len -= 1;
        assert(self@ =~= before.drop_first()) by {
            assert forall|i: int| 0 <= i < before.len() - 1 implies self@[i] == before[i + 1] by {
                assert(((h + 1) % 256 + i) % 256 == (h + (i + 1)) % 256);
            }
        }
        assert(byte == before[0]);
        Some(byte)
    }
}

/// Takes in a byte from the keyboard, and wakes whoever waits for one.
pub fn push_byte(buffer: &mut RingBuffer, k: &mut Coop, byte: u8)
    requires
        old(buffer).wf(),
        old(k).wf(),
    ensures
        final(buffer).wf(),
        final(k).wf(),
        final(buffer)@ == pushed(old(buffer)@, byte),
        final(k)@ == roused(old(k)@, BlockReason::WaitingForStdin),
{
    buffer.push(byte);
    rouse(k, BlockReason::WaitingForStdin);
}

/// What a read comes to.
pub enum ReadStep {
    Data(Vec<u8>),
    /// The caller now waits: `schedule`, and try again when it is back.
    Block,
}

/// How many bytes a reader with room for `room` gets.
pub open spec fn taken(s: Seq<u8>, room: usize) -> int {
    if s.len() <= room {
        s.len() as int
    } else {
        room as int
    }
}

/// Reads up to `room` bytes for the process that runs, as many as are there; where there are none
/// it waits. A reader without room gets none of the bytes that are there, and does not wait.
pub fn read(buffer: &mut RingBuffer, k: &mut Coop, room: usize) -> (r: ReadStep)
    requires
        old(buffer).wf(),
        old(k).wf(),
        runs(old(k)@, old(k)@.current),
    ensures
        final(buffer).wf(),
        final(k).wf(),
        ({
            let s = old(buffer)@;
            let n = taken(s, room);
            if s.len() > 0 {
                &&& r matches ReadStep::Data(bytes) && bytes@ == s.take(n)
                &&& final(buffer)@ == s.skip(n)
                &&& final(k)@ == old(k)@
            } else {
                &&& r is Block
                &&& final(buffer)@ == s
                &&& final(k)@ == with_state(
                    old(k)@,
                    old(k)@.current,
                    ProcState::Blocked(BlockReason::WaitingForStdin),
                )
            }
        }),
{
    let ghost s = buffer@;
    let waiting: bool = !buffer.is_empty();
    let mut out: Vec<u8> = Vec::new();
    let mut more = true;
    assert(s.skip(0) =~= s);
    assert(s.take(0) =~= Seq::<u8>::empty());
    while more && out.len() < room
        invariant
            buffer.wf(),
            out@.len() <= s.len(),
            out@.len() <= room,
            out@ == s.take(out@.len() as int),
            buffer@ == s.skip(out@.len() as int),
            !more ==> out@.len() == s.len(),
        decreases s.len() - out@.len(), (if more { 1int } else { 0int }),
    {
        match buffer.pop() {
            Some(b) => {
                let ghost n = out@.len() as int;
                out.push(b);
                assert(s.take(n + 1) =~= s.take(n).push(s[n]));
                assert(s.skip(n + 1) =~= s.skip(n).drop_first());
            },
            None => {
                more = false;
            },
        }
    }
    assert(out@.len() == taken(s, room));
    if waiting {
        return ReadStep::Data(out);
    }
    let caller: Pid = k.current;
    block(k, caller, BlockReason::WaitingForStdin);
    ReadStep::Block
}

// ---------------------------------------------------------------------------------------------
// Laws
// ---------------------------------------------------------------------------------------------
/// The bytes after a run of keys.
pub open spec fn pushed_all(s: Seq<u8>, keys: Seq<u8>) -> Seq<u8>
    decreases keys.len(),
{
    if keys.len() == 0 {
        s
    } else {
        pushed(pushed_all(s, keys.drop_last()), keys.last())
    }
}

/// What waits is what was typed, in the order in which it was typed, as far as there is room; what
/// waits already is never overwritten.
pub proof fn law_typed_in_order(s: Seq<u8>, keys: Seq<u8>)
    requires
        s.len() <= CAPACITY,
    ensures
        ({
            let all = s + keys;
            pushed_all(s, keys) == if all.len() <= CAPACITY {
                all
            } else {
                all.take(CAPACITY as int)
            }
        }),
    decreases keys.len(),
{
    let all = s + keys;
    if keys.len() == 0 {
        assert(all =~= s);
    } else {
        law_typed_in_order(s, keys.drop_last());
        let before = s + keys.drop_last();
        assert(all =~= before.push(keys.last()));
        if before.len() < CAPACITY {
            assert(pushed_all(s, keys) =~= all);
        } else {
            assert(before.take(CAPACITY as int) =~= all.take(CAPACITY as int));
            if before.len() == CAPACITY {
                assert(before.take(CAPACITY as int) =~= before);
            }
        }
    }
}

/// A read takes the oldest bytes and leaves the rest in order.
pub proof fn law_read_in_pieces(s: Seq<u8>, room: usize)
    ensures
        s.take(taken(s, room)) + s.skip(taken(s, room)) == s,
{
    assert(s.take(taken(s, room)) + s.skip(taken(s, room)) =~= s);
}

} // verus!

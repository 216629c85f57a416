//! What the stack asks of a network card.

use vstd::prelude::*;

verus! {

/// A hardware address.
pub type MacAddr = [u8; 6];

/// Why a card did not take a frame.
#[derive(Debug, Clone, Copy, PartialEq, Eq, Structural)]
pub enum NicError {
    NoTxSlotAvailable,
}

/// A card that carries Ethernet frames.
pub trait NicDriver {
    /// Hands over one frame: destination, source, ethertype and payload, without the check
    /// sequence, which the card appends. A short frame is padded by the card.
    fn send(&mut self, frame: &[u8]) -> Result<(), NicError>;

    /// The next received frame that was not handed out yet. Does not wait.
    fn poll_recv(&mut self) -> Option<Vec<u8>>;

    /// The card's hardware address.
    fn mac_address(&self) -> MacAddr;
}

/// What handing a frame to the installed card comes to, given the card's own answer; `None` where
/// there is no frame, because there is no card, or the card did not take it.
pub fn sent(frame: &Option<Vec<u8>>, answer: Result<(), NicError>) -> (r: Option<()>)
    ensures
        r.is_some() == (frame.is_some() && answer.is_ok()),
{
    match (frame, answer) {
        (Some(_), Ok(_)) => Some(()),
        _ => None,
    }
}

/// The hardware address in the six bytes at `off`.
pub fn read_mac(s: &[u8], off: usize) -> (r: MacAddr)
    requires
        off + 6 <= s@.len(),
    ensures
        r@ == s@.subrange(off as int, off + 6),
{
    let r: MacAddr = [s[off], s[off + 1], s[off + 2], s[off + 3], s[off + 4], s[off + 5]];
    assert(r@ =~= s@.subrange(off as int, off + 6));
    r
}

/// Appends a hardware address.
pub fn push_mac(out: &mut Vec<u8>, mac: MacAddr)
    ensures
        final(out)@ == old(out)@ + mac@,
{
    let ghost before = out@;
    out.push(mac[0]);
    out.push(mac[1]);
    out.push(mac[2]);
    out.push(mac[3]);
    out.push(mac[4]);
    out.push(mac[5]);
    assert(out@ =~= before + mac@);
}

} // verus!

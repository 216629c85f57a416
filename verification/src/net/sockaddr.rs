//! Socket addresses as programs lay them out in memory.

use vstd::prelude::*;

use crate::bytes::{be16, be16_bytes, lemma_be16, push_all, push_be16, read_be16};
use crate::net::ipv4::{push_ip, read_ip, Ipv4Addr};

verus! {

/// The address family of IPv4.
pub const AF_INET: u64 = 2;

/// Length of a socket address.
pub const SOCKADDR_LEN: usize = 16;

/// An address and a port.
#[derive(Debug, Clone, Copy)]
pub struct SockAddr {
    pub ip: Ipv4Addr,
    pub port: u16,
}

/// The bytes of a socket address: the family in the processor's order, the port in network
/// order, the address, and padding.
pub open spec fn sockaddr_of(ip: Seq<u8>, port: u16) -> Seq<u8> {
    seq![2u8, 0u8] + be16_bytes(port) + ip + seq![0u8, 0, 0, 0, 0, 0, 0, 0]
}

/// Reads a socket address, whatever its family says. `None` where the caller gave none.
pub fn read_sockaddr(bytes: Option<&[u8]>) -> (r: Option<SockAddr>)
    requires
        bytes matches Some(b) ==> b@.len() >= SOCKADDR_LEN,
    ensures
        match (r, bytes) {
            (Some(a), Some(b)) => a.ip@ == b@.subrange(4, 8) && a.port == be16(b@, 2),
            (None, None) => true,
            _ => false,
        },
{
    match bytes {
        None => None,
        Some(b) => Some(SockAddr { ip: read_ip(b, 4), port: read_be16(b, 2) }),
    }
}

/// Lays out a socket address.
pub fn write_sockaddr(addr: Ipv4Addr, port: u16) -> (r: Vec<u8>)
    ensures
        r@ == sockaddr_of(addr@, port),
        r@.len() == SOCKADDR_LEN,
{
    let mut out: Vec<u8> = Vec::new();
    push_all(&mut out, &[2u8, 0]);
    push_be16(&mut out, port);
    push_ip(&mut out, addr);
    push_all(&mut out, &[0u8, 0, 0, 0, 0, 0, 0, 0]);
    assert(out@ =~= sockaddr_of(addr@, port));
    out
}

/// A socket address is read back as it was written.
pub proof fn law_sockaddr_reads_back(ip: Seq<u8>, port: u16)
    requires
        ip.len() == 4,
    ensures
        sockaddr_of(ip, port).len() == SOCKADDR_LEN,
        sockaddr_of(ip, port).subrange(4, 8) == ip,
        be16(sockaddr_of(ip, port), 2) == port,
{
    let s = sockaddr_of(ip, port);
    lemma_be16(port);
    assert(s[2] == be16_bytes(port)[0] && s[3] == be16_bytes(port)[1]);
    assert(s.subrange(4, 8) =~= ip);
}

} // verus!

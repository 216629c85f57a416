//! The network stack: Ethernet, ARP, IPv4, ICMP, UDP and TCP.

pub mod arp;
pub mod ethernet;
pub mod icmp;
pub mod ipv4;
pub mod net_rules;
pub mod nic;
pub mod poll;
pub mod ports;
pub mod queue;
pub mod rtl8139;
pub mod segment;
pub mod select;
pub mod sockaddr;
pub mod socket;
pub mod stack;
pub mod tcp;
pub mod tcp_laws;
pub mod tcp_rules;
pub mod udp;
pub mod wire_rules;

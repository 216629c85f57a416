# oxidebsd

The decision-making core of a small POSIX-flavoured kernel, written in Verus: what a system call
answers, who runs next, what goes on the wire. Everything in `src/` carries a contract that Verus
proves; the hardware, user memory and the loops that wait are in `app/`.

## Layout

- `process/` is the kernel proper: the process table, scheduling, signals, timers, memory mappings,
  limits, identity and the process file system. `process/laws.rs` proves that whatever starts,
  stops, wakes, blocks, ends or replaces a process keeps the run queue and the process table in
  agreement, and that a change of a process which does none of these does too;
  `process/mm_laws.rs` that the count of a file's mappings is the number of its mappings.
- `coop/` is a smaller cooperative kernel with pipes and a keyboard.
- `net/` is the network stack: Ethernet, ARP, IPv4, ICMP, UDP and TCP, the socket calls, and the
  driver logic for the RTL8139 card. `net/tcp_laws.rs` proves the handshake, the delivery of the
  byte stream and the orderly end of a connection.
- `random` hashes samples into a key with SHA-256 and expands it with ChaCha20.
- `exec`, `addr`, `bytes`, `ordmap`, `errno` and `port` are shared by the others; `pic`, `pit`,
  `serial`, `qemu` and `reboot` say what is written to the smaller devices.

A call that has to wait, or that needs something done outside, is a step: it takes what happened
last and answers with what to do next. `app/` carries the steps out.

## What is believed

Three functions call outside crates and are believed, not proved: `addr::is_canonical`
(`x86_64::VirtAddr::try_new`), and in `random` the digest of `sha2::Sha256` and the keystream of
`chacha20::ChaCha20`.

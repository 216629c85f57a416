//! The decision-making core of a small POSIX-flavoured kernel.

pub mod addr;
pub mod bytes;
pub mod coop;
pub mod device_rules;
pub mod errno;
pub mod exec;
pub mod exec_rules;
pub mod net;
pub mod ordmap;
pub mod pic;
pub mod pit;
pub mod port;
pub mod process;
pub mod qemu;
pub mod random;
pub mod reboot;
pub mod serial;

//! Verified core of a small x86-64 hobby kernel: the decisions and address
//! arithmetic of memory management, PCI enumeration, ELF loading, the ramdisk,
//! the symbol table and the system-call interface, with the hardware access
//! itself left to the caller.
pub mod common;
pub mod drivers;
pub mod exec;
pub mod init;
pub mod task;
pub mod video;

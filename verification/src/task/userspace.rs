use vstd::prelude::*;

verus! {

/// Model-specific register that holds the segment selectors for `syscall` and `sysret`.
pub const MSR_STAR: u32 = 0xC000_0081;

/// What a system call asks the kernel to do, decoded from `rax`, `rbx` and `rcx`.
#[allow(inconsistent_fields)]
#[derive(Debug, Clone, Copy, PartialEq, Eq, Structural)]
pub enum SyscallRequest {
    /// The process exits with this code.
    Exit { code: u64 },
    /// Store a byte at an address.
    Write8 { addr: u64, value: u8 },
    /// Store a 16-bit value at an address.
    Write16 { addr: u64, value: u16 },
    /// Store a 32-bit value at an address.
    Write32 { addr: u64, value: u32 },
    /// Store a 64-bit value at an address.
    Write64 { addr: u64, value: u64 },
    /// An unknown call number: nothing is done.
    Unknown,
}

/// Decodes a system call: `rbx` holds the call number; for an exit `rcx` holds
/// the exit code; for a memory write `rcx` holds the address and `rax` the value,
/// cut to the width of the write.
pub fn syscall_handler(rax: u64, rbx: u64, rcx: u64) -> (r: SyscallRequest)
    ensures
        rbx == 0 ==> r == (SyscallRequest::Exit { code: rcx }),
        rbx == 1 ==> r == (SyscallRequest::Write8 { addr: rcx, value: rax as u8 }),
        rbx == 2 ==> r == (SyscallRequest::Write16 { addr: rcx, value: rax as u16 }),
        rbx == 3 ==> r == (SyscallRequest::Write32 { addr: rcx, value: rax as u32 }),
        rbx == 4 ==> r == (SyscallRequest::Write64 { addr: rcx, value: rax }),
        rbx > 4 ==> r == SyscallRequest::Unknown,
{
    match rbx {
        0 => SyscallRequest::Exit { code: rcx },
        1 => SyscallRequest::Write8 { addr: rcx, value: rax as u8 },
        2 => SyscallRequest::Write16 { addr: rcx, value: rax as u16 },
        3 => SyscallRequest::Write32 { addr: rcx, value: rax as u32 },
        4 => SyscallRequest::Write64 { addr: rcx, value: rax },
        _ => SyscallRequest::Unknown,
    }
}

/// A write of fewer than 64 bits stores the low bits of `rax`.
pub proof fn syscall_write_truncates(rax: u64)
    ensures
        rax as u8 == rax % 0x100,
        rax as u16 == rax % 0x1_0000,
        rax as u32 == rax % 0x1_0000_0000,
{
    assert(rax as u8 == rax % 0x100) by (bit_vector);
    assert(rax as u16 == rax % 0x1_0000) by (bit_vector);
    assert(rax as u32 == rax % 0x1_0000_0000) by (bit_vector);
}

} // verus!

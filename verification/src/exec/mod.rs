pub mod elf;
pub mod symbol;

use crate::common::x86::memory::{
    align_down_4k, frame_ahead, virt_addr_new, virt_addr_valid, virt_canonical,
    virt_page_containing, is_canonical, BootInfoFrameAllocator, PRESENT, WRITABLE,
};
use crate::exec::elf::frame_mappable;
use vstd::prelude::*;

verus! {

/// What starting a loaded program in user mode takes.
#[derive(Debug, Clone, Copy, PartialEq, Eq, Structural)]
pub struct ExecPlan {
    /// The frame drawn for the program's page directory.
    pub directory: u64,
    /// The page at which that frame is mapped, writable, in the kernel's address space.
    pub directory_page: u64,
    /// The flags of that mapping.
    pub directory_flags: u64,
    /// The user-mode address to jump to.
    pub code: u64,
    /// The user-mode stack pointer.
    pub stack: u64,
}

/// Plans the start of a program at the canonical address `addr` with its
/// stack at `stack`: one frame is drawn for a page directory and mapped,
/// present and writable, at the page that contains its own address.
pub fn exec(addr: u64, frames: &mut BootInfoFrameAllocator, stack: u64) -> (r: ExecPlan)
    requires
        old(frames).has_frames(1),
        frame_mappable(*old(frames), 0),
        is_canonical(addr),
        virt_addr_valid(stack),
    ensures
        final(frames).regions() == old(frames).regions(),
        final(frames).next_index() == old(frames).next_index() + 1,
        r.directory == frame_ahead(*old(frames), 0),
        r.directory_page == align_down_4k(virt_canonical(r.directory)),
        r.directory_flags == PRESENT | WRITABLE,
        r.code == addr,
        r.stack == virt_canonical(stack),
{
    proof {
        crate::exec::elf::lemma_frame_ahead_bound(*frames, 0, 1);
    }
    let directory = frames.allocate_frame().unwrap();
    let directory_page = virt_page_containing(directory);
    let code = virt_addr_new(addr);
    let stack = virt_addr_new(stack);
    ExecPlan { directory, directory_page, directory_flags: PRESENT | WRITABLE, code, stack }
}

} // verus!

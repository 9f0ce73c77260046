use crate::common::x86::memory::{
    phys_frame_containing, virt_page_containing, PRESENT, USER_ACCESSIBLE, WRITABLE,
};
use crate::task::elf::PageMapping;
use vstd::prelude::*;

verus! {

/// Start of the window of memory that the kernel maps for user programs at
/// its own physical address.
pub const USER_WINDOW_START: u64 = 0x8000_0000;

/// Number of pages in that window.
pub const USER_WINDOW_PAGES: u64 = 1000;

/// The flags of the window's mappings: present, writable, user-accessible.
pub const USER_WINDOW_FLAGS: u64 = USER_ACCESSIBLE | WRITABLE | PRESENT;

/// The `i`-th page of the user window, mapped onto the frame at the same address.
pub fn user_window_mapping(i: u64) -> (r: PageMapping)
    requires
        i < USER_WINDOW_PAGES,
    ensures
        r.page == USER_WINDOW_START + i * 0x1000,
        r.frame == USER_WINDOW_START + i * 0x1000,
{
    let addr = USER_WINDOW_START + i * 0x1000;
    assert(addr % 4096 == 0);
    let page = virt_page_containing(addr);
    let frame = phys_frame_containing(addr);
    PageMapping { page, frame }
}

} // verus!

use crate::common::x86::memory::{
    align_down_4k, phys_frame_containing, virt_addr_valid, virt_canonical, virt_page_containing,
    PHYS_ADDR_LIMIT, PRESENT, WRITABLE,
};
use vstd::prelude::*;

verus! {

/// The kernel's handler for the ACPI tables: it maps each physical region
/// the tables lie in at the same virtual address.
#[derive(Debug, Clone, Copy)]
pub struct CMKSAcpiHandler;

/// The mapping that makes a physical region readable.
#[derive(Debug, Clone, Copy, PartialEq, Eq, Structural)]
pub struct RegionMapping {
    pub page: u64,
    pub frame: u64,
    pub flags: u64,
}

impl CMKSAcpiHandler {
    /// The mapping for the physical region at `addr`: the page that contains
    /// `addr` as a virtual address onto the frame that contains it as a
    /// physical address, present and writable.
    pub fn region_mapping(&self, addr: usize) -> (r: RegionMapping)
        requires
            virt_addr_valid(addr as u64),
            addr < PHYS_ADDR_LIMIT,
        ensures
            r.page == align_down_4k(virt_canonical(addr as u64)),
            r.frame == align_down_4k(addr as int),
            r.flags == PRESENT | WRITABLE,
    {
        let page = virt_page_containing(addr as u64);
        let frame = phys_frame_containing(addr as u64);
        RegionMapping { page, frame, flags: PRESENT | WRITABLE }
    }
}

} // verus!

use crate::common::x86::memory::{
    align_down_4k, frame_ahead, virt_addr_valid, virt_canonical, virt_page_containing,
    BootInfoFrameAllocator,
};
use crate::exec::elf::{
    common_data_parses, elf_common_data_ok, elf_file, load_segments, loadable, parse_elf,
    ProgramHeader, SegmentCopy,
};
use vstd::prelude::*;

verus! {

/// One page of the running kernel's address space to back with a frame.
#[derive(Debug, Clone, Copy, PartialEq, Eq, Structural)]
pub struct PageMapping {
    pub page: u64,
    pub frame: u64,
}

/// An ELF file to load into the running address space, at the addresses it
/// was linked for.
pub struct TaskImage {
    /// The loadable segments, in file order.
    pub segments: Vec<ProgramHeader>,
    /// The address to call.
    pub entry: u64,
}

/// The page that holds the start of a segment.
pub open spec fn segment_page(segment: ProgramHeader) -> u64 {
    align_down_4k(virt_canonical(segment.p_vaddr)) as u64
}

/// Reads the ELF file `data` for loading: `None` where the file does not
/// parse, its common sections do not parse, or it has no program headers;
/// otherwise its loadable segments in file order and its entry point.
pub fn load_elf(data: &[u8]) -> (r: Option<TaskImage>)
    ensures
        match elf_file(data@) {
            Some((entry, Some(segments))) => if elf_common_data_ok(data@) {
                &&& r is Some
                &&& r.unwrap().segments@ == loadable(segments)
                &&& r.unwrap().entry == entry
            } else {
                r is None
            },
            _ => r is None,
        },
{
    let parsed = parse_elf(data);
    match parsed {
        Some((entry, Some(segments))) => {
            if !common_data_parses(data) {
                return None;
            }
            Some(TaskImage { segments: load_segments(&segments), entry })
        },
        _ => None,
    }
}

/// Draws the frame for a segment and names the page it backs: the page that
/// holds the segment's virtual address. The frames for the segments are drawn
/// one at a time, each just before its page is mapped, since mapping a page
/// may draw frames for page tables from the same allocator.
pub fn map_segment(segment: &ProgramHeader, frames: &mut BootInfoFrameAllocator) -> (r: PageMapping)
    requires
        old(frames).has_frames(1),
        virt_addr_valid(segment.p_vaddr),
    ensures
        final(frames).regions() == old(frames).regions(),
        final(frames).next_index() == old(frames).next_index() + 1,
        r == (PageMapping { page: segment_page(*segment), frame: frame_ahead(*old(frames), 0) as u64 }),
{
    proof {
        crate::exec::elf::lemma_frame_ahead_bound(*frames, 0, 1);
    }
    let frame = frames.allocate_frame().unwrap();
    let page = virt_page_containing(segment.p_vaddr);
    PageMapping { page, frame }
}

/// The copy of a segment to the page that holds its virtual address: its file
/// contents, taken in 8-byte words from the word that holds its offset.
pub fn copy_segment(segment: &ProgramHeader) -> (r: SegmentCopy)
    requires
        virt_addr_valid(segment.p_vaddr),
    ensures
        r == (SegmentCopy {
            dest: segment_page(*segment),
            word_offset: segment.p_offset / 8,
            words: segment.p_filesz,
        }),
{
    let dest = virt_page_containing(segment.p_vaddr);
    SegmentCopy { dest, word_offset: segment.p_offset / 8, words: segment.p_filesz }
}

} // verus!

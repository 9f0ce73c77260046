use kernel::common::x86::memory::{
    copy_entry_action, page_range, BootInfoFrameAllocator, EmptyFrameAllocator,
    EntryCopy, MemoryRegion, MemoryRegionKind, PageRun,
};

fn region(start: u64, end: u64, kind: MemoryRegionKind) -> MemoryRegion {
    MemoryRegion { start, end, kind }
}

#[test]
fn allocator_hands_out_usable_frames_in_order() {
    let map = vec![
        region(0, 0x1000, MemoryRegionKind::Bootloader),
        region(0x1000, 0x3000, MemoryRegionKind::Usable),
        region(0x3000, 0x8000, MemoryRegionKind::UnknownBios(2)),
        region(0x10000, 0x11000, MemoryRegionKind::Usable),
    ];
    let mut alloc = BootInfoFrameAllocator::init(map);
    assert_eq!(alloc.allocate_frame(), Some(0x1000));
    assert_eq!(alloc.allocate_frame(), Some(0x2000));
    assert_eq!(alloc.allocate_frame(), Some(0x10000));
    assert_eq!(alloc.allocate_frame(), None);
    assert_eq!(alloc.allocate_frame(), None);
}

#[test]
fn allocator_unaligned_region_rounds_down() {
    // the region yields 0x1800 and 0x2800, whose frames start at 0x1000 and 0x2000
    let mut alloc =
        BootInfoFrameAllocator::init(vec![region(0x1800, 0x3000, MemoryRegionKind::Usable)]);
    assert_eq!(alloc.usable_frames(0), Some(0x1000));
    assert_eq!(alloc.usable_frames(1), Some(0x2000));
    assert_eq!(alloc.usable_frames(2), None);
    assert_eq!(alloc.allocate_frame(), Some(0x1000));
    assert_eq!(alloc.allocate_frame(), Some(0x2000));
    assert_eq!(alloc.allocate_frame(), None);
}

#[test]
fn allocator_partial_last_frame_counts() {
    let alloc = BootInfoFrameAllocator::init(vec![region(0x1000, 0x2001, MemoryRegionKind::Usable)]);
    assert_eq!(alloc.usable_frames(1), Some(0x2000));
    assert_eq!(alloc.usable_frames(2), None);
    assert!(alloc.can_allocate(2));
    assert!(!alloc.can_allocate(3));
    assert_eq!(alloc.peek_frame(1), 0x2000);
}

#[test]
fn allocator_empty_region_yields_nothing() {
    let mut alloc = BootInfoFrameAllocator::init(vec![region(0x5000, 0x5000, MemoryRegionKind::Usable)]);
    assert_eq!(alloc.allocate_frame(), None);
    let mut none = BootInfoFrameAllocator::init(Vec::new());
    assert_eq!(none.allocate_frame(), None);
}

#[test]
fn empty_frame_allocator_has_nothing() {
    let mut alloc = EmptyFrameAllocator;
    assert_eq!(alloc.allocate_frame(), None);
    assert_eq!(alloc.allocate_frame(), None);
}

#[test]
fn entry_copy_actions() {
    assert_eq!(copy_entry_action(0, 4), EntryCopy::Unused);
    assert_eq!(copy_entry_action(0, 1), EntryCopy::Unused);
    // a level-1 entry maps a frame
    assert_eq!(copy_entry_action(0x8000_0000_0123_4067, 1), EntryCopy::Leaf { entry: 0x8000_0000_0123_4067 });
    // a huge-page entry maps a frame at any level
    assert_eq!(copy_entry_action(0x0020_0083, 2), EntryCopy::Leaf { entry: 0x0020_0083 });
    // any other entry points to a table
    assert_eq!(
        copy_entry_action(0x8000_0000_0456_7007, 4),
        EntryCopy::Table { child: 0x0456_7000, flags: 0x8000_0000_0000_0007 }
    );
}

#[test]
fn page_range_bounds() {
    assert_eq!(page_range(0x1000, 0x1000), (0x1000, 0x1000));
    assert_eq!(page_range(0x1800, 0x1000), (0x1000, 0x2000));
    assert_eq!(page_range(0x1000, 0x3000), (0x1000, 0x3000));
    // an empty range ends on the page before its start
    assert_eq!(page_range(0x2000, 0), (0x2000, 0x1000));
    // crossing into the upper half is sign-extended
    assert_eq!(
        page_range(0x7fff_ffff_f000, 0x1001),
        (0x7fff_ffff_f000, 0xffff_8000_0000_0000)
    );
}

#[test]
fn allocation_defined_checks_physical_limit() {
    let mut alloc = BootInfoFrameAllocator::init(vec![
        region(0x1000, 0x2000, MemoryRegionKind::Usable),
        region(0x10_0000_0000_0000, 0x10_0000_0000_1000, MemoryRegionKind::Usable),
    ]);
    assert!(alloc.allocate_frame_defined());
    assert_eq!(alloc.allocate_frame(), Some(0x1000));
    // the next frame lies beyond 52 bits of physical address
    assert!(!alloc.allocate_frame_defined());
    assert!(!alloc.can_allocate(1));
}

#[test]
fn allocator_never_repeats_frames_over_ordered_aligned_map() {
    let mut alloc = BootInfoFrameAllocator::init(vec![
        region(0x1000, 0x4000, MemoryRegionKind::Usable),
        region(0x4000, 0x9000, MemoryRegionKind::Bootloader),
        region(0x9000, 0xb000, MemoryRegionKind::Usable),
        region(0x20000, 0x21000, MemoryRegionKind::Usable),
    ]);
    let mut seen = Vec::new();
    while let Some(frame) = alloc.allocate_frame() {
        assert!(!seen.contains(&frame));
        assert!(seen.last().map_or(true, |&last| last < frame));
        seen.push(frame);
    }
    assert_eq!(seen, vec![0x1000, 0x2000, 0x3000, 0x9000, 0xa000, 0x20000]);
}

#[test]
fn allocator_never_repeats_frames_over_unsorted_disjoint_map() {
    let mut alloc = BootInfoFrameAllocator::init(vec![
        region(0x9000, 0xb000, MemoryRegionKind::Usable),
        region(0x1000, 0x3000, MemoryRegionKind::Usable),
        region(0x2000, 0x4000, MemoryRegionKind::Bootloader),
    ]);
    let mut seen = Vec::new();
    while let Some(frame) = alloc.allocate_frame() {
        assert!(!seen.contains(&frame));
        seen.push(frame);
    }
    assert_eq!(seen, vec![0x9000, 0xa000, 0x1000, 0x2000]);
    // once exhausted, it stays exhausted
    for _ in 0..3 {
        assert_eq!(alloc.allocate_frame(), None);
    }
}

#[test]
fn cloned_allocator_continues_at_the_same_point() {
    let mut alloc = BootInfoFrameAllocator::init(vec![region(0x1000, 0x4000, MemoryRegionKind::Usable)]);
    assert_eq!(alloc.allocate_frame(), Some(0x1000));
    let mut copy = alloc.clone();
    assert_eq!(alloc.allocate_frame(), Some(0x2000));
    assert_eq!(copy.allocate_frame(), Some(0x2000));
}

use kernel::common::x86::memory::{CopyStep, PageTableCopy};
use std::collections::HashMap;

/// Runs the deep copy over tables held in `memory` (physical address to
/// entries); new tables come from 0x100000 on.
fn run_copy(memory: &mut HashMap<u64, Vec<u64>>, source: u64, target: u64) -> Vec<u64> {
    let mut copy = PageTableCopy::new(source, target);
    let mut next_table = 0x10_0000u64;
    let mut created = Vec::new();
    let mut reads = 0;
    loop {
        match copy.next_step() {
            CopyStep::Done => break,
            CopyStep::ReadEntry { table, index, .. } => {
                reads += 1;
                let e = memory[&table][index];
                copy.entry_read(e);
            }
            CopyStep::NewTable => {
                memory.insert(next_table, vec![0; 512]);
                created.push(next_table);
                copy.table_created(next_table);
                next_table += 0x1000;
            }
            CopyStep::WriteEntry { table, index, entry } => {
                memory.get_mut(&table).unwrap()[index] = entry;
                copy.entry_written();
            }
        }
    }
    // every table of the hierarchy is read in full
    assert_eq!(reads, 512 * (1 + created.len()));
    created
}

#[test]
fn page_table_copy_is_deep() {
    let mut memory: HashMap<u64, Vec<u64>> = HashMap::new();
    let mut l4 = vec![0u64; 512];
    l4[0] = 0x2000 | 0x7;
    l4[5] = 0x8000_0000 | 0x83; // huge entry at the root maps a frame
    let mut l3 = vec![0u64; 512];
    l3[1] = 0x3000 | 0x3;
    let mut l2 = vec![0u64; 512];
    l2[0] = 0x20_0000 | 0x83; // a large page
    l2[2] = 0x4000 | 0x1;
    let mut l1 = vec![0u64; 512];
    l1[7] = 0x8000_0000_0123_4067;
    l1[511] = 0x5000 | 0x1;
    memory.insert(0x1000, l4);
    memory.insert(0x2000, l3);
    memory.insert(0x3000, l2);
    memory.insert(0x4000, l1);
    memory.insert(0x9000, vec![0; 512]);

    let created = run_copy(&mut memory, 0x1000, 0x9000);
    assert_eq!(created, vec![0x10_0000, 0x10_1000, 0x10_2000]);
    let root = &memory[&0x9000];
    assert_eq!(root[0], 0x10_0000 | 0x7);
    assert_eq!(root[5], 0x8000_0000 | 0x83);
    assert_eq!(root.iter().filter(|&&e| e != 0).count(), 2);
    assert_eq!(memory[&0x10_0000][1], 0x10_1000 | 0x3);
    assert_eq!(memory[&0x10_1000][0], 0x20_0000 | 0x83);
    assert_eq!(memory[&0x10_1000][2], 0x10_2000 | 0x1);
    assert_eq!(memory[&0x10_2000][7], 0x8000_0000_0123_4067);
    assert_eq!(memory[&0x10_2000][511], 0x5000 | 0x1);
    // the source is untouched
    assert_eq!(memory[&0x1000][0], 0x2000 | 0x7);
}

#[test]
fn page_table_copy_of_empty_root() {
    let mut memory: HashMap<u64, Vec<u64>> = HashMap::new();
    memory.insert(0x1000, vec![0; 512]);
    memory.insert(0x9000, vec![0; 512]);
    assert!(run_copy(&mut memory, 0x1000, 0x9000).is_empty());
    assert!(memory[&0x9000].iter().all(|&e| e == 0));
}

fn walk(start: u64, size: u64) -> Vec<u64> {
    let mut run = PageRun::new(start, size);
    let mut pages = Vec::new();
    while let Some(page) = run.next_page() {
        pages.push(page);
        assert_eq!(run.frame_given(true), Ok(()));
    }
    pages
}

#[test]
fn page_run_covers_each_page_once() {
    assert_eq!(walk(0x1234, 0x2000), vec![0x1000, 0x2000, 0x3000]);
    assert_eq!(walk(0x5000, 0x1000), vec![0x5000]);
}

#[test]
fn page_run_of_nothing_maps_nothing() {
    assert_eq!(walk(0x5000, 0), Vec::<u64>::new());
}

#[test]
fn page_run_crosses_into_upper_half() {
    assert_eq!(walk(0x7fff_ffff_f000, 0x2000), vec![0x7fff_ffff_f000, 0xffff_8000_0000_0000]);
}

#[test]
fn page_run_ends_at_top_of_address_space() {
    assert_eq!(
        walk(0xffff_ffff_ffff_e000, 0x1fff),
        vec![0xffff_ffff_ffff_e000, 0xffff_ffff_ffff_f000]
    );
}

#[test]
fn page_run_stops_without_frame() {
    let mut run = PageRun::new(0x1000, 0x3000);
    assert_eq!(run.next_page(), Some(0x1000));
    assert_eq!(run.frame_given(true), Ok(()));
    assert_eq!(run.next_page(), Some(0x2000));
    assert_eq!(run.frame_given(false), Err(()));
    assert_eq!(run.next_page(), None);
}

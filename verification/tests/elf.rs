use kernel::common::x86::memory::{BootInfoFrameAllocator, MemoryRegion, MemoryRegionKind};
use kernel::exec::elf::{load_elf, load_segments, ProgramHeader, SegmentCopy, PT_LOAD};
use kernel::exec::exec;
use kernel::task;

fn push16(v: &mut Vec<u8>, x: u16) { v.extend_from_slice(&x.to_le_bytes()); }
fn push32(v: &mut Vec<u8>, x: u32) { v.extend_from_slice(&x.to_le_bytes()); }
fn push64(v: &mut Vec<u8>, x: u64) { v.extend_from_slice(&x.to_le_bytes()); }

/// A little-endian ELF64 executable with the given entry point and program
/// headers (type, offset, vaddr, filesz), followed by `payload`.
fn elf64(entry: u64, phdrs: &[(u32, u64, u64, u64)], payload: &[u8]) -> Vec<u8> {
    let mut v = vec![0x7f, b'E', b'L', b'F', 2, 1, 1, 0, 0, 0, 0, 0, 0, 0, 0, 0];
    push16(&mut v, 2); // e_type
    push16(&mut v, 0x3e); // e_machine
    push32(&mut v, 1); // e_version
    push64(&mut v, entry);
    push64(&mut v, if phdrs.is_empty() { 0 } else { 64 }); // e_phoff
    push64(&mut v, 0); // e_shoff
    push32(&mut v, 0); // e_flags
    push16(&mut v, 64); // e_ehsize
    push16(&mut v, 56); // e_phentsize
    push16(&mut v, phdrs.len() as u16);
    push16(&mut v, 64); // e_shentsize
    push16(&mut v, 0); // e_shnum
    push16(&mut v, 0); // e_shstrndx
    for &(p_type, offset, vaddr, filesz) in phdrs {
        push32(&mut v, p_type);
        push32(&mut v, 5); // p_flags
        push64(&mut v, offset);
        push64(&mut v, vaddr);
        push64(&mut v, vaddr); // p_paddr
        push64(&mut v, filesz);
        push64(&mut v, filesz); // p_memsz
        push64(&mut v, 0x1000);
    }
    v.extend_from_slice(payload);
    v
}

fn frames() -> BootInfoFrameAllocator {
    BootInfoFrameAllocator::init(vec![MemoryRegion {
        start: 0x10_0000,
        end: 0x20_0000,
        kind: MemoryRegionKind::Usable,
    }])
}

#[test]
fn load_segments_keeps_loadable_in_order() {
    let h = |t: u32, o: u64| ProgramHeader { p_type: t, p_offset: o, p_vaddr: 0, p_paddr: 0, p_filesz: 0, p_memsz: 0 };
    let all = vec![h(6, 1), h(PT_LOAD, 2), h(4, 3), h(PT_LOAD, 4)];
    assert_eq!(load_segments(&all), vec![h(PT_LOAD, 2), h(PT_LOAD, 4)]);
}

#[test]
fn exec_elf_plan() {
    let data = elf64(0x40_1000, &[(PT_LOAD, 0x100, 0x40_0000, 0x20), (4, 0, 0, 0), (PT_LOAD, 0x1008, 0x40_1000, 3)], &[0u8; 16]);
    let mut f = frames();
    let plan = load_elf(&data, &mut f).expect("loadable");
    // frame 0x100000 is drawn and left unused; then the program, then the stack
    assert_eq!(plan.first_page, 0x10_1000);
    assert_eq!(plan.stack, 0x10_2000);
    let mut expected = vec![0x10_1000u64, 0x10_2000];
    for k in 0..12u64 {
        expected.push(0x10_3000 + 0x1000 * k);
    }
    assert_eq!(plan.mappings, expected);
    assert_eq!(
        plan.copies,
        vec![
            SegmentCopy { dest: 0x10_1000, word_offset: 0x20, words: 0x20 },
            SegmentCopy { dest: 0x10_2000, word_offset: 0x201, words: 3 },
        ]
    );
    assert_eq!(plan.entry, 0x10_1000 + 0x40_1000 - 0x40_0000);
    // with consecutive frames, each segment lands in a page the plan maps
    for (i, copy) in plan.copies.iter().enumerate() {
        assert_eq!(copy.dest, plan.mappings[i]);
    }
    // 2 loadable segments: 3 + 2 + 10 frames drawn
    assert_eq!(f.allocate_frame(), Some(0x10_0000 + 15 * 0x1000));
}

#[test]
fn exec_elf_refuses_garbage() {
    let mut f = frames();
    assert!(load_elf(b"not an elf file", &mut f).is_none());
    // nothing was drawn
    assert_eq!(f.allocate_frame(), Some(0x10_0000));
}

#[test]
fn exec_elf_refuses_file_without_program_headers() {
    let mut f = frames();
    assert!(load_elf(&elf64(0x40_0000, &[], &[]), &mut f).is_none());
}

#[test]
fn exec_elf_refuses_when_frames_run_out() {
    let data = elf64(0x40_0000, &[(PT_LOAD, 0, 0x40_0000, 1)], &[]);
    let mut f = BootInfoFrameAllocator::init(vec![MemoryRegion {
        start: 0x10_0000,
        end: 0x10_0000 + 13 * 0x1000,
        kind: MemoryRegionKind::Usable,
    }]);
    // one segment needs 14 frames
    assert!(load_elf(&data, &mut f).is_none());
    assert_eq!(f.allocate_frame(), Some(0x10_0000));
}

#[test]
fn exec_elf_refuses_entry_below_link_base() {
    let data = elf64(0, &[(PT_LOAD, 0, 0x40_0000, 1)], &[]);
    let mut f = frames();
    // 0x101000 + 0 - 0x400000 underflows
    assert!(load_elf(&data, &mut f).is_none());
}

#[test]
fn exec_plan_maps_directory() {
    let mut f = frames();
    let plan = exec(0x10_1000, &mut f, 0x10_2000);
    assert_eq!(plan.directory, 0x10_0000);
    assert_eq!(plan.directory_page, 0x10_0000);
    assert_eq!(plan.directory_flags, 0x3);
    assert_eq!(plan.code, 0x10_1000);
    assert_eq!(plan.stack, 0x10_2000);
    assert_eq!(f.allocate_frame(), Some(0x10_1000));
}

#[test]
fn task_elf_image_and_steps() {
    let data = elf64(0x40_1234, &[(PT_LOAD, 0x100, 0x40_0010, 0x20), (4, 0, 0, 0), (PT_LOAD, 0x200, 0x41_2345, 8)], &[0u8; 8]);
    let image = task::elf::load_elf(&data).expect("loadable");
    assert_eq!(image.entry, 0x40_1234);
    assert_eq!(image.segments.len(), 2);
    let mut f = frames();
    let m0 = task::elf::map_segment(&image.segments[0], &mut f);
    assert_eq!(m0, task::elf::PageMapping { page: 0x40_0000, frame: 0x10_0000 });
    // a page table drawn by the mapping in between takes the next frame
    assert_eq!(f.allocate_frame(), Some(0x10_1000));
    let m1 = task::elf::map_segment(&image.segments[1], &mut f);
    assert_eq!(m1, task::elf::PageMapping { page: 0x41_2000, frame: 0x10_2000 });
    assert_eq!(
        task::elf::copy_segment(&image.segments[0]),
        SegmentCopy { dest: 0x40_0000, word_offset: 0x20, words: 0x20 }
    );
    assert_eq!(
        task::elf::copy_segment(&image.segments[1]),
        SegmentCopy { dest: 0x41_2000, word_offset: 0x40, words: 8 }
    );
}

#[test]
fn task_elf_refuses_garbage() {
    assert!(task::elf::load_elf(b"garbage").is_none());
    assert!(task::elf::load_elf(&elf64(0x40_0000, &[], &[])).is_none());
}

/// The same file with a section-header table of one symbol-table section
/// whose string-table link points past the table.
fn with_broken_symtab(mut v: Vec<u8>) -> Vec<u8> {
    let shoff = v.len() as u64;
    v[40..48].copy_from_slice(&shoff.to_le_bytes()); // e_shoff
    v[60..62].copy_from_slice(&1u16.to_le_bytes()); // e_shnum
    push32(&mut v, 0); // sh_name
    push32(&mut v, 2); // sh_type: symbol table
    push64(&mut v, 0); // sh_flags
    push64(&mut v, 0); // sh_addr
    push64(&mut v, 0); // sh_offset
    push64(&mut v, 0); // sh_size
    push32(&mut v, 5); // sh_link: no such section
    push32(&mut v, 0); // sh_info
    push64(&mut v, 8); // sh_addralign
    push64(&mut v, 24); // sh_entsize
    v
}

#[test]
fn task_elf_refuses_broken_common_sections() {
    let data = with_broken_symtab(elf64(0x40_0000, &[(PT_LOAD, 0, 0x40_0000, 1)], &[]));
    assert!(task::elf::load_elf(&data).is_none());
    // the user-space loader does not look at the sections
    let mut g = frames();
    assert!(load_elf(&data, &mut g).is_some());
}

#[test]
fn task_elf_keeps_loadable_segments() {
    let data = elf64(0x40_0000, &[(4, 0, 0, 0), (PT_LOAD, 0x40, 0x40_0000, 2)], &[]);
    let image = task::elf::load_elf(&data).expect("loadable");
    assert_eq!(image.segments.len(), 1);
    assert_eq!(image.segments[0].p_offset, 0x40);
    assert_eq!(image.segments[0].p_vaddr, 0x40_0000);
    assert_eq!(image.segments[0].p_filesz, 2);
}

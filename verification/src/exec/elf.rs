use crate::common::x86::memory::{
    align_down_4k, frame_ahead, nth_frame, usable_addresses, virt_addr_new, virt_addr_valid, virt_canonical,
    virt_page_containing, BootInfoFrameAllocator, PHYS_ADDR_LIMIT,
};
use elf::endian::AnyEndian;
use elf::ElfBytes;
use vstd::prelude::*;

verus! {

/// ELF program-header type of a loadable segment.
pub const PT_LOAD: u32 = 1;

/// The virtual address at which the user programs are linked.
pub const USER_LINK_BASE: u64 = 0x40_0000;

/// Number of frames beyond one per loadable segment that the loader maps for
/// the program.
pub const EXTRA_PAGES: usize = 10;

/// A program header of an ELF file.
#[derive(Debug, Clone, Copy, PartialEq, Eq, Structural)]
pub struct ProgramHeader {
    pub p_type: u32,
    pub p_offset: u64,
    pub p_vaddr: u64,
    pub p_paddr: u64,
    pub p_filesz: u64,
    pub p_memsz: u64,
}

/// What the `elf` crate's `ElfBytes::<AnyEndian>::minimal_parse` makes of
/// `data`: `None` when it refuses the file; otherwise the entry point of the
/// file header and the program headers its segment table yields, `None` when
/// the file has no program-header table.
pub uninterp spec fn elf_file(data: Seq<u8>) -> Option<(u64, Option<Seq<ProgramHeader>>)>;

/// Whether `find_common_data` of the `elf` crate succeeds on the file that
/// `minimal_parse` makes of `data` (false when that parse fails).
pub uninterp spec fn elf_common_data_ok(data: Seq<u8>) -> bool;

/// The program headers of an optional table, as a sequence.
pub open spec fn headers_view(segments: Option<Vec<ProgramHeader>>) -> Option<Seq<ProgramHeader>> {
    match segments {
        Some(v) => Some(v@),
        None => None,
    }
}

/// Parses `data` with `ElfBytes::<AnyEndian>::minimal_parse` of the `elf`
/// crate and reads the entry point (`ehdr.e_entry`) and, through `segments()`,
/// the program headers that the table's iterator yields (it stops at the first
/// one that does not parse). The contract names the outcome `elf_file(data)`; the
/// crate's ELF parsing itself is not restated here.
#[verifier::external_body]
pub(crate) fn parse_elf(data: &[u8]) -> (r: Option<(u64, Option<Vec<ProgramHeader>>)>)
    ensures
        match r {
            Some((entry, segments)) => elf_file(data@) == Some((entry, headers_view(segments))),
            None => elf_file(data@) is None,
        },
{
    let file = ElfBytes::<AnyEndian>::minimal_parse(data).ok()?;
    let segments = file.segments().map(|table| {
        let mut v = Vec::new();
        for p in table.iter() {
            let (p_type, p_offset, p_vaddr) = (p.p_type, p.p_offset, p.p_vaddr);
            let (p_paddr, p_filesz, p_memsz) = (p.p_paddr, p.p_filesz, p.p_memsz);
            v.push(ProgramHeader { p_type, p_offset, p_vaddr, p_paddr, p_filesz, p_memsz });
        }
        v
    });
    Some((file.ehdr.e_entry, segments))
}

/// Whether `find_common_data` of the `elf` crate succeeds on the file that
/// `ElfBytes::<AnyEndian>::minimal_parse` makes of `data`. The contract names
/// the outcome `elf_common_data_ok(data)`.
#[verifier::external_body]
pub(crate) fn common_data_parses(data: &[u8]) -> (r: bool)
    ensures
        r == elf_common_data_ok(data@),
{
    match ElfBytes::<AnyEndian>::minimal_parse(data) {
        Ok(file) => file.find_common_data().is_ok(),
        Err(_) => false,
    }
}

/// The loadable segments among program headers, in file order.
pub open spec fn loadable(segments: Seq<ProgramHeader>) -> Seq<ProgramHeader> {
    segments.filter(|p: ProgramHeader| p.p_type == PT_LOAD)
}

/// The loadable segments among `segments`, in file order.
pub fn load_segments(segments: &Vec<ProgramHeader>) -> (r: Vec<ProgramHeader>)
    ensures
        r@ == loadable(segments@),
{
    let mut r: Vec<ProgramHeader> = Vec::new();
    let mut i: usize = 0;
    while i < segments.len()
        invariant
            0 <= i <= segments@.len(),
            r@ == loadable(segments@.take(i as int)),
        decreases segments.len() - i,
    {
        proof {
            assert(segments@.take(i + 1).drop_last() =~= segments@.take(i as int));
            reveal(Seq::filter);
        }
        if segments[i].p_type == PT_LOAD {
            r.push(segments[i]);
        }
        i = i + 1;
    }
    assert(segments@.take(i as int) =~= segments@);
    r
}

/// Only program headers of type 1 (`PT_LOAD`) are loadable, and all of them
/// are, in file order: no header is loadable among none, and one more header
/// joins the loadable ones, at their end, exactly when its type is 1.
pub proof fn loadable_keeps_only_load_headers(segments: Seq<ProgramHeader>, header: ProgramHeader)
    ensures
        loadable(Seq::<ProgramHeader>::empty()) == Seq::<ProgramHeader>::empty(),
        header.p_type == 1 ==> loadable(segments.push(header)) == loadable(segments).push(header),
        header.p_type != 1 ==> loadable(segments.push(header)) == loadable(segments),
        forall|i: int| 0 <= i < loadable(segments).len() ==> (#[trigger] loadable(segments)[i]).p_type == 1,
{
    reveal(Seq::filter);
    assert(segments.push(header).drop_last() =~= segments);
    segments.lemma_filter_len(|p: ProgramHeader| p.p_type == PT_LOAD);
    assert forall|i: int| 0 <= i < loadable(segments).len() implies (#[trigger] loadable(segments)[i]).p_type == 1 by {
        segments.lemma_filter_pred(|p: ProgramHeader| p.p_type == PT_LOAD, i);
    }
}

/// Copy `words` 8-byte words from the ELF data, starting at word `word_offset`
/// of it, to the virtual address `dest`.
#[derive(Debug, Clone, Copy, PartialEq, Eq, Structural)]
pub struct SegmentCopy {
    pub dest: u64,
    pub word_offset: u64,
    pub words: u64,
}

/// What loading an ELF file into a fresh user address space takes.
pub struct ElfLoadPlan {
    /// The frame whose address the program is copied to.
    pub first_page: u64,
    /// The frame whose address is the user stack.
    pub stack: u64,
    /// Virtual addresses at which one user-accessible, writable 4 KiB page each
    /// is to be allocated, in order.
    pub mappings: Vec<u64>,
    /// The copies of the loadable segments, in order.
    pub copies: Vec<SegmentCopy>,
    /// The address at which the program starts in user mode.
    pub entry: u64,
}

/// The `k`-th frame ahead is a frame of the memory map and a valid virtual address.
pub open spec fn frame_mappable(frames: BootInfoFrameAllocator, k: int) -> bool {
    virt_addr_valid(frame_ahead(frames, k) as u64)
}

/// Loading a program with entry point `entry` and `n` loadable segments does
/// not fail: the allocator has the `n + 13` frames the loader draws, each one
/// mapped at its own address is a valid virtual address, the segments' pages
/// follow the first frame within the virtual address space, and the entry
/// point lies above the link base within that space.
pub open spec fn elf_load_feasible(entry: u64, n: nat, frames: BootInfoFrameAllocator) -> bool {
    let first = frame_ahead(frames, 1);
    &&& frames.has_frames(n + 13)
    &&& forall|k: int| 1 <= k < n + 13 ==> #[trigger] frame_mappable(frames, k)
    &&& forall|i: int| 0 <= i < n ==> #[trigger] segment_page_valid(first, i)
    &&& first + entry <= u64::MAX
    &&& first + entry >= USER_LINK_BASE
    &&& virt_addr_valid((first + entry - USER_LINK_BASE) as u64)
}

/// The `i`-th page after the frame `first` is a valid virtual address.
pub open spec fn segment_page_valid(first: int, i: int) -> bool {
    first + 0x1000 * i <= u64::MAX && virt_addr_valid((first + 0x1000 * i) as u64)
}

/// The copy of the `i`-th loadable segment, to the `i`-th page after `first`.
pub open spec fn segment_copy(first: int, i: int, segment: ProgramHeader) -> SegmentCopy {
    SegmentCopy {
        dest: align_down_4k(virt_canonical((first + 0x1000 * i) as u64)) as u64,
        word_offset: segment.p_offset / 8,
        words: segment.p_filesz,
    }
}

/// The virtual addresses of the pages that loading `n` segments maps: the
/// program's first frame, the stack frame, then `n + 10` more frames, each at
/// its own address.
pub open spec fn planned_mappings(frames: BootInfoFrameAllocator, n: nat) -> Seq<u64> {
    Seq::new(
        n + 12,
        |j: int| virt_canonical(frame_ahead(frames, j + 1) as u64) as u64,
    )
}

/// A valid virtual address is recognised.
pub fn is_virt_addr_valid(addr: u64) -> (r: bool)
    ensures
        r == virt_addr_valid(addr),
{
    let high = addr / 0x8000_0000_0000;
    high == 0 || high == 1 || high == 0x1ffff
}

pub(crate) proof fn lemma_frame_ahead_bound(frames: BootInfoFrameAllocator, k: int, count: nat)
    requires
        frames.has_frames(count),
        0 <= k < count,
    ensures
        nth_frame(frames.regions(), frames.next_index() + k) == Some(frame_ahead(frames, k) as u64),
        0 <= frame_ahead(frames, k) < PHYS_ADDR_LIMIT,
{
    assert(crate::common::x86::memory::frame_formable_at(frames.regions(), frames.next_index() + k));
    let a = usable_addresses(frames.regions())[frames.next_index() + k];
    assert(a < PHYS_ADDR_LIMIT);
    assert(a >= 0) by {
        crate::common::x86::memory::usable_addresses_in_usable_regions(
            frames.regions(),
            frames.next_index() + k,
        );
    }
}

/// Whether loading a program with entry point `entry` and `n` loadable
/// segments succeeds with these frames.
pub fn elf_load_possible(entry: u64, n: usize, frames: &BootInfoFrameAllocator) -> (r: bool)
    ensures
        r == elf_load_feasible(entry, n as nat, *frames),
{
    if n > usize::MAX - 14 {
        return false;
    }
    let count = n + 13;
    if !frames.can_allocate(count) {
        return false;
    }
    proof {
        lemma_frame_ahead_bound(*frames, 1, count as nat);
    }
    assert(frames.next_index() + 1 < usable_addresses(frames.regions()).len());
    let first = frames.peek_frame(1);
    let mut k: usize = 1;
    while k < count
        invariant
            frames.has_frames(count as nat),
            count == n + 13,
            1 <= k <= count,
            forall|j: int| 1 <= j < k ==> #[trigger] frame_mappable(*frames, j),
        decreases count - k,
    {
        proof {
            lemma_frame_ahead_bound(*frames, k as int, count as nat);
        }
        assert(frames.next_index() + k < usable_addresses(frames.regions()).len());
        let f = frames.peek_frame(k);
        if !is_virt_addr_valid(f) {
            assert(!frame_mappable(*frames, k as int));
            return false;
        }
        k = k + 1;
    }
    let mut i: usize = 0;
    while i < n
        invariant
            first == frame_ahead(*frames, 1),
            first < PHYS_ADDR_LIMIT,
            frames.has_frames(count as nat),
            count == n + 13,
            forall|j: int| 1 <= j < count ==> #[trigger] frame_mappable(*frames, j),
            0 <= i <= n,
            forall|j: int| 0 <= j < i ==> #[trigger] segment_page_valid(first as int, j),
        decreases n - i,
    {
        if i as u64 > (u64::MAX - first) / 0x1000 {
            assert(first + 0x1000 * i > u64::MAX) by (nonlinear_arith)
                requires
                    i > (u64::MAX - first) / 0x1000,
                    first <= u64::MAX,
            ;
            assert(!segment_page_valid(first as int, i as int));
            return false;
        }
        assert(first + 0x1000 * i <= u64::MAX) by (nonlinear_arith)
            requires
                i <= (u64::MAX - first) / 0x1000,
                first <= u64::MAX,
        ;
        if !is_virt_addr_valid(first + 0x1000 * i as u64) {
            assert(!segment_page_valid(first as int, i as int));
            return false;
        }
        i = i + 1;
    }
    if entry > u64::MAX - first {
        return false;
    }
    if first + entry < USER_LINK_BASE {
        return false;
    }
    is_virt_addr_valid(first + entry - USER_LINK_BASE)
}

/// Plans the loading of a program with entry point `entry` whose loadable
/// segments are `loads`: it draws, in this order, a frame it leaves unused,
/// the program's first frame, the stack frame and `loads.len() + 10` more
/// frames; it maps each of these but the first at its own address; it copies
/// the `i`-th segment to the `i`-th page after the first frame; and the
/// program starts at the first frame's address plus the entry point minus the
/// link base.
pub fn load_elf_image(entry: u64, loads: &Vec<ProgramHeader>, frames: &mut BootInfoFrameAllocator) -> (r:
    ElfLoadPlan)
    requires
        elf_load_feasible(entry, loads@.len(), *old(frames)),
    ensures
        final(frames).regions() == old(frames).regions(),
        final(frames).next_index() == old(frames).next_index() + loads@.len() + 13,
        r.first_page == frame_ahead(*old(frames), 1),
        r.stack == frame_ahead(*old(frames), 2),
        r.mappings@ == planned_mappings(*old(frames), loads@.len()),
        r.copies@ == Seq::new(
            loads@.len(),
            |i: int| segment_copy(frame_ahead(*old(frames), 1), i, loads@[i]),
        ),
        r.entry == virt_canonical(
            (frame_ahead(*old(frames), 1) + entry - USER_LINK_BASE) as u64,
        ),
{
    let ghost start = *frames;
    let n = loads.len();
    let count = n + 13;
    proof {
        lemma_frame_ahead_bound(start, 0, count as nat);
        lemma_frame_ahead_bound(start, 1, count as nat);
        lemma_frame_ahead_bound(start, 2, count as nat);
    }
    let _unused = frames.allocate_frame();
    proof {
        lemma_frames_advance(start, *frames, 1, count as nat);
    }
    let first_page = frames.allocate_frame().unwrap();
    proof {
        lemma_frames_advance(start, *frames, 2, count as nat);
    }
    let stack = frames.allocate_frame().unwrap();
    proof {
        lemma_frames_advance(start, *frames, 3, count as nat);
        assert(frame_mappable(start, 1));
        assert(frame_mappable(start, 2));
    }
    let mut mappings: Vec<u64> = Vec::new();
    mappings.push(virt_addr_new(first_page));
    mappings.push(virt_addr_new(stack));
    let mut k: usize = 0;
    while k < n + EXTRA_PAGES
        invariant
            n == loads@.len(),
            count == n + 13,
            elf_load_feasible(entry, n as nat, start),
            frames.regions() == start.regions(),
            frames.next_index() == start.next_index() + 3 + k,
            0 <= k <= n + EXTRA_PAGES,
            mappings@ == planned_mappings(start, n as nat).take(2 + k),
        decreases n + EXTRA_PAGES - k,
    {
        proof {
            lemma_frame_ahead_bound(start, 3 + k, count as nat);
            lemma_frames_advance(start, *frames, 3 + k, count as nat);
            assert(frame_mappable(start, 3 + k));
        }
        let phys = frames.allocate_frame().unwrap();
        mappings.push(virt_addr_new(phys));
        proof {
            assert(mappings@ =~= planned_mappings(start, n as nat).take(3 + k));
        }
        k = k + 1;
    }
    let mut copies: Vec<SegmentCopy> = Vec::new();
    let mut i: usize = 0;
    while i < n
        invariant
            n == loads@.len(),
            elf_load_feasible(entry, n as nat, start),
            first_page == frame_ahead(start, 1),
            0 <= i <= n,
            copies@ == Seq::new(i as nat, |j: int| segment_copy(frame_ahead(start, 1), j, loads@[j])),
        decreases n - i,
    {
        assert(segment_page_valid(first_page as int, i as int));
        let dest = virt_page_containing(first_page + 0x1000 * i as u64);
        copies.push(
            SegmentCopy { dest, word_offset: loads[i].p_offset / 8, words: loads[i].p_filesz },
        );
        proof {
            assert(copies@ =~= Seq::new(
                (i + 1) as nat,
                |j: int| segment_copy(frame_ahead(start, 1), j, loads@[j]),
            ));
        }
        i = i + 1;
    }
    let code = virt_addr_new(first_page + entry - USER_LINK_BASE);
    assert(mappings@ =~= planned_mappings(start, n as nat));
    ElfLoadPlan { first_page, stack, mappings, copies, entry: code }
}

proof fn lemma_frames_advance(
    start: BootInfoFrameAllocator,
    now: BootInfoFrameAllocator,
    k: int,
    count: nat,
)
    requires
        start.has_frames(count),
        0 <= k < count,
        now.regions() == start.regions(),
        now.next_index() == start.next_index() + k,
    ensures
        now.next_index() < usize::MAX,
        crate::common::x86::memory::nth_frame_formable(now.regions(), now.next_index() as int),
        nth_frame(now.regions(), now.next_index() as int) == Some(frame_ahead(start, k) as u64),
{
    lemma_frame_ahead_bound(start, k, count);
}

/// When the frames the loader draws for the program lie one after the other
/// below the upper half of the address space, every page a segment is copied
/// to is one of the pages the plan maps.
pub proof fn copies_land_in_mapped_pages(
    entry: u64,
    loads: Seq<ProgramHeader>,
    frames: BootInfoFrameAllocator,
    i: int,
)
    requires
        elf_load_feasible(entry, loads.len(), frames),
        forall|j: int|
            1 <= j <= loads.len() ==> #[trigger] frame_ahead(frames, j) == frame_ahead(frames, 1)
                + 0x1000 * (j - 1),
        frame_ahead(frames, 1) + 0x1000 * loads.len() <= 0x8000_0000_0000,
        0 <= i < loads.len(),
    ensures
        segment_copy(frame_ahead(frames, 1), i, loads[i]).dest == planned_mappings(
            frames,
            loads.len(),
        )[i],
{
    let first = frame_ahead(frames, 1);
    lemma_frame_ahead_bound(frames, 1, loads.len() + 13);
    assert(first % 4096 == 0);
    let a = first + 0x1000 * i;
    assert(0x1000 * i >= 0 && 0x1000 * i < 0x1000 * loads.len()) by (nonlinear_arith)
        requires
            0 <= i < loads.len(),
    ;
    assert(a % 4096 == 0) by (nonlinear_arith)
        requires
            first % 4096 == 0,
            a == first + 0x1000 * i,
            first >= 0,
            i >= 0,
    ;
    assert(virt_canonical(a as u64) == a);
    assert(align_down_4k(a) == a);
    assert(frame_ahead(frames, i + 1) == a);
}

/// Loads the ELF file `data`: `None` where the file does not parse, has no
/// program headers, or cannot be loaded with these frames (then the frames are
/// untouched); otherwise the plan that `load_elf_image` makes of its entry
/// point and loadable segments.
pub fn load_elf(data: &[u8], frames: &mut BootInfoFrameAllocator) -> (r: Option<ElfLoadPlan>)
    ensures
        match elf_file(data@) {
            Some((entry, Some(segments))) => {
                let n = loadable(segments).len();
                if elf_load_feasible(entry, n, *old(frames)) {
                    &&& r is Some
                    &&& final(frames).regions() == old(frames).regions()
                    &&& final(frames).next_index() == old(frames).next_index() + n + 13
                    &&& r.unwrap().first_page == frame_ahead(*old(frames), 1)
                    &&& r.unwrap().stack == frame_ahead(*old(frames), 2)
                    &&& r.unwrap().mappings@ == planned_mappings(*old(frames), n)
                    &&& r.unwrap().copies@ == Seq::new(
                        n,
                        |i: int| segment_copy(frame_ahead(*old(frames), 1), i, loadable(segments)[i]),
                    )
                    &&& r.unwrap().entry == virt_canonical(
                        (frame_ahead(*old(frames), 1) + entry - USER_LINK_BASE) as u64,
                    )
                } else {
                    r is None && *final(frames) == *old(frames)
                }
            },
            _ => r is None && *final(frames) == *old(frames),
        },
{
    let parsed = parse_elf(data);
    match parsed {
        Some((entry, Some(segments))) => {
            let loads = load_segments(&segments);
            if elf_load_possible(entry, loads.len(), frames) {
                Some(load_elf_image(entry, &loads, frames))
            } else {
                None
            }
        },
        _ => None,
    }
}

} // verus!

use vstd::prelude::*;
use x86_64::structures::paging::{Page, PhysFrame, Size4KiB};
use x86_64::{PhysAddr, VirtAddr};

verus! {

/// First physical address that is out of reach: physical addresses have 52 bits.
pub const PHYS_ADDR_LIMIT: u64 = 0x10_0000_0000_0000;

/// Bits 12..52 of a page-table entry: the physical address it points to.
pub const ENTRY_ADDR_MASK: u64 = 0x000f_ffff_ffff_f000;

/// The bits of a page-table entry that carry flags: all but the address bits.
pub const ENTRY_FLAGS_MASK: u64 = 0xfff0_0000_0000_0fff;

/// Entry flag: the entry is valid.
pub const PRESENT: u64 = 0x1;

/// Entry flag: writes are allowed.
pub const WRITABLE: u64 = 0x2;

/// Entry flag: ring 3 may access the mapping.
pub const USER_ACCESSIBLE: u64 = 0x4;

/// Entry flag: the entry maps a large frame instead of pointing to a table.
pub const HUGE_PAGE: u64 = 0x80;

// ---------------------------------------------------------------------------
// Addresses
// ---------------------------------------------------------------------------

/// The start of the 4 KiB frame or page that contains `addr`.
pub open spec fn align_down_4k(addr: int) -> int {
    addr - addr % 4096
}

/// A value that `VirtAddr::new` accepts: bits 47..64 are all clear, all set,
/// or only bit 47 is set (then they are sign-extended).
pub open spec fn virt_addr_valid(addr: u64) -> bool {
    let high = addr / 0x8000_0000_0000;
    high == 0 || high == 1 || high == 0x1ffff
}

/// The canonical form of a valid virtual address: bit 47 copied into bits 48..64.
pub open spec fn virt_canonical(addr: u64) -> int {
    if addr / 0x8000_0000_0000 == 1 {
        addr + 0xffff_0000_0000_0000
    } else {
        addr as int
    }
}

/// A canonical virtual address: one that `VirtAddr::new` keeps unchanged.
pub open spec fn is_canonical(addr: u64) -> bool {
    addr < 0x8000_0000_0000 || addr >= 0xffff_8000_0000_0000
}

/// The start address of the 4 KiB physical frame that contains `addr`, as
/// `PhysFrame::containing_address(PhysAddr::new(addr))` computes it.
///
/// `PhysAddr::new` panics on an address with bits 52..64 set; the frame's start
/// is the address aligned down to 4 KiB.
#[verifier::external_body]
pub(crate) fn phys_frame_containing(addr: u64) -> (r: u64)
    requires
        addr < PHYS_ADDR_LIMIT,
    ensures
        r == align_down_4k(addr as int),
{
    PhysFrame::<Size4KiB>::containing_address(PhysAddr::new(addr)).start_address().as_u64()
}

/// The canonical form of a virtual address, as `VirtAddr::new(addr).as_u64()` gives it.
///
/// `VirtAddr::new` panics unless bits 47..64 are all clear, all set, or only
/// bit 47 is set, which it then sign-extends.
#[verifier::external_body]
pub(crate) fn virt_addr_new(addr: u64) -> (r: u64)
    requires
        virt_addr_valid(addr),
    ensures
        r == virt_canonical(addr),
{
    VirtAddr::new(addr).as_u64()
}

/// The start address of the 4 KiB page that contains `addr`, as
/// `Page::containing_address(VirtAddr::new(addr))` computes it: the canonical
/// address aligned down to 4 KiB.
#[verifier::external_body]
pub(crate) fn virt_page_containing(addr: u64) -> (r: u64)
    requires
        virt_addr_valid(addr),
    ensures
        r == align_down_4k(virt_canonical(addr)),
{
    Page::<Size4KiB>::containing_address(VirtAddr::new(addr)).start_address().as_u64()
}

// ---------------------------------------------------------------------------
// Page-table entries
// ---------------------------------------------------------------------------

/// What copying one page-table entry into a fresh table takes.
#[derive(Debug, Clone, Copy, PartialEq, Eq, Structural)]
pub enum EntryCopy {
    /// The entry is zero: leave the new entry zero.
    Unused,
    /// The entry maps a frame: store `entry` in the new table as it is.
    Leaf { entry: u64 },
    /// The entry points to a lower-level table at `child`: allocate a new
    /// table, copy `child` into it, and point the new entry at it with `flags`.
    Table { child: u64, flags: u64 },
}

/// The physical address that an entry points to.
pub open spec fn entry_addr(entry: u64) -> u64 {
    entry & ENTRY_ADDR_MASK
}

/// The flags of an entry.
pub open spec fn entry_flags(entry: u64) -> u64 {
    entry & ENTRY_FLAGS_MASK
}

/// The entry that points to `addr` with `flags`.
pub open spec fn make_entry(addr: u64, flags: u64) -> u64 {
    addr | flags
}

/// How the deep copy treats one entry of a table at `level`.
pub open spec fn entry_copy_spec(entry: u64, level: u16) -> EntryCopy {
    if entry == 0 {
        EntryCopy::Unused
    } else if level == 1 || entry & HUGE_PAGE != 0 {
        EntryCopy::Leaf { entry: make_entry(entry_addr(entry), entry_flags(entry)) }
    } else {
        EntryCopy::Table { child: entry_addr(entry), flags: entry_flags(entry) }
    }
}

/// Decides how the deep copy of a page-table hierarchy treats one entry of a
/// table at `level` (4 for the root, 1 for the tables that map frames): an
/// unused entry stays unused; an entry at level 1 or with the huge-page flag
/// maps a frame and is copied with its address and flags; any other entry
/// points to a lower-level table that is copied in turn.
pub fn copy_entry_action(entry: u64, level: u16) -> (r: EntryCopy)
    ensures
        r == entry_copy_spec(entry, level),
        entry == 0 ==> r == EntryCopy::Unused,
        entry != 0 && (level == 1 || entry & HUGE_PAGE != 0) ==> r == (EntryCopy::Leaf {
            entry: make_entry(entry_addr(entry), entry_flags(entry)),
        }),
        entry != 0 && level != 1 && entry & HUGE_PAGE == 0 ==> r == (EntryCopy::Table {
            child: entry_addr(entry),
            flags: entry_flags(entry),
        }),
{
    if entry == 0 {
        EntryCopy::Unused
    } else if level == 1 || entry & HUGE_PAGE != 0 {
        EntryCopy::Leaf { entry: (entry & ENTRY_ADDR_MASK) | (entry & ENTRY_FLAGS_MASK) }
    } else {
        EntryCopy::Table { child: entry & ENTRY_ADDR_MASK, flags: entry & ENTRY_FLAGS_MASK }
    }
}

/// Copying a frame-mapping entry gives back the very same entry, and an entry
/// that points to a new table keeps the flags of the entry it replaces.
pub proof fn entry_copy_preserves(entry: u64, new_table: u64)
    requires
        new_table % 4096 == 0,
        new_table < PHYS_ADDR_LIMIT,
    ensures
        make_entry(entry_addr(entry), entry_flags(entry)) == entry,
        entry_addr(make_entry(new_table, entry_flags(entry))) == new_table,
        entry_flags(make_entry(new_table, entry_flags(entry))) == entry_flags(entry),
{
    assert((entry & 0x000f_ffff_ffff_f000u64) | (entry & 0xfff0_0000_0000_0fffu64) == entry)
        by (bit_vector);
    assert(((new_table | (entry & 0xfff0_0000_0000_0fffu64)) & 0x000f_ffff_ffff_f000u64)
        == new_table) by (bit_vector)
        requires
            new_table % 4096 == 0,
            new_table < 0x10_0000_0000_0000u64,
    ;
    assert(((new_table | (entry & 0xfff0_0000_0000_0fffu64)) & 0xfff0_0000_0000_0fffu64) == (
    entry & 0xfff0_0000_0000_0fffu64)) by (bit_vector)
        requires
            new_table % 4096 == 0,
            new_table < 0x10_0000_0000_0000u64,
    ;
}

/// Entries in one page table.
pub const ENTRIES_PER_TABLE: usize = 512;

/// Where the copy stands in one table: the table at physical address
/// `source` being copied into the table at `target`, at entry `index`.
#[derive(Debug, Clone, Copy, PartialEq, Eq, Structural)]
pub struct TableCursor {
    pub level: u16,
    pub source: u64,
    pub target: u64,
    pub index: usize,
}

/// What the copy has learnt of the current entry.
#[derive(Debug, Clone, Copy, PartialEq, Eq, Structural)]
pub enum CopyPhase {
    /// The current entry is still to be read.
    Read,
    /// The current entry maps a frame and is to be written as `entry`.
    Leaf { entry: u64 },
    /// The current entry points to the table `child`: a new table is needed.
    NeedTable { child: u64, flags: u64 },
    /// The new table `table` is to be linked with `flags`, then `child` copied into it.
    Link { child: u64, flags: u64, table: u64 },
}

/// The next thing the copy needs done.
#[derive(Debug, Clone, Copy, PartialEq, Eq, Structural)]
pub enum CopyStep {
    /// Read entry `index` of the table at physical address `table`, which is at
    /// `level` (the root table, at level 4, is the one the copy started from).
    ReadEntry { level: u16, table: u64, index: usize },
    /// Create an empty table and report its physical address.
    NewTable,
    /// Store `entry` at `index` of the table at physical address `table`.
    WriteEntry { table: u64, index: usize, entry: u64 },
    /// The whole hierarchy has been copied.
    Done,
}

/// The deep copy of a four-level page-table hierarchy, as a state machine:
/// the entries of each table are copied in order, and an entry that points to
/// a lower-level table is given a new table, linked before the lower table is
/// copied into it.
#[derive(Debug, Clone)]
pub struct PageTableCopy {
    /// The tables being copied, from the root down to the current one.
    pub stack: Vec<TableCursor>,
    pub phase: CopyPhase,
}

/// Moves past the current entry of the innermost table; a table whose last
/// entry is passed is done, and its parent moves past the entry that pointed
/// to it.
pub open spec fn move_past_entry(stack: Seq<TableCursor>) -> Seq<TableCursor>
    decreases stack.len(),
{
    if stack.len() == 0 {
        stack
    } else if stack.last().index + 1 < ENTRIES_PER_TABLE {
        stack.update(
            stack.len() - 1,
            TableCursor { index: (stack.last().index + 1) as usize, ..stack.last() },
        )
    } else {
        move_past_entry(stack.drop_last())
    }
}

/// A stack of tables that the copy can reach: at most four tables, the
/// root at level 4 and each next one a level lower, each at an entry of it.
pub open spec fn cursors_wf(stack: Seq<TableCursor>) -> bool {
    &&& stack.len() <= 4
    &&& forall|k: int| 0 <= k < stack.len() ==> (#[trigger] stack[k]).level == 4 - k
    &&& forall|k: int| 0 <= k < stack.len() ==> (#[trigger] stack[k]).index < ENTRIES_PER_TABLE
}

proof fn lemma_move_past_entry_wf(stack: Seq<TableCursor>)
    requires
        cursors_wf(stack),
    ensures
        cursors_wf(move_past_entry(stack)),
        move_past_entry(stack).len() <= stack.len(),
    decreases stack.len(),
{
    if stack.len() > 0 && stack.last().index + 1 >= ENTRIES_PER_TABLE {
        let rest = stack.drop_last();
        assert(cursors_wf(rest)) by {
            assert forall|k: int| 0 <= k < rest.len() implies (#[trigger] rest[k]).level == 4 - k
                && rest[k].index < ENTRIES_PER_TABLE by {
                assert(rest[k] == stack[k]);
            }
        }
        lemma_move_past_entry_wf(rest);
    } else if stack.len() > 0 {
        let t = move_past_entry(stack);
        assert forall|k: int| 0 <= k < t.len() implies (#[trigger] t[k]).level == 4 - k
            && t[k].index < ENTRIES_PER_TABLE by {
            assert(stack[k].level == 4 - k);
        }
    }
}

/// An upper bound on the steps that copying one entry of a table at `level`
/// takes, the lower tables it points to included: reading it and writing it,
/// or reading it, creating a table, linking it and copying 512 lower entries.
pub open spec fn entry_cost(level: u16) -> int {
    if level <= 1 {
        2
    } else if level == 2 {
        1027
    } else if level == 3 {
        525827
    } else {
        269223427
    }
}

/// The steps still owed for the entries after the current one in every table
/// of the stack.
pub open spec fn stack_cost(stack: Seq<TableCursor>) -> int
    decreases stack.len(),
{
    if stack.len() == 0 {
        0
    } else {
        stack_cost(stack.drop_last()) + (511 - stack.last().index) * entry_cost(stack.last().level)
    }
}

/// The steps still owed for the current entry of a table at `level`.
pub open spec fn phase_cost(phase: CopyPhase, level: u16) -> int {
    match phase {
        CopyPhase::Read => entry_cost(level),
        CopyPhase::Leaf { .. } => 1,
        CopyPhase::NeedTable { .. } => 2 + 512 * entry_cost((level - 1) as u16),
        CopyPhase::Link { .. } => 1 + 512 * entry_cost((level - 1) as u16),
    }
}

proof fn lemma_stack_cost_nonneg(stack: Seq<TableCursor>)
    requires
        cursors_wf(stack),
    ensures
        stack_cost(stack) >= 0,
    decreases stack.len(),
{
    if stack.len() > 0 {
        let rest = stack.drop_last();
        assert(cursors_wf(rest)) by {
            assert forall|k: int| 0 <= k < rest.len() implies (#[trigger] rest[k]).level == 4 - k
                && rest[k].index < ENTRIES_PER_TABLE by {
                assert(rest[k] == stack[k]);
            }
        }
        lemma_stack_cost_nonneg(rest);
        assert(stack.last() == stack[stack.len() - 1]);
        assert((511 - stack.last().index) * entry_cost(stack.last().level) >= 0) by (nonlinear_arith)
            requires
                stack.last().index <= 511,
                entry_cost(stack.last().level) >= 0,
        ;
    }
}

/// Moving past the current entry costs no more than what the stack still owed
/// for the entries after it, once the new current entry is to be read.
proof fn lemma_move_past_cost(stack: Seq<TableCursor>)
    requires
        cursors_wf(stack),
        stack.len() > 0,
    ensures
        stack_cost(move_past_entry(stack)) + (if move_past_entry(stack).len() > 0 {
            entry_cost(move_past_entry(stack).last().level)
        } else {
            0
        }) <= stack_cost(stack),
    decreases stack.len(),
{
    let rest = stack.drop_last();
    let top = stack.last();
    assert(top == stack[stack.len() - 1]);
    assert(cursors_wf(rest)) by {
        assert forall|k: int| 0 <= k < rest.len() implies (#[trigger] rest[k]).level == 4 - k
            && rest[k].index < ENTRIES_PER_TABLE by {
            assert(rest[k] == stack[k]);
        }
    }
    if top.index + 1 < ENTRIES_PER_TABLE {
        let t = move_past_entry(stack);
        assert(t.drop_last() =~= rest);
        assert(t.last().level == top.level);
        assert(t.last().index == top.index + 1);
        assert((511 - top.index) * entry_cost(top.level) == (511 - (top.index + 1)) * entry_cost(
            top.level,
        ) + entry_cost(top.level)) by (nonlinear_arith);
    } else {
        lemma_stack_cost_nonneg(rest);
        if rest.len() > 0 {
            lemma_move_past_cost(rest);
        }
        assert((511 - top.index) * entry_cost(top.level) == 0) by (nonlinear_arith)
            requires
                top.index == 511,
        ;
    }
}

impl PageTableCopy {
    /// How many steps the copy still takes at most.
    pub open spec fn remaining_steps(&self) -> int {
        stack_cost(self.stack@) + if self.stack@.len() > 0 {
            phase_cost(self.phase, self.top().level)
        } else {
            0
        }
    }

    /// The state is one the copy can reach.
    pub open spec fn wf(&self) -> bool {
        &&& cursors_wf(self.stack@)
        &&& self.stack@.len() == 0 ==> self.phase == CopyPhase::Read
        &&& (self.phase is NeedTable || self.phase is Link) ==> self.stack@.len() > 0
            && self.stack@.last().level > 1
    }

    /// The top table: the one whose entry is current.
    pub open spec fn top(&self) -> TableCursor {
        self.stack@.last()
    }

    /// What the copy needs done next.
    pub open spec fn step_spec(&self) -> CopyStep {
        if self.stack@.len() == 0 {
            CopyStep::Done
        } else {
            match self.phase {
                CopyPhase::Read => CopyStep::ReadEntry {
                    level: self.top().level,
                    table: self.top().source,
                    index: self.top().index,
                },
                CopyPhase::Leaf { entry } => CopyStep::WriteEntry {
                    table: self.top().target,
                    index: self.top().index,
                    entry,
                },
                CopyPhase::NeedTable { .. } => CopyStep::NewTable,
                CopyPhase::Link { flags, table, .. } => CopyStep::WriteEntry {
                    table: self.top().target,
                    index: self.top().index,
                    entry: make_entry(table, flags),
                },
            }
        }
    }

    /// Starts the copy of the root table at physical address `source` into the
    /// empty root table at `target`.
    pub fn new(source: u64, target: u64) -> (r: Self)
        ensures
            r.wf(),
            r.stack@ == seq![TableCursor { level: 4, source, target, index: 0 }],
            r.phase == CopyPhase::Read,
            r.remaining_steps() == 512 * entry_cost(4),
    {
        let mut stack: Vec<TableCursor> = Vec::new();
        stack.push(TableCursor { level: 4, source, target, index: 0 });
        let r = PageTableCopy { stack, phase: CopyPhase::Read };
        assert(r.stack@ =~= seq![TableCursor { level: 4, source, target, index: 0 }]);
        assert(r.stack@.drop_last() =~= Seq::<TableCursor>::empty());
        assert(stack_cost(r.stack@) == stack_cost(Seq::<TableCursor>::empty()) + 511 * entry_cost(4));
        r
    }

    /// What the copy needs done next.
    pub fn next_step(&self) -> (r: CopyStep)
        requires
            self.wf(),
        ensures
            r == self.step_spec(),
    {
        let n = self.stack.len();
        if n == 0 {
            return CopyStep::Done;
        }
        let top = self.stack[n - 1];
        match self.phase {
            CopyPhase::Read => CopyStep::ReadEntry { level: top.level, table: top.source, index: top.index },
            CopyPhase::Leaf { entry } => CopyStep::WriteEntry { table: top.target, index: top.index, entry },
            CopyPhase::NeedTable { .. } => CopyStep::NewTable,
            CopyPhase::Link { flags, table, .. } => CopyStep::WriteEntry {
                table: top.target,
                index: top.index,
                entry: table | flags,
            },
        }
    }

    fn move_past(&mut self)
        requires
            old(self).wf(),
        ensures
            final(self).stack@ == move_past_entry(old(self).stack@),
            final(self).phase == old(self).phase,
    {
        proof {
            lemma_move_past_entry_wf(self.stack@);
        }
        while self.stack.len() > 0
            invariant
                move_past_entry(self.stack@) == move_past_entry(old(self).stack@),
                self.phase == old(self).phase,
            decreases self.stack.len(),
        {
            let n = self.stack.len();
            let top = self.stack[n - 1];
            if top.index < ENTRIES_PER_TABLE - 1 {
                self.stack.set(n - 1, TableCursor { index: top.index + 1, ..top });
                return;
            }
            let ghost before = self.stack@;
            self.stack.pop();
            assert(self.stack@ =~= before.drop_last());
        }
    }

    /// Takes the current entry of the source table, as the `ReadEntry` step
    /// read it: an unused entry is passed over; an entry that maps a frame is
    /// to be written as it is; an entry that points to a table needs a new table.
    pub fn entry_read(&mut self, entry: u64)
        requires
            old(self).wf(),
            old(self).stack@.len() > 0,
            old(self).phase == CopyPhase::Read,
        ensures
            final(self).wf(),
            0 <= final(self).remaining_steps() < old(self).remaining_steps(),
            match entry_copy_spec(entry, old(self).top().level) {
                EntryCopy::Unused => final(self).stack@ == move_past_entry(old(self).stack@)
                    && final(self).phase == CopyPhase::Read,
                EntryCopy::Leaf { entry } => final(self).stack@ == old(self).stack@
                    && final(self).phase == (CopyPhase::Leaf { entry }),
                EntryCopy::Table { child, flags } => final(self).stack@ == old(self).stack@
                    && final(self).phase == (CopyPhase::NeedTable { child, flags }),
            },
    {
        let n = self.stack.len();
        let level = self.stack[n - 1].level;
        proof {
            lemma_stack_cost_nonneg(self.stack@);
            assert(self.top() == self.stack@[n - 1]);
            assert(1 <= level <= 4);
        }
        match copy_entry_action(entry, level) {
            EntryCopy::Unused => {
                self.move_past();
                proof {
                    lemma_move_past_entry_wf(old(self).stack@);
                    lemma_move_past_cost(old(self).stack@);
                    lemma_stack_cost_nonneg(self.stack@);
                }
            },
            EntryCopy::Leaf { entry } => {
                self.phase = CopyPhase::Leaf { entry };
            },
            EntryCopy::Table { child, flags } => {
                self.phase = CopyPhase::NeedTable { child, flags };
            },
        }
    }

    /// Takes the physical address of the empty table that the `NewTable` step
    /// created; it must be 4 KiB-aligned, as an entry's `set_addr` demands.
    pub fn table_created(&mut self, table: u64)
        requires
            old(self).wf(),
            old(self).phase is NeedTable,
            table % 4096 == 0,
        ensures
            final(self).wf(),
            0 <= final(self).remaining_steps() < old(self).remaining_steps(),
            final(self).stack@ == old(self).stack@,
            final(self).phase == (CopyPhase::Link {
                child: old(self).phase->NeedTable_child,
                flags: old(self).phase->NeedTable_flags,
                table,
            }),
    {
        proof {
            lemma_stack_cost_nonneg(self.stack@);
            assert(self.top() == self.stack@[self.stack@.len() - 1]);
        }
        match self.phase {
            CopyPhase::NeedTable { child, flags } => {
                self.phase = CopyPhase::Link { child, flags, table };
            },
            _ => {},
        }
    }

    /// Notes that the `WriteEntry` step was done: after a frame-mapping entry
    /// the copy moves past it; after linking a new table it goes on with the
    /// lower table, from its first entry, copied into the new one.
    pub fn entry_written(&mut self)
        requires
            old(self).wf(),
            old(self).stack@.len() > 0,
            old(self).phase is Leaf || old(self).phase is Link,
        ensures
            final(self).wf(),
            0 <= final(self).remaining_steps() < old(self).remaining_steps(),
            final(self).phase == CopyPhase::Read,
            old(self).phase is Leaf ==> final(self).stack@ == move_past_entry(old(self).stack@),
            old(self).phase is Link ==> final(self).stack@ == old(self).stack@.push(
                TableCursor {
                    level: (old(self).top().level - 1) as u16,
                    source: old(self).phase->Link_child,
                    target: old(self).phase->Link_table,
                    index: 0,
                },
            ),
    {
        proof {
            lemma_stack_cost_nonneg(self.stack@);
            assert(self.top() == self.stack@[self.stack@.len() - 1]);
        }
        match self.phase {
            CopyPhase::Leaf { .. } => {
                self.phase = CopyPhase::Read;
                self.move_past();
                proof {
                    lemma_move_past_entry_wf(old(self).stack@);
                    lemma_move_past_cost(old(self).stack@);
                    lemma_stack_cost_nonneg(self.stack@);
                }
            },
            CopyPhase::Link { child, table, .. } => {
                let n = self.stack.len();
                let level = self.stack[n - 1].level;
                self.stack.push(TableCursor { level: level - 1, source: child, target: table, index: 0 });
                self.phase = CopyPhase::Read;
                proof {
                    let s = self.stack@;
                    assert forall|k: int| 0 <= k < s.len() implies (#[trigger] s[k]).level == 4 - k
                        && s[k].index < ENTRIES_PER_TABLE by {
                        if k < n {
                            assert(s[k] == old(self).stack@[k]);
                        }
                    }
                    assert(s.drop_last() =~= old(self).stack@);
                    assert(s.last().level == level - 1);
                    assert(stack_cost(s) == stack_cost(old(self).stack@) + 511 * entry_cost(
                        (level - 1) as u16,
                    ));
                    lemma_stack_cost_nonneg(s);
                }
            },
            _ => {},
        }
    }
}

// ---------------------------------------------------------------------------
// Page ranges
// ---------------------------------------------------------------------------

/// The first and the last 4 KiB page of the `size` bytes that start at the
/// canonical virtual address `start`: the pages that contain `start` and
/// `start + size - 1`, each address formed as `VirtAddr` arithmetic forms it.
pub fn page_range(start: u64, size: u64) -> (r: (u64, u64))
    requires
        is_canonical(start),
        start + size <= u64::MAX,
        virt_addr_valid((start + size) as u64),
        virt_canonical((start + size) as u64) >= 1,
        virt_addr_valid((virt_canonical((start + size) as u64) - 1) as u64),
    ensures
        r.0 == align_down_4k(start as int),
        r.1 == align_down_4k(virt_canonical((virt_canonical((start + size) as u64) - 1) as u64)),
{
    let past_end = virt_addr_new(start + size);
    let end = virt_addr_new(past_end - 1);
    assert(virt_addr_valid(start) && virt_canonical(start) == start);
    let first = virt_page_containing(start);
    let last = virt_page_containing(end);
    assert(virt_canonical(end) == end);
    (first, last)
}

/// The start of the highest 4 KiB page of the address space.
pub const LAST_PAGE: u64 = 0xffff_ffff_ffff_f000;

/// The position of the canonical, 4 KiB aligned address `page` among all pages
/// of the address space, in ascending order: the lower half comes first, and
/// the upper half follows it without a gap.
pub open spec fn page_rank(page: u64) -> int {
    if page < 0x8000_0000_0000 {
        page as int / 4096
    } else {
        (page - 0xffff_8000_0000_0000) / 4096 + 0x8_0000_0000
    }
}

/// The page that follows the canonical page `page` (below `LAST_PAGE`): the one
/// 4 KiB higher, where the top page of the lower half is followed by the first
/// page of the upper half.
pub open spec fn page_after(page: u64) -> u64 {
    if page == 0x7fff_ffff_f000 {
        0xffff_8000_0000_0000
    } else {
        (page + 4096) as u64
    }
}

/// A canonical, 4 KiB aligned virtual address.
pub open spec fn is_page(page: u64) -> bool {
    is_canonical(page) && page % 4096 == 0
}

/// A walk over the 4 KiB pages of a range of virtual memory, one page at a
/// time, in which each page is given a fresh frame; the walk stops at the
/// first page for which no frame could be had. It steps as `x86_64`'s
/// inclusive page range steps: from a page below the last page of the address
/// space to the next one, and at that last page by lowering the range's end.
pub struct PageRun {
    next: u64,
    last: u64,
    stopped: bool,
}

impl PageRun {
    /// The page the walk is at.
    pub closed spec fn next(&self) -> u64 {
        self.next
    }

    /// The range's last page.
    pub closed spec fn last(&self) -> u64 {
        self.last
    }

    /// Whether a page went without a frame, which ends the walk.
    pub closed spec fn stopped(&self) -> bool {
        self.stopped
    }

    /// The walk's pages are canonical and aligned.
    pub open spec fn wf(&self) -> bool {
        is_page(self.next()) && is_page(self.last())
    }

    /// The page that is to be mapped next, if any.
    pub open spec fn pending(&self) -> Option<u64> {
        if !self.stopped() && self.next() <= self.last() {
            Some(self.next())
        } else {
            None
        }
    }

    /// How many pages are still to be mapped.
    pub open spec fn pages_left(&self) -> int {
        if self.pending() is Some {
            page_rank(self.last()) - page_rank(self.next()) + 1
        } else {
            0
        }
    }

    /// The walk over the pages that hold the `size` bytes from the canonical
    /// address `start`, from the first such page to the last (see
    /// `page_range`); with `size` zero the last page lies below the first
    /// and there is nothing to map.
    pub fn new(start: u64, size: u64) -> (r: Self)
        requires
            is_canonical(start),
            start + size <= u64::MAX,
            virt_addr_valid((start + size) as u64),
            virt_canonical((start + size) as u64) >= 1,
            virt_addr_valid((virt_canonical((start + size) as u64) - 1) as u64),
        ensures
            r.wf(),
            !r.stopped(),
            r.next() == align_down_4k(start as int),
            r.last() == align_down_4k(
                virt_canonical((virt_canonical((start + size) as u64) - 1) as u64),
            ),
    {
        let (first, last) = page_range(start, size);
        proof {
            lemma_aligned_canonical_is_page(start);
            let end = virt_canonical((virt_canonical((start + size) as u64) - 1) as u64);
            lemma_canonical_of_valid((virt_canonical((start + size) as u64) - 1) as u64);
            lemma_aligned_canonical_is_page(end as u64);
        }
        PageRun { next: first, last, stopped: false }
    }

    /// The page that is to be mapped next: `None` once the walk has passed the
    /// range's last page or has stopped.
    pub fn next_page(&self) -> (r: Option<u64>)
        ensures
            r == self.pending(),
    {
        if !self.stopped && self.next <= self.last {
            Some(self.next)
        } else {
            None
        }
    }

    /// Records whether a frame could be had for the pending page. With one,
    /// the walk moves on by one page and the call answers `Ok`; without one,
    /// the walk stops where it is and the call answers `Err`.
    pub fn frame_given(&mut self, got: bool) -> (r: Result<(), ()>)
        requires
            old(self).wf(),
            old(self).pending() is Some,
        ensures
            final(self).wf(),
            r is Ok <==> got,
            final(self).stopped() == !got,
            got && old(self).next() < LAST_PAGE ==> final(self).next() == page_after(old(self).next())
                && final(self).last() == old(self).last(),
            got && old(self).next() >= LAST_PAGE ==> final(self).next() == old(self).next()
                && final(self).last() == (old(self).last() - 4096) as u64,
            !got ==> final(self).next() == old(self).next() && final(self).last() == old(self).last(),
            got ==> final(self).pages_left() == old(self).pages_left() - 1,
    {
        if !got {
            self.stopped = true;
            return Err(());
        }
        proof {
            lemma_page_step(self.next, self.last);
        }
        if self.next < LAST_PAGE {
            self.next = virt_page_containing(self.next + 4096);
        } else {
            self.last = virt_page_containing(self.last - 4096);
        }
        Ok(())
    }
}

/// A `ReadEntry` step names the level of the table it reads, which is that of
/// the innermost table of the copy: 4 for the root table the copy started
/// from, and one less for each table below it.
pub proof fn read_step_names_table_level(copy: PageTableCopy)
    requires
        copy.wf(),
        copy.stack@.len() > 0,
        copy.phase == CopyPhase::Read,
    ensures
        copy.step_spec() is ReadEntry,
        copy.step_spec()->ReadEntry_level == 5 - copy.stack@.len(),
        copy.step_spec()->ReadEntry_level == copy.stack@[copy.stack@.len() - 1].level,
        copy.step_spec()->ReadEntry_table == copy.stack@[copy.stack@.len() - 1].source,
        copy.step_spec()->ReadEntry_index == copy.stack@[copy.stack@.len() - 1].index,
        copy.stack@.len() == 1 ==> copy.step_spec() == (CopyStep::ReadEntry {
            level: 4,
            table: copy.stack@[0].source,
            index: copy.stack@[0].index,
        }),
{
}

/// A canonical address aligned down to 4 KiB is still canonical.
proof fn lemma_aligned_canonical_is_page(addr: u64)
    requires
        is_canonical(addr),
    ensures
        is_page(align_down_4k(addr as int) as u64),
        align_down_4k(addr as int) >= 0,
{
}

/// The canonical form of a valid address is canonical.
proof fn lemma_canonical_of_valid(addr: u64)
    requires
        virt_addr_valid(addr),
    ensures
        0 <= virt_canonical(addr) <= u64::MAX,
        is_canonical(virt_canonical(addr) as u64),
{
}

/// One step of a walk from page `next` towards page `last`: the step's
/// address is valid, lands on the following page, and that page is one rank
/// further on; at the top of the address space, lowering the end is valid
/// and leaves the walk with nothing to map.
proof fn lemma_page_step(next: u64, last: u64)
    requires
        is_page(next),
        is_page(last),
        next <= last,
    ensures
        next < LAST_PAGE ==> {
            &&& virt_addr_valid((next + 4096) as u64)
            &&& align_down_4k(virt_canonical((next + 4096) as u64)) == page_after(next)
            &&& is_page(page_after(next))
            &&& page_rank(page_after(next)) == page_rank(next) + 1
            &&& page_rank(next) <= page_rank(last)
            &&& (page_after(next) <= last <==> page_rank(next) < page_rank(last))
        },
        next >= LAST_PAGE ==> {
            &&& next == last
            &&& last == LAST_PAGE
            &&& virt_addr_valid((last - 4096) as u64)
            &&& align_down_4k(virt_canonical((last - 4096) as u64)) == last - 4096
            &&& is_page((last - 4096) as u64)
            &&& (last - 4096) < next
        },
{
}

// ---------------------------------------------------------------------------
// Frame allocation
// ---------------------------------------------------------------------------

/// The kinds of physical memory the boot loader reports.
#[derive(Debug, Clone, Copy, PartialEq, Eq, Structural)]
pub enum MemoryRegionKind {
    /// Unused conventional memory, free for the kernel.
    Usable,
    /// Memory that the boot loader's own mappings occupy.
    Bootloader,
    /// A region the UEFI firmware reported, with its memory type tag.
    UnknownUefi(u32),
    /// A region the BIOS reported, with its E820 memory type.
    UnknownBios(u32),
}

/// A region of physical memory: `start` inclusive, `end` exclusive.
#[derive(Debug, Clone, Copy, PartialEq, Eq, Structural)]
pub struct MemoryRegion {
    pub start: u64,
    pub end: u64,
    pub kind: MemoryRegionKind,
}

/// How many frame addresses a region yields: those of `start`, `start + 4096`,
/// ... below `end`, for a usable region; none for any other.
pub open spec fn region_frame_count(r: MemoryRegion) -> nat {
    if r.kind == MemoryRegionKind::Usable && r.start < r.end {
        ((r.end - r.start - 1) / 4096 + 1) as nat
    } else {
        0
    }
}

/// The frame addresses that one region yields, in order.
pub open spec fn region_frames(r: MemoryRegion) -> Seq<int> {
    Seq::new(region_frame_count(r), |k: int| r.start + k * 4096)
}

/// The addresses, region after region, that stepping through every usable
/// region in 4 KiB steps visits.
pub open spec fn usable_addresses(regions: Seq<MemoryRegion>) -> Seq<int>
    decreases regions.len(),
{
    if regions.len() == 0 {
        Seq::empty()
    } else {
        usable_addresses(regions.drop_last()) + region_frames(regions.last())
    }
}

/// The frame that the allocator hands out as its `n`-th: the frame that
/// contains the `n`-th usable address, or none once they are used up.
pub open spec fn nth_frame(regions: Seq<MemoryRegion>, n: int) -> Option<u64> {
    if 0 <= n < usable_addresses(regions).len() {
        Some(align_down_4k(usable_addresses(regions)[n]) as u64)
    } else {
        None
    }
}

/// The `n`-th frame can be formed: it exists only if its address is a
/// physical address (`PhysAddr::new` panics on any other).
pub open spec fn nth_frame_formable(regions: Seq<MemoryRegion>, n: int) -> bool {
    0 <= n < usable_addresses(regions).len() ==> usable_addresses(regions)[n] < PHYS_ADDR_LIMIT
}

proof fn lemma_region_frames_bounds(r: MemoryRegion, k: int)
    requires
        0 <= k < region_frame_count(r),
    ensures
        r.start <= region_frames(r)[k] < r.end,
        r.kind == MemoryRegionKind::Usable,
{
    let d: int = r.end - r.start - 1;
    assert(k <= d / 4096);
    assert(k * 4096 <= d) by (nonlinear_arith)
        requires
            k <= d / 4096,
            d >= 0,
            k >= 0,
    ;
    assert(k * 4096 >= 0) by (nonlinear_arith)
        requires
            k >= 0,
    ;
}

proof fn lemma_usable_addresses_take_step(regions: Seq<MemoryRegion>, i: int)
    requires
        0 <= i < regions.len(),
    ensures
        usable_addresses(regions.take(i + 1)) == usable_addresses(regions.take(i)) + region_frames(
            regions[i],
        ),
{
    assert(regions.take(i + 1).drop_last() =~= regions.take(i));
}

proof fn lemma_usable_addresses_prefix(regions: Seq<MemoryRegion>, j: int, k: int)
    requires
        0 <= j <= regions.len(),
        0 <= k < usable_addresses(regions.take(j)).len(),
    ensures
        k < usable_addresses(regions).len(),
        usable_addresses(regions)[k] == usable_addresses(regions.take(j))[k],
    decreases regions.len(),
{
    if j == regions.len() {
        assert(regions.take(j) =~= regions);
    } else {
        let rest = regions.drop_last();
        assert(rest.take(j) =~= regions.take(j));
        lemma_usable_addresses_prefix(rest, j, k);
    }
}

/// Every address in the usable sequence lies inside a usable region: the
/// `n`-th is `k` steps of 4 KiB into region `i`, where `n` counts the
/// addresses of the regions before `i` plus `k`.
pub proof fn usable_addresses_in_usable_regions(regions: Seq<MemoryRegion>, n: int)
    requires
        0 <= n < usable_addresses(regions).len(),
    ensures
        exists|i: int, k: int|
            0 <= i < regions.len() && regions[i].kind == MemoryRegionKind::Usable && 0 <= k
                < region_frame_count(regions[i]) && n == usable_addresses(regions.take(i)).len() + k
                && usable_addresses(regions)[n] == #[trigger] step_addr(regions[i], k)
                && usable_addresses(regions)[n] < regions[i].end,
    decreases regions.len(),
{
    let rest = regions.drop_last();
    let before = usable_addresses(rest).len();
    if n < before {
        usable_addresses_in_usable_regions(rest, n);
        let (i, k) = choose|i: int, k: int|
            0 <= i < rest.len() && rest[i].kind == MemoryRegionKind::Usable && 0 <= k
                < region_frame_count(rest[i]) && n == usable_addresses(rest.take(i)).len() + k
                && usable_addresses(rest)[n] == #[trigger] step_addr(rest[i], k)
                && usable_addresses(rest)[n] < rest[i].end;
        assert(regions[i] == rest[i]);
        assert(rest.take(i) =~= regions.take(i));
        assert(usable_addresses(regions)[n] == step_addr(regions[i], k));
    } else {
        lemma_region_frames_bounds(regions.last(), n - before);
        let i = regions.len() - 1;
        assert(regions[i] == regions.last());
        assert(regions.take(i) =~= rest);
        assert(usable_addresses(regions)[n] == step_addr(regions[i], n - before));
    }
}

/// The address `k` steps of 4 KiB after the start of region `r`.
pub open spec fn step_addr(r: MemoryRegion, k: int) -> int {
    r.start + k * 4096
}

/// No two usable regions overlap.
pub open spec fn usable_regions_disjoint(regions: Seq<MemoryRegion>) -> bool {
    forall|i: int, j: int|
        0 <= i < regions.len() && 0 <= j < regions.len() && i != j && regions[i].kind
            == MemoryRegionKind::Usable && regions[j].kind == MemoryRegionKind::Usable ==> (
        #[trigger] regions[i].end <= #[trigger] regions[j].start || regions[j].end
            <= regions[i].start)
}

/// Every usable region starts on a 4 KiB boundary.
pub open spec fn usable_regions_aligned(regions: Seq<MemoryRegion>) -> bool {
    forall|i: int|
        0 <= i < regions.len() && #[trigger] regions[i].kind == MemoryRegionKind::Usable
            ==> regions[i].start % 4096 == 0
}

/// Over usable regions that do not overlap, different positions of the usable
/// sequence hold different addresses.
pub proof fn usable_addresses_distinct(regions: Seq<MemoryRegion>, m: int, n: int)
    requires
        usable_regions_disjoint(regions),
        0 <= m < usable_addresses(regions).len(),
        0 <= n < usable_addresses(regions).len(),
        m != n,
    ensures
        usable_addresses(regions)[m] != usable_addresses(regions)[n],
{
    usable_addresses_in_usable_regions(regions, m);
    usable_addresses_in_usable_regions(regions, n);
    let (i, k) = choose|i: int, k: int|
        0 <= i < regions.len() && regions[i].kind == MemoryRegionKind::Usable && 0 <= k
            < region_frame_count(regions[i]) && m == usable_addresses(regions.take(i)).len() + k
            && usable_addresses(regions)[m] == #[trigger] step_addr(regions[i], k)
            && usable_addresses(regions)[m] < regions[i].end;
    let (j, l) = choose|j: int, l: int|
        0 <= j < regions.len() && regions[j].kind == MemoryRegionKind::Usable && 0 <= l
            < region_frame_count(regions[j]) && n == usable_addresses(regions.take(j)).len() + l
            && usable_addresses(regions)[n] == #[trigger] step_addr(regions[j], l)
            && usable_addresses(regions)[n] < regions[j].end;
    assert(k * 4096 >= 0 && l * 4096 >= 0) by (nonlinear_arith)
        requires
            k >= 0,
            l >= 0,
    ;
    if i == j {
        assert(k != l);
        assert(step_addr(regions[i], k) != step_addr(regions[i], l)) by (nonlinear_arith)
            requires
                k != l,
        ;
    } else {
        assert(regions[i].end <= regions[j].start || regions[j].end <= regions[i].start);
    }
}

/// The frames that successive calls of `allocate_frame` hand out, from a
/// fresh allocator over `regions` on: the `i`-th call finds the frame that
/// contains the `i`-th usable address, or none once they are used up.
pub open spec fn allocations(regions: Seq<MemoryRegion>, count: nat) -> Seq<Option<u64>> {
    Seq::new(count, |i: int| nth_frame(regions, i))
}

/// What the allocator hands out, call after call: every frame contains an
/// address of a usable region; once a call finds no frame, every later call
/// finds none; and over page-aligned usable regions that do not overlap, no
/// frame is handed out twice.
pub proof fn allocations_law(regions: Seq<MemoryRegion>, count: nat)
    ensures
        forall|i: int|
            0 <= i < count && #[trigger] allocations(regions, count)[i] is Some ==> exists|r: int, a: int|
                #![trigger regions[r], align_down_4k(a)]
                0 <= r < regions.len() && regions[r].kind == MemoryRegionKind::Usable
                    && regions[r].start <= a < regions[r].end && allocations(regions, count)[i]
                    == Some(align_down_4k(a) as u64),
        forall|i: int, j: int|
            0 <= i < j < count && (#[trigger] allocations(regions, count)[i]) is None
                ==> (#[trigger] allocations(regions, count)[j]) is None,
        usable_regions_aligned(regions) && usable_regions_disjoint(regions) ==> forall|i: int, j: int|
            0 <= i < count && 0 <= j < count && i != j && (#[trigger] allocations(regions, count)[i])
                is Some ==> allocations(regions, count)[i] != #[trigger] allocations(regions, count)[j],
{
    assert forall|i: int|
        0 <= i < count && #[trigger] allocations(regions, count)[i] is Some implies exists|r: int, a: int|
        #![trigger regions[r], align_down_4k(a)]
        0 <= r < regions.len() && regions[r].kind == MemoryRegionKind::Usable && regions[r].start <= a
            < regions[r].end && allocations(regions, count)[i] == Some(
            align_down_4k(a) as u64,
        ) by {
        allocated_frame_is_usable(regions, i);
    }
    if usable_regions_aligned(regions) && usable_regions_disjoint(regions) {
        assert forall|i: int, j: int|
            0 <= i < count && 0 <= j < count && i != j && (#[trigger] allocations(regions, count)[i])
                is Some implies allocations(regions, count)[i] != #[trigger] allocations(
            regions,
            count,
        )[j] by {
            if allocations(regions, count)[j] is Some {
                allocated_frames_distinct(regions, i, j);
            }
        }
    }
}

/// Over a memory map whose usable regions are page-aligned and do not
/// overlap, the allocator never hands out the same frame twice.
pub proof fn allocated_frames_distinct(regions: Seq<MemoryRegion>, m: int, n: int)
    requires
        usable_regions_disjoint(regions),
        usable_regions_aligned(regions),
        nth_frame(regions, m) is Some,
        nth_frame(regions, n) is Some,
        m != n,
    ensures
        nth_frame(regions, m) != nth_frame(regions, n),
{
    lemma_frame_aligned(regions, m);
    lemma_frame_aligned(regions, n);
    usable_addresses_distinct(regions, m, n);
}

proof fn lemma_frame_aligned(regions: Seq<MemoryRegion>, n: int)
    requires
        usable_regions_aligned(regions),
        0 <= n < usable_addresses(regions).len(),
    ensures
        usable_addresses(regions)[n] % 4096 == 0,
        0 <= usable_addresses(regions)[n] < u64::MAX,
        align_down_4k(usable_addresses(regions)[n]) == usable_addresses(regions)[n],
{
    usable_addresses_in_usable_regions(regions, n);
    let (i, k) = choose|i: int, k: int|
        0 <= i < regions.len() && regions[i].kind == MemoryRegionKind::Usable && 0 <= k
            < region_frame_count(regions[i]) && n == usable_addresses(regions.take(i)).len() + k
            && usable_addresses(regions)[n] == #[trigger] step_addr(regions[i], k)
            && usable_addresses(regions)[n] < regions[i].end;
    let s = regions[i].start as int;
    assert(s % 4096 == 0);
    assert((s + k * 4096) % 4096 == 0) by (nonlinear_arith)
        requires
            s % 4096 == 0,
            k >= 0,
            s >= 0,
    ;
    assert(k * 4096 >= 0) by (nonlinear_arith)
        requires
            k >= 0,
    ;
}

/// The allocator's `j`-th frame exists and can be formed.
pub open spec fn frame_formable_at(regions: Seq<MemoryRegion>, j: int) -> bool {
    0 <= j < usable_addresses(regions).len() && usable_addresses(regions)[j] < PHYS_ADDR_LIMIT
}

/// The frame the allocator hands out `k` calls from now.
pub open spec fn frame_ahead(frames: BootInfoFrameAllocator, k: int) -> int {
    align_down_4k(usable_addresses(frames.regions())[frames.next_index() + k])
}

/// A frame allocator that hands out, one after the other, the frames of the
/// usable regions of the boot loader's memory map.
pub struct BootInfoFrameAllocator {
    memory_map: Vec<MemoryRegion>,
    /// How many calls of `allocate_frame` there have been, and what each found.
    progress: (usize, Ghost<Seq<Option<u64>>>),
}

impl BootInfoFrameAllocator {
    /// The frames found so far are those that the calls so far hand out.
    #[verifier::type_invariant]
    spec fn calls_so_far(&self) -> bool {
        self.progress.1@ == allocations(self.memory_map@, self.progress.0 as nat)
    }

    /// The memory map the allocator draws from.
    pub closed spec fn regions(&self) -> Seq<MemoryRegion> {
        self.memory_map@
    }

    /// How many frames the allocator has handed out so far (counting the
    /// calls that found none left).
    pub closed spec fn next_index(&self) -> nat {
        self.progress.0 as nat
    }

    /// What each call of `allocate_frame` so far returned, in order.
    pub closed spec fn handed_out(&self) -> Seq<Option<u64>> {
        self.progress.1@
    }

    /// The next `count` calls of `allocate_frame` will each return a frame.
    pub open spec fn has_frames(&self, count: nat) -> bool {
        &&& self.next_index() + count < usize::MAX
        &&& forall|j: int|
            self.next_index() <= j < self.next_index() + count ==> #[trigger] frame_formable_at(
                self.regions(),
                j,
            )
    }

    /// Creates an allocator for the given memory map, starting at its first
    /// usable frame. The usable regions must really be unused.
    pub fn init(memory_map: Vec<MemoryRegion>) -> (r: Self)
        ensures
            r.regions() == memory_map@,
            r.next_index() == 0,
            r.handed_out() == Seq::<Option<u64>>::empty(),
    {
        let ghost m = memory_map@;
        let progress = (0usize, Ghost(Seq::<Option<u64>>::empty()));
        assert(allocations(m, 0) =~= Seq::<Option<u64>>::empty());
        BootInfoFrameAllocator { memory_map, progress }
    }

    /// The `n`-th address of the usable sequence, if there is one.
    fn usable_address(&self, n: u64) -> (r: Option<u64>)
        ensures
            match r {
                Some(a) => n < usable_addresses(self.regions()).len() && a == usable_addresses(
                    self.regions(),
                )[n as int],
                None => n >= usable_addresses(self.regions()).len(),
            },
    {
        let mut i: usize = 0;
        let mut rem: u64 = n;
        while i < self.memory_map.len()
            invariant
                0 <= i <= self.memory_map.len(),
                rem + usable_addresses(self.memory_map@.take(i as int)).len() == n,
            decreases self.memory_map.len() - i,
        {
            let region = self.memory_map[i];
            proof {
                lemma_usable_addresses_take_step(self.memory_map@, i as int);
            }
            let usable = match region.kind {
                MemoryRegionKind::Usable => true,
                _ => false,
            };
            if usable && region.start < region.end {
                let count: u64 = (region.end - region.start - 1) / 4096 + 1;
                if rem < count {
                    proof {
                        let d: int = region.end - region.start - 1;
                        assert(rem * 4096 <= d) by (nonlinear_arith)
                            requires
                                rem <= d / 4096,
                                d >= 0,
                        ;
                        lemma_usable_addresses_prefix(
                            self.memory_map@,
                            i + 1,
                            usable_addresses(self.memory_map@.take(i as int)).len() + rem,
                        );
                    }
                    return Some(region.start + rem * 4096);
                }
                rem = rem - count;
            }
            i = i + 1;
        }
        assert(self.memory_map@.take(i as int) =~= self.memory_map@);
        None
    }

    /// Whether the next `count` calls of `allocate_frame` will each return a frame.
    pub fn can_allocate(&self, count: usize) -> (r: bool)
        ensures
            r == self.has_frames(count as nat),
    {
        if count >= usize::MAX - self.progress.0 {
            return false;
        }
        let mut j: usize = 0;
        while j < count
            invariant
                self.progress.0 + count < usize::MAX,
                0 <= j <= count,
                forall|i: int|
                    self.next_index() <= i < self.next_index() + j ==> #[trigger] frame_formable_at(
                        self.regions(),
                        i,
                    ),
            decreases count - j,
        {
            match self.usable_address((self.progress.0 + j) as u64) {
                Some(a) => {
                    if a >= PHYS_ADDR_LIMIT {
                        assert(!frame_formable_at(self.regions(), self.next_index() + j));
                        return false;
                    }
                },
                None => {
                    assert(!frame_formable_at(self.regions(), self.next_index() + j));
                    return false;
                },
            }
            j = j + 1;
        }
        true
    }

    /// The frame that the call of `allocate_frame` `k` calls from now hands out.
    pub fn peek_frame(&self, k: usize) -> (r: u64)
        requires
            self.next_index() + k < usable_addresses(self.regions()).len(),
            self.next_index() + k < usize::MAX,
            usable_addresses(self.regions())[self.next_index() + k] < PHYS_ADDR_LIMIT,
        ensures
            r == frame_ahead(*self, k as int),
    {
        let a = self.usable_address((self.progress.0 + k) as u64).unwrap();
        phys_frame_containing(a)
    }

    /// Whether `allocate_frame` may be called now: the count of calls has room
    /// to grow and the next frame, if there is one, is a physical address.
    pub fn allocate_frame_defined(&self) -> (r: bool)
        ensures
            r == (self.next_index() < usize::MAX && nth_frame_formable(
                self.regions(),
                self.next_index() as int,
            )),
    {
        if self.progress.0 == usize::MAX {
            return false;
        }
        match self.usable_address(self.progress.0 as u64) {
            Some(a) => a < PHYS_ADDR_LIMIT,
            None => true,
        }
    }

    /// The `n`-th of the frames that the usable regions yield in 4 KiB steps,
    /// region after region: the frame that contains the `n`-th usable
    /// address, or `None` past the last one. That address must be a physical
    /// address.
    pub fn usable_frames(&self, n: u64) -> (r: Option<u64>)
        requires
            nth_frame_formable(self.regions(), n as int),
        ensures
            r == nth_frame(self.regions(), n as int),
    {
        match self.usable_address(n) {
            Some(addr) => Some(phys_frame_containing(addr)),
            None => None,
        }
    }

    /// Hands out the next usable frame, as the start address of that frame, or
    /// `None` once the usable regions are used up; either way the allocator
    /// moves on by one.
    pub fn allocate_frame(&mut self) -> (r: Option<u64>)
        requires
            old(self).next_index() < usize::MAX,
            nth_frame_formable(old(self).regions(), old(self).next_index() as int),
        ensures
            r == nth_frame(old(self).regions(), old(self).next_index() as int),
            final(self).regions() == old(self).regions(),
            final(self).next_index() == old(self).next_index() + 1,
            final(self).handed_out() == old(self).handed_out().push(r),
            final(self).handed_out() == allocations(final(self).regions(), final(self).next_index()),
    {
        proof {
            use_type_invariant(&*self);
        }
        let frame = self.usable_frames(self.progress.0 as u64);
        let ghost found = self.progress.1@.push(frame);
        assert(found =~= allocations(self.memory_map@, (self.progress.0 + 1) as nat));
        self.progress = (self.progress.0 + 1, Ghost(found));
        frame
    }
}

impl Clone for BootInfoFrameAllocator {
    /// A copy of the allocator, at the same point of the same memory map.
    fn clone(&self) -> (r: Self)
        ensures
            r.regions() == self.regions(),
            r.next_index() == self.next_index(),
            r.handed_out() == self.handed_out(),
    {
        proof {
            use_type_invariant(self);
        }
        let mut memory_map: Vec<MemoryRegion> = Vec::new();
        let mut i: usize = 0;
        while i < self.memory_map.len()
            invariant
                0 <= i <= self.memory_map@.len(),
                memory_map@ == self.memory_map@.take(i as int),
            decreases self.memory_map.len() - i,
        {
            memory_map.push(self.memory_map[i]);
            i = i + 1;
            assert(memory_map@ =~= self.memory_map@.take(i as int));
        }
        assert(self.memory_map@.take(i as int) =~= self.memory_map@);
        BootInfoFrameAllocator { memory_map, progress: self.progress }
    }
}

/// A frame allocator that has no frames.
pub struct EmptyFrameAllocator;

impl EmptyFrameAllocator {
    /// Always finds no frame.
    pub fn allocate_frame(&mut self) -> (r: Option<u64>)
        ensures
            r.is_none(),
    {
        None
    }
}

/// A frame that the allocator hands out contains an address of a usable
/// region of its memory map.
pub proof fn allocated_frame_is_usable(regions: Seq<MemoryRegion>, n: int)
    requires
        nth_frame(regions, n) is Some,
    ensures
        exists|i: int, a: int|
            0 <= i < regions.len() && regions[i].kind == MemoryRegionKind::Usable && regions[i].start
                <= a < regions[i].end && nth_frame(regions, n) == Some(align_down_4k(a) as u64),
{
    usable_addresses_in_usable_regions(regions, n);
    let a = usable_addresses(regions)[n];
    let (i, k) = choose|i: int, k: int|
        0 <= i < regions.len() && regions[i].kind == MemoryRegionKind::Usable && 0 <= k
            < region_frame_count(regions[i]) && n == usable_addresses(regions.take(i)).len() + k
            && usable_addresses(regions)[n] == #[trigger] step_addr(regions[i], k)
            && usable_addresses(regions)[n] < regions[i].end;
    assert(k * 4096 >= 0) by (nonlinear_arith)
        requires
            k >= 0,
    ;
    assert(0 <= i < regions.len() && regions[i].kind == MemoryRegionKind::Usable
        && regions[i].start <= a < regions[i].end && nth_frame(regions, n) == Some(
        align_down_4k(a) as u64,
    ));
}

} // verus!

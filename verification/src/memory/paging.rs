//! 32-bit non-PAE paging: a page directory, page tables, and an identity map.
//!
//! Turning paging on is a one-way door: once `CR0.PG` is set every access is
//! translated through the tables `CR3` points at, and anything not present
//! faults. So the tables must cover everything the kernel already uses
//! before that bit flips. Virtual == physical for every mapped page, with one
//! deliberate hole: the 4 KiB stack guard page below the kernel stack stays
//! not-present, so a stack overflow faults instead of scribbling over the
//! double-fault stack beneath it.
//!
//! ```text
//! CR3 -> page directory (1024 x 4-byte entries, one per 4 MiB)
//!          -> page table  (1024 x 4-byte entries, one per 4 KiB)
//!               -> physical frame
//! ```
//!
//! This module plans the map: it works out how far to map, takes the
//! directory and table frames from [`super::frame`], and says what every
//! entry holds. Writing the entries, loading `CR3` and setting `CR0.PG` are
//! register and memory stores that the caller performs; [`finish`] turns
//! what the CPU reads back into the report.
use vstd::prelude::*;

use super::frame::{Frame, FrameAllocator, FRAME_SIZE};
use super::map::{MemoryMap, Region};

verus! {

/// Present bit: the translation is valid. Without it the CPU raises #PF.
pub const PRESENT: u32 = 1;

/// Read/write bit: the page is writable.
pub const WRITABLE: u32 = 2;

/// Flags every identity-mapped kernel page gets.
pub const KERNEL_PAGE: u32 = 3;

/// Entries in a page directory or a page table.
pub const ENTRIES: usize = 1024;

/// Bytes one page-directory entry covers: 4 MiB.
pub const BYTES_PER_DIRECTORY_ENTRY: u32 = 0x40_0000;

/// `CR0` bit 31 - paging enable.
pub const CR0_PG: u32 = 0x8000_0000;

/// Highest identity-map end that still fits below the 4 GiB line.
pub const MAP_CEILING: u64 = 0x1_0000_0000 - 0x40_0000;

/// What [`finish`] found, printed on the boot banner.
#[derive(Clone, Copy)]
pub struct Report {
    /// Physical address of the page directory, also the value in `CR3`.
    cr3: u32,
    /// One past the last identity-mapped byte. Always a multiple of 4 MiB.
    mapped_end: u32,
    /// Page tables hung off the directory (one per 4 MiB of mapped space).
    page_tables: usize,
    /// Whether `CR0.PG` reads back as set after the enable sequence.
    paging_enabled: bool,
    /// Start of the deliberately unmapped stack guard page, or 0.
    stack_guard: u32,
}

impl View for Report {
    /// `(cr3, mapped_end, page_tables, paging_enabled, stack_guard)`.
    type V = (u32, u32, usize, bool, u32);

    closed spec fn view(&self) -> Self::V {
        (self.cr3, self.mapped_end, self.page_tables, self.paging_enabled, self.stack_guard)
    }
}

impl Report {
    /// The report of a setup that could not build an identity map.
    pub fn failed() -> (r: Report)
        ensures
            r@ == (0u32, 0u32, 0usize, false, 0u32),
    {
        Report { cr3: 0, mapped_end: 0, page_tables: 0, paging_enabled: false, stack_guard: 0 }
    }

    /// Physical address of the active page directory (`CR3`).
    pub fn cr3(self) -> (v: u32)
        ensures
            v == self@.0,
    {
        self.cr3
    }

    /// Exclusive end of the identity-mapped window.
    pub fn mapped_end(self) -> (v: u32)
        ensures
            v == self@.1,
    {
        self.mapped_end
    }

    /// How many 4 MiB page tables were installed.
    pub fn page_tables(self) -> (v: usize)
        ensures
            v == self@.2,
    {
        self.page_tables
    }

    /// Whether paging is actually on, per `CR0`.
    pub fn paging_enabled(self) -> (v: bool)
        ensures
            v == self@.3,
    {
        self.paging_enabled
    }

    /// Start address of the unmapped stack guard page.
    pub fn stack_guard(self) -> (v: u32)
        ensures
            v == self@.4,
    {
        self.stack_guard
    }
}

/// The highest end, capped at 4 GiB, among the usable regions of the first
/// `n`, or 0.
pub open spec fn usable_top(rs: Seq<Region>, n: int) -> int
    decreases n,
{
    if n <= 0 {
        0
    } else {
        let rest = usable_top(rs, n - 1);
        let capped = if rs[n - 1].end_spec() < 0x1_0000_0000 {
            rs[n - 1].end_spec() as int
        } else {
            0x1_0000_0000
        };
        if rs[n - 1].usable() && capped > rest {
            capped
        } else {
            rest
        }
    }
}

/// Exclusive end of the identity map for a machine whose usable memory ends
/// at `top`: `top` rounded up to a 4 MiB boundary, capped just below 4 GiB,
/// or 0 when nothing is usable.
pub open spec fn map_end_for(top: int) -> int {
    if top == 0 {
        0
    } else {
        let rounded = (top + 0x3f_ffff) / 0x40_0000 * 0x40_0000;
        if rounded < MAP_CEILING {
            rounded
        } else {
            MAP_CEILING as int
        }
    }
}

/// Exclusive end of the window to identity-map: the highest usable byte below
/// 4 GiB, rounded up to the next 4 MiB boundary so it lands on a
/// page-directory entry boundary. Mapping the holes under that ceiling too
/// keeps the VGA buffer at 0xb8000, in the legacy hole, reachable.
pub fn identity_map_end(map: &MemoryMap) -> (end: u32)
    ensures
        end == map_end_for(usable_top(map.regions_spec(), map.regions_spec().len() as int)),
        end % BYTES_PER_DIRECTORY_ENTRY == 0,
{
    let regions = map.regions();
    let mut end: u64 = 0;
    let mut i: usize = 0;
    while i < regions.len()
        invariant
            i <= regions@.len(),
            regions@ == map.regions_spec(),
            end == usable_top(regions@, i as int),
            end <= 0x1_0000_0000,
        decreases regions@.len() - i,
    {
        if regions[i].is_usable() {
            let region_end = regions[i].end();
            let capped = if region_end < 0x1_0000_0000 {
                region_end
            } else {
                0x1_0000_0000
            };
            if capped > end {
                end = capped;
            }
        }
        i += 1;
    }
    if end == 0 {
        return 0;
    }
    let rounded = (end + 0x3f_ffff) / 0x40_0000 * 0x40_0000;
    let capped = if rounded < MAP_CEILING {
        rounded
    } else {
        MAP_CEILING
    };
    capped as u32
}

/// The frames an identity map is built from, and what it covers.
pub struct Plan {
    directory: Frame,
    tables: Vec<Frame>,
    mapped_end: u32,
    stack_guard: u32,
}

impl Plan {
    pub closed spec fn directory_spec(&self) -> Frame {
        self.directory
    }

    pub closed spec fn tables_spec(&self) -> Seq<Frame> {
        self.tables@
    }

    pub closed spec fn mapped_end_spec(&self) -> int {
        self.mapped_end as int
    }

    pub closed spec fn stack_guard_spec(&self) -> int {
        self.stack_guard as int
    }

    /// The page directory's frame.
    pub fn directory(&self) -> (f: Frame)
        ensures
            f == self.directory_spec(),
    {
        self.directory
    }

    /// The page tables' frames, one per 4 MiB of the window.
    pub fn tables(&self) -> (t: &[Frame])
        ensures
            t@ == self.tables_spec(),
    {
        self.tables.as_slice()
    }

    /// Exclusive end of the identity-mapped window.
    pub fn mapped_end(&self) -> (e: u32)
        ensures
            e == self.mapped_end_spec(),
    {
        self.mapped_end
    }

    /// The page left not-present.
    pub fn stack_guard(&self) -> (g: u32)
        ensures
            g == self.stack_guard_spec(),
    {
        self.stack_guard
    }
}

/// Plans an identity map covering every usable frame below 4 GiB, with
/// `stack_guard` left unmapped: takes one frame for the directory and one
/// per page table from `frames`, in that order. `None` when nothing is
/// usable or the frames run out; frames already taken stay taken, since a
/// half-built map is a boot failure either way.
pub fn plan(frames: &mut FrameAllocator, map: &MemoryMap, stack_guard: u32) -> (p: Option<Plan>)
    requires
        old(frames).wf(),
    ensures
        final(frames).wf(),
        ({
            let end = map_end_for(usable_top(map.regions_spec(), map.regions_spec().len() as int));
            (p is Some) == (end > 0 && old(frames).obtainable() >= 1 + end
                / BYTES_PER_DIRECTORY_ENTRY as int)
        }),
        p is Some ==> {
            let pl = p->0;
            &&& pl.mapped_end_spec() == map_end_for(
                usable_top(map.regions_spec(), map.regions_spec().len() as int),
            )
            &&& pl.mapped_end_spec() > 0
            &&& pl.tables_spec().len() == pl.mapped_end_spec() / BYTES_PER_DIRECTORY_ENTRY as int
            &&& pl.stack_guard_spec() == stack_guard
        },
        final(frames).same_pool(*old(frames)),
        forall|j: int| old(frames).live(j) ==> final(frames).live(j),
        p is Some ==> {
            let pl = p->0;
            let d = pl.directory_spec()@;
            &&& !old(frames).live(d) && final(frames).live(d)
            &&& forall|i: int|
                0 <= i < pl.tables_spec().len() ==> !old(frames).live(#[trigger] pl.tables_spec()[i]@)
                    && final(frames).live(pl.tables_spec()[i]@) && pl.tables_spec()[i]@ != d
            &&& forall|i: int, j: int|
                0 <= i < j < pl.tables_spec().len() ==> #[trigger] pl.tables_spec()[i]@
                    != #[trigger] pl.tables_spec()[j]@
        },
{
    let ghost a0 = *frames;
    let mapped_end = identity_map_end(map);
    if mapped_end == 0 {
        proof {
            FrameAllocator::lemma_same_pool_reflexive(a0);
        }
        return None;
    }
    let page_table_count = (mapped_end / BYTES_PER_DIRECTORY_ENTRY) as usize;
    let ghost a1 = *frames;
    assert(a1 == a0);
    let got = frames.allocate();
    proof {
        FrameAllocator::lemma_same_pool(*frames, a1, a1);
        FrameAllocator::lemma_same_pool_reflexive(a0);
        FrameAllocator::lemma_allocate_fresh(a1, *frames, got);
        FrameAllocator::lemma_allocate_obtainable(a1, *frames, got);
    }
    let directory = match got {
        Some(f) => f,
        None => {
            return None;
        },
    };
    let mut tables: Vec<Frame> = Vec::new();
    let mut i: usize = 0;
    while i < page_table_count
        invariant
            frames.wf(),
            frames.same_pool(a0),
            a0 == *old(frames),
            a0.wf(),
            i <= page_table_count,
            page_table_count == mapped_end / BYTES_PER_DIRECTORY_ENTRY,
            mapped_end == map_end_for(usable_top(map.regions_spec(), map.regions_spec().len() as int)),
            tables@.len() == i,
            frames.obtainable() == a0.obtainable() - 1 - i,
            frames.obtainable() >= 0,
            forall|j: int| a0.live(j) ==> frames.live(j),
            !a0.live(directory@) && frames.live(directory@),
            forall|k: int|
                0 <= k < tables@.len() ==> !a0.live(#[trigger] tables@[k]@) && frames.live(
                    tables@[k]@,
                ) && tables@[k]@ != directory@,
            forall|k: int, m: int|
                0 <= k < m < tables@.len() ==> #[trigger] tables@[k]@ != #[trigger] tables@[m]@,
        decreases page_table_count - i,
    {
        let ghost before = *frames;
        let got = frames.allocate();
        proof {
            FrameAllocator::lemma_same_pool(*frames, before, a0);
            FrameAllocator::lemma_same_pool(before, a0, a0);
            FrameAllocator::lemma_allocate_fresh(before, *frames, got);
            FrameAllocator::lemma_allocate_obtainable(before, *frames, got);
        }
        match got {
            Some(f) => tables.push(f),
            None => {
                proof {
                    assert(before.obtainable() == 0);
                    assert(a0.obtainable() == 1 + i);
                    assert(i < mapped_end / BYTES_PER_DIRECTORY_ENTRY);
                    assert(mapped_end / BYTES_PER_DIRECTORY_ENTRY == (mapped_end as int) / (
                    BYTES_PER_DIRECTORY_ENTRY as int));
                }
                return None;
            },
        }
        i += 1;
    }
    proof {
        assert(mapped_end / BYTES_PER_DIRECTORY_ENTRY == (mapped_end as int) / (
        BYTES_PER_DIRECTORY_ENTRY as int));
    }
    Some(Plan { directory, tables, mapped_end, stack_guard })
}

/// Physical address of page `page_index` of page table `table_index` in the
/// identity map.
pub open spec fn page_address(table_index: int, page_index: int) -> int {
    table_index * 0x40_0000 + page_index * 4096
}

/// The page-table entry for page `page_index` of table `table_index`: the
/// page's own address, present and writable, or `None` for the guard page,
/// which stays not-present.
pub fn page_entry(table_index: usize, page_index: usize, stack_guard: u32) -> (e: Option<u32>)
    requires
        table_index < ENTRIES,
        page_index < ENTRIES,
    ensures
        e == if page_address(table_index as int, page_index as int) == stack_guard {
            None
        } else {
            Some((page_address(table_index as int, page_index as int) + KERNEL_PAGE) as u32)
        },
{
    let phys: u32 = (table_index as u32) * BYTES_PER_DIRECTORY_ENTRY + (page_index as u32) * FRAME_SIZE;
    if phys == stack_guard {
        return None;
    }
    assert(phys % 4096 == 0 ==> phys | 3u32 == phys + 3) by (bit_vector);
    Some(phys | KERNEL_PAGE)
}

/// The page-directory entry naming page table `table`: its address, present
/// and writable.
pub fn directory_entry(table: Frame) -> (e: u32)
    ensures
        e == table@ * 4096 + KERNEL_PAGE,
{
    let a = table.start_address();
    assert(a % 4096 == 0);
    assert(a % 4096 == 0 ==> a | 3u32 == a + 3) by (bit_vector);
    a | KERNEL_PAGE
}

/// Directory index and table index of the page holding `virt`.
pub fn entry_indices(virt: u32) -> (ix: (usize, usize))
    ensures
        ix.0 == virt / 0x40_0000,
        ix.1 == (virt % 0x40_0000) / 4096,
        ix.0 < ENTRIES,
        ix.1 < ENTRIES,
{
    ((virt / BYTES_PER_DIRECTORY_ENTRY) as usize, ((virt % BYTES_PER_DIRECTORY_ENTRY) / FRAME_SIZE) as usize)
}

/// Whether a directory or table entry has its present bit set.
pub fn entry_present(entry: u32) -> (b: bool)
    ensures
        b == (entry % 2 == 1),
{
    assert(entry & 1u32 == entry % 2) by (bit_vector);
    entry & PRESENT != 0
}

/// Frame of the page table a present directory entry names.
pub fn entry_frame(entry: u32) -> (f: Frame)
    ensures
        f@ == entry / 4096,
{
    assert(entry & !0xfffu32 == entry / 4096 * 4096) by (bit_vector);
    Frame::containing_address(entry & !(FRAME_SIZE - 1))
}

/// Whether `cr0` has paging switched on.
pub fn paging_bit(cr0: u32) -> (b: bool)
    ensures
        b == (cr0 >= CR0_PG),
{
    assert(cr0 & 0x8000_0000u32 != 0 <==> cr0 >= 0x8000_0000u32) by (bit_vector);
    cr0 & CR0_PG != 0
}

/// The report once the map in `plan` was written and paging switched on:
/// `active_cr3` is what `CR3` reads back, `enabled` whether `CR0.PG` does,
/// and `guard_present` whether the guard page's entry came out present.
pub fn finish(plan: &Plan, active_cr3: u32, enabled: bool, guard_present: bool) -> (r: Report)
    ensures
        r@ == (
            active_cr3,
            plan.mapped_end_spec() as u32,
            plan.tables_spec().len() as usize,
            enabled && active_cr3 == plan.directory_spec()@ * 4096 && !guard_present,
            if guard_present {
                0u32
            } else {
                plan.stack_guard_spec() as u32
            },
        ),
{
    let cr3 = plan.directory.start_address();
    Report {
        cr3: active_cr3,
        mapped_end: plan.mapped_end,
        page_tables: plan.tables.len(),
        paging_enabled: enabled && active_cr3 == cr3 && !guard_present,
        stack_guard: if guard_present {
            0
        } else {
            plan.stack_guard
        },
    }
}

} // verus!

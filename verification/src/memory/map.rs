//! The BIOS memory map, as handed over by the bootloader.
//!
//! The boot sector walks `INT 15h, EAX=E820h` while still in real mode and
//! writes the raw entries to a fixed low-memory block, because that call is
//! unavailable the moment the CPU enters protected mode. [`load`] is the other
//! end of that agreement: it validates the block's bytes and presents the
//! entries as [`Region`]s.
//!
//! The block's layout, all little-endian:
//!
//! ```text
//! +0   u32  signature ("GOAT"), written before the walk starts
//! +4   u32  number of entries stored
//! +8        entries, 24 bytes each: u64 base, u64 length, u32 type,
//!           u32 ACPI 3.0 extended attributes
//! ```
use vstd::prelude::*;

verus! {

/// Physical address of the handoff block.
pub const HANDOFF_ADDR: usize = 0x500;

/// Marks the block as one the bootloader actually wrote ("GOAT").
pub const SIGNATURE: u32 = 0x5441_4f47;

/// How many entries the bootloader has room for.
pub const MAX_ENTRIES: usize = 32;

/// Byte offset of the first entry within the block.
pub const ENTRIES_OFFSET: usize = 8;

/// Size of one raw E820 entry.
pub const ENTRY_SIZE: usize = 24;

/// Bytes of the whole handoff block: header plus room for every entry.
pub const HANDOFF_LEN: usize = 776;

/// What the BIOS says a region is for, in E820's numbering. Anything outside
/// it is [`RegionKind::Unknown`], which is never usable.
#[derive(Clone, Copy, PartialEq, Eq, Debug, Structural)]
pub enum RegionKind {
    Usable,
    Reserved,
    AcpiReclaimable,
    AcpiNvs,
    BadMemory,
    Unknown(u32),
}

impl RegionKind {
    /// The kind E820 type number `raw` denotes.
    pub open spec fn of_raw(raw: u32) -> RegionKind {
        if raw == 1 {
            RegionKind::Usable
        } else if raw == 2 {
            RegionKind::Reserved
        } else if raw == 3 {
            RegionKind::AcpiReclaimable
        } else if raw == 4 {
            RegionKind::AcpiNvs
        } else if raw == 5 {
            RegionKind::BadMemory
        } else {
            RegionKind::Unknown(raw)
        }
    }

    pub fn from_raw(raw: u32) -> (kind: RegionKind)
        ensures
            kind == RegionKind::of_raw(raw),
    {
        match raw {
            1 => RegionKind::Usable,
            2 => RegionKind::Reserved,
            3 => RegionKind::AcpiReclaimable,
            4 => RegionKind::AcpiNvs,
            5 => RegionKind::BadMemory,
            other => RegionKind::Unknown(other),
        }
    }
}

/// One contiguous physical address range, as the BIOS described it. Addresses
/// are 64-bit and kept as reported.
#[derive(Clone, Copy, Debug)]
pub struct Region {
    /// First byte of the region.
    pub base: u64,
    /// Size in bytes. Never zero for a region [`load`] keeps.
    pub length: u64,
    /// What the BIOS says the region is.
    pub kind: RegionKind,
}

/// `a + b`, saturating at the top of the 64-bit range.
pub open spec fn sat_add_u64(a: u64, b: u64) -> u64 {
    if a + b > u64::MAX {
        u64::MAX
    } else {
        (a + b) as u64
    }
}

impl Region {
    /// One past the last byte, saturating rather than wrapping.
    pub open spec fn end_spec(self) -> u64 {
        sat_add_u64(self.base, self.length)
    }

    pub open spec fn usable(self) -> bool {
        self.kind == RegionKind::Usable
    }

    /// One past the last byte of the region, saturating so that a region
    /// running off the end of the address space cannot wrap to a low address.
    pub fn end(&self) -> (e: u64)
        ensures
            e == self.end_spec(),
    {
        self.base.saturating_add(self.length)
    }

    /// Whether the kernel is free to use this memory.
    pub fn is_usable(&self) -> (b: bool)
        ensures
            b == self.usable(),
    {
        self.kind == RegionKind::Usable
    }
}

/// The machine's physical memory layout, as [`load`] found it.
pub struct MemoryMap {
    regions: Vec<Region>,
    /// How many entries the bootloader said it stored, which can exceed the
    /// number kept.
    reported: usize,
    available: bool,
}

/// Little-endian `u32` at byte offset `off` of `b`.
pub open spec fn le_u32(b: Seq<u8>, off: int) -> int {
    b[off] + b[off + 1] * 0x100 + b[off + 2] * 0x1_0000 + b[off + 3] * 0x100_0000
}

/// Little-endian `u64` at byte offset `off` of `b`.
pub open spec fn le_u64(b: Seq<u8>, off: int) -> int {
    le_u32(b, off) + le_u32(b, off + 4) * 0x1_0000_0000
}

/// Byte offset of entry `i` within the block.
pub open spec fn entry_offset(i: int) -> int {
    ENTRIES_OFFSET + i * ENTRY_SIZE
}

/// Whether raw entry `i` is one to keep: non-empty, and not marked "ignore
/// this entry" by a clear bit 0 in its ACPI 3.0 attributes.
pub open spec fn entry_kept(b: Seq<u8>, i: int) -> bool {
    le_u64(b, entry_offset(i) + 8) != 0 && le_u32(b, entry_offset(i) + 20) % 2 == 1
}

/// Raw entry `i`, as a region.
pub open spec fn entry_region(b: Seq<u8>, i: int) -> Region {
    Region {
        base: le_u64(b, entry_offset(i)) as u64,
        length: le_u64(b, entry_offset(i) + 8) as u64,
        kind: RegionKind::of_raw(le_u32(b, entry_offset(i) + 16) as u32),
    }
}

/// The regions kept from the first `n` raw entries, in order.
pub open spec fn kept_regions(b: Seq<u8>, n: int) -> Seq<Region>
    decreases n,
{
    if n <= 0 {
        Seq::empty()
    } else if entry_kept(b, n - 1) {
        kept_regions(b, n - 1).push(entry_region(b, n - 1))
    } else {
        kept_regions(b, n - 1)
    }
}

/// Number of entries the block claims to hold, if its signature is right.
pub open spec fn block_count(b: Seq<u8>) -> int {
    le_u32(b, 4)
}

/// Whether the block carries the bootloader's signature.
pub open spec fn block_signed(b: Seq<u8>) -> bool {
    le_u32(b, 0) == SIGNATURE
}

proof fn lemma_kept_len(b: Seq<u8>, n: int)
    ensures
        kept_regions(b, n).len() <= if n < 0 { 0 } else { n },
    decreases n,
{
    if n > 0 {
        lemma_kept_len(b, n - 1);
    }
}

fn read_u32(b: &[u8], off: usize) -> (v: u32)
    requires
        off + 4 <= b@.len(),
    ensures
        v == le_u32(b@, off as int),
{
    (b[off] as u32) + (b[off + 1] as u32) * 0x100 + (b[off + 2] as u32) * 0x1_0000 + (b[off
        + 3] as u32) * 0x100_0000
}

fn read_u64(b: &[u8], off: usize) -> (v: u64)
    requires
        off + 8 <= b@.len(),
    ensures
        v == le_u64(b@, off as int),
{
    let _n = b.len();
    let lo = read_u32(b, off);
    let hi = read_u32(b, off + 4);
    (lo as u64) + (hi as u64) * 0x1_0000_0000
}

impl MemoryMap {
    #[verifier::type_invariant]
    spec fn inv(self) -> bool {
        self.regions@.len() <= MAX_ENTRIES
    }

    /// The kept regions, in the order the BIOS reported them.
    pub closed spec fn regions_spec(self) -> Seq<Region> {
        self.regions@
    }

    pub closed spec fn reported_spec(self) -> int {
        self.reported as int
    }

    pub closed spec fn available_spec(self) -> bool {
        self.available
    }

    /// A map with no regions and no handoff behind it.
    pub fn empty() -> (map: MemoryMap)
        ensures
            map.regions_spec().len() == 0,
            map.reported_spec() == 0,
            !map.available_spec(),
    {
        MemoryMap { regions: Vec::new(), reported: 0, available: false }
    }

    /// Whether the bootloader handed over a map at all.
    pub fn available(&self) -> (b: bool)
        ensures
            b == self.available_spec(),
    {
        self.available
    }

    /// How many entries the bootloader said it stored.
    pub fn reported(&self) -> (n: usize)
        ensures
            n == self.reported_spec(),
    {
        self.reported
    }

    /// Whether the BIOS reported more regions than the handoff block can hold.
    pub fn truncated(&self) -> (b: bool)
        ensures
            b == (self.reported_spec() > MAX_ENTRIES),
    {
        self.reported > MAX_ENTRIES
    }

    /// The regions, in the order the BIOS reported them.
    pub fn regions(&self) -> (r: &[Region])
        ensures
            r@ == self.regions_spec(),
            r@.len() <= MAX_ENTRIES,
    {
        proof {
            use_type_invariant(self);
        }
        self.regions.as_slice()
    }

    /// Total bytes of usable memory, saturating.
    pub fn total_usable(&self) -> (total: u64)
        ensures
            total == usable_total(self.regions_spec(), self.regions_spec().len() as int),
    {
        let regions = self.regions();
        let mut total: u64 = 0;
        let mut i: usize = 0;
        while i < regions.len()
            invariant
                i <= regions@.len(),
                regions@ == self.regions_spec(),
                total == usable_total(regions@, i as int),
            decreases regions@.len() - i,
        {
            if regions[i].is_usable() {
                total = total.saturating_add(regions[i].length);
            }
            i += 1;
        }
        total
    }

    /// Highest address the BIOS mentioned at all, or 0 for an empty map.
    pub fn highest_address(&self) -> (top: u64)
        ensures
            top == highest_end(self.regions_spec(), self.regions_spec().len() as int),
    {
        let regions = self.regions();
        let mut top: u64 = 0;
        let mut i: usize = 0;
        while i < regions.len()
            invariant
                i <= regions@.len(),
                regions@ == self.regions_spec(),
                top == highest_end(regions@, i as int),
            decreases regions@.len() - i,
        {
            let end = regions[i].end();
            if end > top {
                top = end;
            }
            i += 1;
        }
        top
    }
}

/// Saturating sum of the lengths of the usable regions among the first `n`.
pub open spec fn usable_total(rs: Seq<Region>, n: int) -> u64
    decreases n,
{
    if n <= 0 {
        0
    } else if rs[n - 1].usable() {
        sat_add_u64(usable_total(rs, n - 1), rs[n - 1].length)
    } else {
        usable_total(rs, n - 1)
    }
}

/// Only memory E820 reports as type 1 is usable: a region is usable exactly
/// when its kind is [`RegionKind::Usable`], which is what type number 1, and
/// no other, denotes; reserved memory, ACPI tables (reclaimable or not), bad
/// memory and unknown types are all left alone.
pub proof fn lemma_usable_is_type_1(r: Region, raw: u32)
    ensures
        r.usable() <==> r.kind == RegionKind::Usable,
        (Region { base: r.base, length: r.length, kind: RegionKind::of_raw(raw) }).usable() <==> raw
            == 1,
        RegionKind::of_raw(2) == RegionKind::Reserved,
        RegionKind::of_raw(3) == RegionKind::AcpiReclaimable,
        RegionKind::of_raw(4) == RegionKind::AcpiNvs,
        RegionKind::of_raw(5) == RegionKind::BadMemory,
        raw > 5 || raw == 0 ==> RegionKind::of_raw(raw) == RegionKind::Unknown(raw),
{
}

/// The usable total counts the length of each type-1 region and nothing
/// else: adding a region adds its length (saturating) when its kind is
/// [`RegionKind::Usable`] and leaves the total as it was otherwise; with no
/// type-1 region among them, the total is 0.
pub proof fn lemma_usable_total_counts_type_1(rs: Seq<Region>, n: int)
    requires
        0 <= n < rs.len(),
    ensures
        usable_total(rs, n + 1) == if rs[n].kind == RegionKind::Usable {
            if usable_total(rs, n) + rs[n].length > u64::MAX {
                u64::MAX as int
            } else {
                usable_total(rs, n) + rs[n].length
            }
        } else {
            usable_total(rs, n) as int
        },
        (forall|k: int| 0 <= k <= n ==> (#[trigger] rs[k]).kind != RegionKind::Usable)
            ==> usable_total(rs, n + 1) == 0,
    decreases n,
{
    if n > 0 {
        lemma_usable_total_counts_type_1(rs, n - 1);
    }
}

/// Largest end address among the first `n` regions, or 0.
pub open spec fn highest_end(rs: Seq<Region>, n: int) -> u64
    decreases n,
{
    if n <= 0 {
        0
    } else if rs[n - 1].end_spec() > highest_end(rs, n - 1) {
        rs[n - 1].end_spec()
    } else {
        highest_end(rs, n - 1)
    }
}

/// Reads the handoff block the bootloader left behind, given as its bytes.
///
/// Never fails: a block without the signature gives an empty map with
/// [`MemoryMap::available`] false. Entries the BIOS marked as ignorable, and
/// zero-length ones, are dropped; at most [`MAX_ENTRIES`] entries are read
/// whatever count the block claims.
pub fn load(block: &[u8]) -> (map: MemoryMap)
    requires
        block@.len() == HANDOFF_LEN,
    ensures
        map.available_spec() == block_signed(block@),
        block_signed(block@) ==> map.reported_spec() == block_count(block@),
        !block_signed(block@) ==> map.reported_spec() == 0,
        map.regions_spec() == if block_signed(block@) {
            kept_regions(
                block@,
                if block_count(block@) < MAX_ENTRIES {
                    block_count(block@)
                } else {
                    MAX_ENTRIES as int
                },
            )
        } else {
            Seq::empty()
        },
{
    let mut map = MemoryMap::empty();
    let signature = read_u32(block, 0);
    if signature != SIGNATURE {
        return map;
    }
    let reported = read_u32(block, 4) as usize;
    let limit = if reported < MAX_ENTRIES {
        reported
    } else {
        MAX_ENTRIES
    };
    let mut regions: Vec<Region> = Vec::new();
    let mut index: usize = 0;
    while index < limit
        invariant
            limit <= MAX_ENTRIES,
            index <= limit,
            block@.len() == HANDOFF_LEN,
            regions@ == kept_regions(block@, index as int),
        decreases limit - index,
    {
        let entry = ENTRIES_OFFSET + index * ENTRY_SIZE;
        let base = read_u64(block, entry);
        let length = read_u64(block, entry + 8);
        let kind = read_u32(block, entry + 16);
        let attributes = read_u32(block, entry + 20);
        assert(attributes & 1 == attributes % 2) by (bit_vector);
        if length == 0 || attributes & 1 == 0 {
            index += 1;
            continue;
        }
        regions.push(Region { base, length, kind: RegionKind::from_raw(kind) });
        index += 1;
    }
    proof {
        lemma_kept_len(block@, limit as int);
    }
    MemoryMap { regions, reported, available: true }
}

} // verus!

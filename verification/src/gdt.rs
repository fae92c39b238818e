//! The Global Descriptor Table: a flat 4 GiB kernel code segment and data
//! segment, and one descriptor for each task-state segment.
//!
//! This module computes the five descriptors; the caller stores them in the
//! table the CPU reads, loads it with `lgdt`, reloads the segment registers
//! and loads the task register.
use vstd::prelude::*;

use super::tss::Location;

verus! {

/// Access byte: present, ring 0, code, executable, readable.
pub const ACCESS_KERNEL_CODE: u8 = 0x9a;

/// Access byte: present, ring 0, data, writable.
pub const ACCESS_KERNEL_DATA: u8 = 0x92;

/// Access byte: present, ring 0, available 32-bit TSS.
pub const ACCESS_TSS_AVAILABLE: u8 = 0x89;

/// Flags nibble: 4 KiB granularity, 32-bit segment.
pub const FLAGS_32BIT_4K: u8 = 0xc;

/// Flags nibble for a TSS: byte granularity.
pub const FLAGS_TSS: u8 = 0;

pub const NULL_INDEX: usize = 0;
pub const KERNEL_CODE_INDEX: usize = 1;
pub const KERNEL_DATA_INDEX: usize = 2;
pub const MAIN_TSS_INDEX: usize = 3;
pub const DOUBLE_FAULT_TSS_INDEX: usize = 4;
pub const ENTRY_COUNT: usize = 5;

/// Selector of the flat kernel code segment.
pub const KERNEL_CODE_SELECTOR: u16 = 0x08;

/// Selector of the flat kernel data segment.
pub const KERNEL_DATA_SELECTOR: u16 = 0x10;

/// Selector of the TSS the kernel normally runs under.
pub const MAIN_TSS_SELECTOR: u16 = 0x18;

/// Selector of the TSS the double-fault task gate switches to.
pub const DOUBLE_FAULT_TSS_SELECTOR: u16 = 0x20;

/// The `limit` field `lgdt` takes: the table's last valid byte's offset.
pub const TABLE_LIMIT: u16 = 5 * 8 - 1;

/// The quadword a segment descriptor with these fields encodes to: the
/// limit and base scattered over the fields x86 keeps them in, with the
/// access byte and the flags nibble between them.
pub open spec fn encoding(base: u32, limit: u32, access: u8, flags: u8) -> int {
    (limit % 0x1_0000) + (base % 0x1_0000) * 0x1_0000 + ((base / 0x1_0000) % 0x100) * 0x1_0000_0000
        + access * 0x100_0000_0000 + ((limit / 0x1_0000) % 0x10) * 0x1_0000_0000_0000 + (flags
        % 0x10) * 0x10_0000_0000_0000 + (base / 0x100_0000) * 0x100_0000_0000_0000
}

/// A segment descriptor, as the quadword the CPU reads.
#[derive(Clone, Copy, PartialEq, Eq, Structural)]
pub struct Descriptor(pub u64);

impl Descriptor {
    /// The null descriptor every GDT starts with.
    pub fn null() -> (d: Descriptor)
        ensures
            d.0 == 0,
    {
        Descriptor(0)
    }

    /// A descriptor for `base`, `limit` (20 bits), `access` and `flags`
    /// (4 bits).
    pub fn new(base: u32, limit: u32, access: u8, flags: u8) -> (d: Descriptor)
        ensures
            d.0 == encoding(base, limit, access, flags),
    {
        let b = base as u64;
        let l = limit as u64;
        let a = access as u64;
        let f = (flags & 0xf) as u64;
        assert(f == flags % 16) by (bit_vector)
            requires
                f == (flags & 0xfu8) as u64,
        ;
        let q = (l & 0xffff) | ((b & 0xffff) << 16) | (((b >> 16) & 0xff) << 32) | (a << 40) | (((l
            >> 16) & 0xf) << 48) | (f << 52) | (((b >> 24) & 0xff) << 56);
        assert(q == (l % 0x1_0000) + (b % 0x1_0000) * 0x1_0000 + ((b / 0x1_0000) % 0x100)
            * 0x1_0000_0000 + a * 0x100_0000_0000 + ((l / 0x1_0000) % 0x10) * 0x1_0000_0000_0000
            + f * 0x10_0000_0000_0000 + (b / 0x100_0000) * 0x100_0000_0000_0000) by (bit_vector)
            requires
                b < 0x1_0000_0000,
                l < 0x1_0000_0000,
                a < 0x100,
                f < 0x10,
                q == (l & 0xffff) | ((b & 0xffff) << 16) | (((b >> 16) & 0xff) << 32) | (a << 40)
                    | (((l >> 16) & 0xf) << 48) | (f << 52) | (((b >> 24) & 0xff) << 56),
        ;
        Descriptor(q)
    }

    /// A flat 4 GiB segment with the given access byte.
    pub fn flat(access: u8) -> (d: Descriptor)
        ensures
            d.0 == encoding(0, 0xfffff, access, FLAGS_32BIT_4K),
    {
        Descriptor::new(0, 0xfffff, access, FLAGS_32BIT_4K)
    }

    /// An available 32-bit TSS descriptor for the segment at `location`.
    pub fn tss(location: &Location) -> (d: Descriptor)
        ensures
            d.0 == encoding(location.base, location.limit, ACCESS_TSS_AVAILABLE, FLAGS_TSS),
    {
        Descriptor::new(location.base, location.limit, ACCESS_TSS_AVAILABLE, FLAGS_TSS)
    }
}

/// The five descriptors, in table order: null, kernel code, kernel data,
/// the main TSS and the double-fault TSS.
pub fn descriptors(main_task: &Location, double_fault_task: &Location) -> (t: Vec<Descriptor>)
    ensures
        t@.len() == ENTRY_COUNT,
        t@[NULL_INDEX as int].0 == 0,
        t@[KERNEL_CODE_INDEX as int].0 == encoding(0, 0xfffff, ACCESS_KERNEL_CODE, FLAGS_32BIT_4K),
        t@[KERNEL_DATA_INDEX as int].0 == encoding(0, 0xfffff, ACCESS_KERNEL_DATA, FLAGS_32BIT_4K),
        t@[MAIN_TSS_INDEX as int].0 == encoding(
            main_task.base,
            main_task.limit,
            ACCESS_TSS_AVAILABLE,
            FLAGS_TSS,
        ),
        t@[DOUBLE_FAULT_TSS_INDEX as int].0 == encoding(
            double_fault_task.base,
            double_fault_task.limit,
            ACCESS_TSS_AVAILABLE,
            FLAGS_TSS,
        ),
{
    let mut t = Vec::new();
    t.push(Descriptor::null());
    t.push(Descriptor::flat(ACCESS_KERNEL_CODE));
    t.push(Descriptor::flat(ACCESS_KERNEL_DATA));
    t.push(Descriptor::tss(main_task));
    t.push(Descriptor::tss(double_fault_task));
    t
}

/// What the CPU has loaded, read back with `sgdt` and the segment registers.
pub struct Loaded {
    pub base: u32,
    pub limit: u16,
    pub cs: u16,
    pub ds: u16,
    pub tr: u16,
}

} // verus!

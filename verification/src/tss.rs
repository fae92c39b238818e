//! Task-state segments: the main one, which the CPU saves the interrupted
//! kernel's registers into, and the double-fault one, whose register image
//! the CPU loads when the double-fault task gate fires - the only way on
//! 32-bit x86 for a handler to run on a stack of its own.
//!
//! This module fills in the register images; the caller keeps them in the
//! memory the GDT's TSS descriptors point at.
use vstd::prelude::*;

use super::gdt;

verus! {

/// Size in bytes of a 32-bit TSS.
pub const TSS_SIZE: u32 = 104;

/// EFLAGS with only the always-one bit 1 set: interrupts stay off in the
/// double-fault task.
pub const DOUBLE_FAULT_EFLAGS: u32 = 2;

/// The architectural fields of a 32-bit TSS (the reserved halves are zero).
#[derive(Clone, Copy, PartialEq, Eq, Structural)]
pub struct TaskStateSegment {
    pub previous_task_link: u16,
    pub esp0: u32,
    pub ss0: u16,
    pub esp1: u32,
    pub ss1: u16,
    pub esp2: u32,
    pub ss2: u16,
    pub cr3: u32,
    pub eip: u32,
    pub eflags: u32,
    pub eax: u32,
    pub ecx: u32,
    pub edx: u32,
    pub ebx: u32,
    pub esp: u32,
    pub ebp: u32,
    pub esi: u32,
    pub edi: u32,
    pub es: u16,
    pub cs: u16,
    pub ss: u16,
    pub ds: u16,
    pub fs: u16,
    pub gs: u16,
    pub ldt_selector: u16,
    pub debug_trap: u16,
    pub iomap_base: u16,
}

impl TaskStateSegment {
    /// The all-zero segment, with the I/O map base past its end (no I/O
    /// permission bitmap).
    pub open spec fn blank() -> TaskStateSegment {
        TaskStateSegment {
            previous_task_link: 0,
            esp0: 0,
            ss0: 0,
            esp1: 0,
            ss1: 0,
            esp2: 0,
            ss2: 0,
            cr3: 0,
            eip: 0,
            eflags: 0,
            eax: 0,
            ecx: 0,
            edx: 0,
            ebx: 0,
            esp: 0,
            ebp: 0,
            esi: 0,
            edi: 0,
            es: 0,
            cs: 0,
            ss: 0,
            ds: 0,
            fs: 0,
            gs: 0,
            ldt_selector: 0,
            debug_trap: 0,
            iomap_base: 104,
        }
    }

    pub fn empty() -> (t: TaskStateSegment)
        ensures
            t == TaskStateSegment::blank(),
    {
        TaskStateSegment {
            previous_task_link: 0,
            esp0: 0,
            ss0: 0,
            esp1: 0,
            ss1: 0,
            esp2: 0,
            ss2: 0,
            cr3: 0,
            eip: 0,
            eflags: 0,
            eax: 0,
            ecx: 0,
            edx: 0,
            ebx: 0,
            esp: 0,
            ebp: 0,
            esi: 0,
            edi: 0,
            es: 0,
            cs: 0,
            ss: 0,
            ds: 0,
            fs: 0,
            gs: 0,
            ldt_selector: 0,
            debug_trap: 0,
            iomap_base: 104,
        }
    }
}

/// Where a TSS lives, for its GDT descriptor.
pub struct Location {
    pub base: u32,
    pub limit: u32,
}

/// The location of a TSS stored at `base`.
pub fn location(base: u32) -> (l: Location)
    ensures
        l.base == base,
        l.limit == TSS_SIZE - 1,
{
    Location { base, limit: TSS_SIZE - 1 }
}

/// The double-fault task's register image: it starts at `entry` on the
/// private stack whose top is `stack_top`, in the kernel's flat segments,
/// with interrupts off.
pub fn double_fault_task_image(entry: u32, stack_top: u32) -> (t: TaskStateSegment)
    ensures
        t == (TaskStateSegment {
            eip: entry,
            esp: stack_top,
            ebp: stack_top,
            esp0: stack_top,
            ss0: gdt::KERNEL_DATA_SELECTOR,
            cs: gdt::KERNEL_CODE_SELECTOR,
            ss: gdt::KERNEL_DATA_SELECTOR,
            ds: gdt::KERNEL_DATA_SELECTOR,
            es: gdt::KERNEL_DATA_SELECTOR,
            fs: gdt::KERNEL_DATA_SELECTOR,
            gs: gdt::KERNEL_DATA_SELECTOR,
            eflags: DOUBLE_FAULT_EFLAGS,
            ..TaskStateSegment::blank()
        }),
{
    let mut t = TaskStateSegment::empty();
    t.eip = entry;
    t.esp = stack_top;
    t.ebp = t.esp;
    t.esp0 = t.esp;
    t.ss0 = gdt::KERNEL_DATA_SELECTOR;
    t.cs = gdt::KERNEL_CODE_SELECTOR;
    t.ss = gdt::KERNEL_DATA_SELECTOR;
    t.ds = gdt::KERNEL_DATA_SELECTOR;
    t.es = gdt::KERNEL_DATA_SELECTOR;
    t.fs = gdt::KERNEL_DATA_SELECTOR;
    t.gs = gdt::KERNEL_DATA_SELECTOR;
    t.eflags = DOUBLE_FAULT_EFLAGS;
    t
}

/// Points both segments at page directory `cr3`, so that a task switch
/// keeps the address space.
pub fn set_page_directory(main: &mut TaskStateSegment, double_fault: &mut TaskStateSegment, cr3: u32)
    ensures
        *final(main) == (TaskStateSegment { cr3, ..*old(main) }),
        *final(double_fault) == (TaskStateSegment { cr3, ..*old(double_fault) }),
{
    main.cr3 = cr3;
    double_fault.cr3 = cr3;
}

/// The interrupted kernel's registers, as the CPU saved them on the switch
/// into the double-fault task.
pub struct InterruptedState {
    pub eip: u32,
    pub cs: u16,
    pub eflags: u32,
    pub esp: u32,
    pub ss: u16,
    pub ebp: u32,
    pub previous_task_link: u16,
}

/// Reads the interrupted state out of the two segments: registers from the
/// main one, the back link from the double-fault one.
pub fn interrupted_state(main: &TaskStateSegment, double_fault: &TaskStateSegment) -> (s:
    InterruptedState)
    ensures
        s.eip == main.eip,
        s.cs == main.cs,
        s.eflags == main.eflags,
        s.esp == main.esp,
        s.ss == main.ss,
        s.ebp == main.ebp,
        s.previous_task_link == double_fault.previous_task_link,
{
    InterruptedState {
        eip: main.eip,
        cs: main.cs,
        eflags: main.eflags,
        esp: main.esp,
        ss: main.ss,
        ebp: main.ebp,
        previous_task_link: double_fault.previous_task_link,
    }
}

} // verus!

//! The Interrupt Descriptor Table: the 256 gates the CPU consults to find
//! where to jump on an exception, a hardware IRQ or a software `int n`.
//!
//! A vector with no gate is "not present": taking it raises a general
//! protection fault, so one stray interrupt is a double fault away. This
//! module keeps the table's contents; the caller mirrors each gate's
//! quadword into the table the CPU reads and loads it with `lidt`.
use vstd::prelude::*;

use super::gdt;

verus! {

/// Vectors are 8-bit, so the table tops out at 256 entries.
pub const ENTRY_COUNT: usize = 256;

/// Present bit of a gate's type/attribute byte.
pub const PRESENT: u8 = 0x80;

/// Gate type nibble for a 32-bit interrupt gate (clears IF on entry).
pub const GATE_32BIT_INTERRUPT: u8 = 0xe;

/// Gate type nibble for a task gate (a hardware task switch).
pub const GATE_TASK: u8 = 0x5;

/// Type/attribute byte of a present ring-0 32-bit interrupt gate.
pub const INTERRUPT_GATE_ATTR: u8 = 0x8e;

/// Type/attribute byte of a present ring-0 task gate.
pub const TASK_GATE_ATTR: u8 = 0x85;

/// Bytes in one gate.
pub const GATE_SIZE: usize = 8;

/// The registers the CPU pushes before entering a handler, lowest address
/// first (same-privilege layout).
#[derive(Clone, Copy)]
pub struct StackFrame {
    /// Address of the interrupted (or faulting) instruction.
    pub eip: u32,
    /// Code segment selector it was running under.
    pub cs: u32,
    /// Flags at the point of interruption.
    pub eflags: u32,
}

/// One 8-byte IDT gate.
#[derive(Clone, Copy, PartialEq, Eq, Structural)]
pub struct Gate {
    pub offset_low: u16,
    pub selector: u16,
    pub reserved: u8,
    pub type_attr: u8,
    pub offset_high: u16,
}

impl Gate {
    /// Whether the entry routes its vector anywhere.
    pub open spec fn present(self) -> bool {
        self.type_attr >= PRESENT
    }

    /// The handler offset the entry names.
    pub open spec fn offset(self) -> int {
        self.offset_high * 0x1_0000 + self.offset_low
    }

    /// The entry of a vector with no handler.
    pub open spec fn missing_spec() -> Gate {
        Gate { offset_low: 0, selector: 0, reserved: 0, type_attr: 0, offset_high: 0 }
    }

    /// A vector with no handler: not present.
    pub fn missing() -> (g: Gate)
        ensures
            g == Gate::missing_spec(),
            !g.present(),
    {
        Gate { offset_low: 0, selector: 0, reserved: 0, type_attr: 0, offset_high: 0 }
    }

    /// A ring-0 32-bit interrupt gate pointing at `offset` within `selector`.
    pub fn interrupt(offset: u32, selector: u16) -> (g: Gate)
        ensures
            g.offset() == offset,
            g.selector == selector,
            g.reserved == 0,
            g.type_attr == INTERRUPT_GATE_ATTR,
            g.present(),
    {
        assert(offset == (offset >> 16u32) * 0x1_0000 + (offset & 0xffffu32)) by (bit_vector);
        assert((offset >> 16u32) < 0x1_0000) by (bit_vector);
        assert((offset & 0xffffu32) < 0x1_0000) by (bit_vector);
        let low = (offset & 0xffff) as u16;
        let high = (offset >> 16) as u16;
        Gate {
            offset_low: low,
            selector,
            reserved: 0,
            type_attr: INTERRUPT_GATE_ATTR,
            offset_high: high,
        }
    }

    /// A ring-0 task gate naming `tss_selector`; where execution resumes
    /// comes from the TSS, not from the entry.
    pub fn task(tss_selector: u16) -> (g: Gate)
        ensures
            g == (Gate {
                offset_low: 0,
                selector: tss_selector,
                reserved: 0,
                type_attr: TASK_GATE_ATTR,
                offset_high: 0,
            }),
            g.present(),
    {
        Gate {
            offset_low: 0,
            selector: tss_selector,
            reserved: 0,
            type_attr: TASK_GATE_ATTR,
            offset_high: 0,
        }
    }

    pub fn is_present(&self) -> (b: bool)
        ensures
            b == self.present(),
    {
        let t = self.type_attr;
        assert(t & 0x80u8 != 0 <==> t >= 0x80u8) by (bit_vector);
        t & PRESENT != 0
    }

    /// The entry as the quadword the CPU reads: offset low, selector,
    /// reserved byte, type/attributes, offset high, from the lowest byte up.
    pub fn to_bits(&self) -> (q: u64)
        ensures
            q == self.offset_low + self.selector * 0x1_0000 + self.reserved * 0x1_0000_0000
                + self.type_attr * 0x100_0000_0000 + self.offset_high * 0x1_0000_0000_0000,
    {
        let ol = self.offset_low as u64;
        let sel = self.selector as u64;
        let res = self.reserved as u64;
        let ta = self.type_attr as u64;
        let oh = self.offset_high as u64;
        assert(ol < 0x1_0000 && sel < 0x1_0000 && res < 0x100 && ta < 0x100 && oh < 0x1_0000 ==> ol
            | (sel << 16u64) | (res << 32u64) | (ta << 40u64) | (oh << 48u64) == ol + sel
            * 0x1_0000 + res * 0x1_0000_0000 + ta * 0x100_0000_0000 + oh * 0x1_0000_0000_0000)
            by (bit_vector);
        ol | (sel << 16) | (res << 32) | (ta << 40) | (oh << 48)
    }
}

/// The 256 gates.
pub struct Table {
    entries: [Gate; 256],
}

impl View for Table {
    type V = Seq<Gate>;

    closed spec fn view(&self) -> Seq<Gate> {
        self.entries@
    }
}

impl Table {
    /// A table with every vector not present.
    pub fn new() -> (t: Table)
        ensures
            t@.len() == ENTRY_COUNT,
            forall|v: int| 0 <= v < ENTRY_COUNT ==> (#[trigger] t@[v]) == Gate::missing_spec(),
    {
        let g = Gate::missing();
        let t = Table { entries: [g; 256] };
        proof {
            assert forall|v: int| 0 <= v < ENTRY_COUNT implies (#[trigger] t@[v]) == Gate::missing_spec() by {}
        }
        t
    }

    /// The entry for `vector`.
    pub fn gate(&self, vector: u8) -> (g: Gate)
        ensures
            g == self@[vector as int],
            self@.len() == ENTRY_COUNT,
    {
        self.entries[vector as usize]
    }

    fn put(&mut self, vector: u8, g: Gate)
        ensures
            final(self)@ == old(self)@.update(vector as int, g),
            final(self)@.len() == ENTRY_COUNT,
    {
        self.entries[vector as usize] = g;
    }

    /// Registers a handler at `offset` for `vector`, through the kernel code
    /// segment, replacing any previous one.
    pub fn set_handler(&mut self, vector: u8, offset: u32)
        ensures
            final(self)@.len() == ENTRY_COUNT,
            final(self)@ == old(self)@.update(
                vector as int,
                final(self)@[vector as int],
            ),
            final(self)@[vector as int].present(),
            final(self)@[vector as int].offset() == offset,
            final(self)@[vector as int].selector == gdt::KERNEL_CODE_SELECTOR,
            final(self)@[vector as int].reserved == 0,
            final(self)@[vector as int].type_attr == INTERRUPT_GATE_ATTR,
    {
        let g = Gate::interrupt(offset, gdt::KERNEL_CODE_SELECTOR);
        self.put(vector, g);
    }

    /// Routes `vector` through a hardware task switch to `tss_selector`.
    pub fn set_task_gate(&mut self, vector: u8, tss_selector: u16)
        ensures
            final(self)@ == old(self)@.update(vector as int, (Gate {
                offset_low: 0,
                selector: tss_selector,
                reserved: 0,
                type_attr: TASK_GATE_ATTR,
                offset_high: 0,
            })),
    {
        let g = Gate::task(tss_selector);
        self.put(vector, g);
    }

    /// Whether `vector` has a handler or a task gate registered.
    pub fn has_handler(&self, vector: u8) -> (b: bool)
        ensures
            b == self@[vector as int].present(),
    {
        self.gate(vector).is_present()
    }

    /// Removes any handler for `vector`, leaving it not present.
    pub fn clear_handler(&mut self, vector: u8)
        ensures
            final(self)@ == old(self)@.update(vector as int, (Gate {
                offset_low: 0,
                selector: 0,
                reserved: 0,
                type_attr: 0,
                offset_high: 0,
            })),
    {
        let g = Gate::missing();
        self.put(vector, g);
    }

    /// How many vectors have something registered.
    pub fn handlers(&self) -> (n: usize)
        ensures
            n == present_count(self@, ENTRY_COUNT as int),
    {
        let mut n: usize = 0;
        let mut i: usize = 0;
        while i < ENTRY_COUNT
            invariant
                i <= ENTRY_COUNT,
                self@.len() == ENTRY_COUNT,
                n == present_count(self@, i as int),
                n <= i,
            decreases ENTRY_COUNT - i,
        {
            if self.entries[i].is_present() {
                n += 1;
            }
            i += 1;
        }
        n
    }
}

/// How many of the first `n` gates are present.
pub open spec fn present_count(gates: Seq<Gate>, n: int) -> int
    decreases n,
{
    if n <= 0 {
        0
    } else {
        present_count(gates, n - 1) + if gates[n - 1].present() {
            1int
        } else {
            0
        }
    }
}

/// The `limit` field `lidt` takes for the whole table: its last valid byte's
/// offset.
pub const TABLE_LIMIT: u16 = 256 * 8 - 1;

/// What the CPU currently has loaded, read back with `sidt`, plus how many
/// vectors are wired up.
pub struct Loaded {
    pub base: u32,
    pub limit: u16,
    /// Vectors with a handler registered.
    pub handlers: usize,
}

impl Loaded {
    /// Entry count implied by the limit the CPU reported.
    pub fn entries(&self) -> (n: usize)
        ensures
            n == (self.limit + 1) / 8,
    {
        (self.limit as usize + 1) / GATE_SIZE
    }
}

} // verus!

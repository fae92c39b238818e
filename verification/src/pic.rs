//! The 8259A interrupt controller pair (master + slave), remapped so that
//! IRQ0-15 raise vectors [`IRQ_VECTOR_BASE`]`..=`[`IRQ_VECTOR_LAST`] (32-47),
//! immediately above the 32 vectors Intel reserves for CPU exceptions.
//!
//! In real mode the BIOS leaves IRQ0-7 on vectors 8-15, head-on with the
//! exception vectors: a timer tick would look like a double fault. After the
//! remap every line is masked, so no IRQ gets through until the driver that
//! owns it unmasks its own line.
use vstd::prelude::*;

verus! {

/// Vector that IRQ0 lands on after the remap.
pub const IRQ_VECTOR_BASE: u8 = 32;

/// Number of IRQ lines the cascaded pair provides.
pub const IRQ_COUNT: u8 = 16;

/// Vector that IRQ15, the last one, lands on.
pub const IRQ_VECTOR_LAST: u8 = IRQ_VECTOR_BASE + IRQ_COUNT - 1;

/// Vector base the slave is programmed with.
pub const SLAVE_VECTOR_BASE: u8 = IRQ_VECTOR_BASE + 8;

/// Mask value that disables every line on a controller.
pub const MASK_ALL: u8 = 0xff;

/// What the controllers are set to: the vector range they were programmed
/// with, and the masks read back from them.
pub struct State {
    /// Vector IRQ0 was programmed to raise.
    pub vector_base: u8,
    /// Vector IRQ15 was programmed to raise.
    pub vector_last: u8,
    /// Master's interrupt mask register; a set bit is a disabled line.
    pub master_mask: u8,
    /// Slave's interrupt mask register.
    pub slave_mask: u8,
}

impl State {
    /// Whether every IRQ line is currently disabled.
    pub fn all_masked(&self) -> (b: bool)
        ensures
            b == (self.master_mask == MASK_ALL && self.slave_mask == MASK_ALL),
    {
        self.master_mask == MASK_ALL && self.slave_mask == MASK_ALL
    }
}

/// The state of the pair given the masks read back from the master and the
/// slave. The vector range is the one this driver programmed: an 8259 offers
/// no way to read its ICW2 back.
pub fn state(master_mask: u8, slave_mask: u8) -> (s: State)
    ensures
        s.vector_base == IRQ_VECTOR_BASE,
        s.vector_last == IRQ_VECTOR_LAST,
        s.master_mask == master_mask,
        s.slave_mask == slave_mask,
{
    State {
        vector_base: IRQ_VECTOR_BASE,
        vector_last: SLAVE_VECTOR_BASE + 7,
        master_mask,
        slave_mask,
    }
}

/// The IRQ line that raises `vector` after the remap, if any.
pub fn irq_of_vector(vector: u8) -> (irq: Option<u8>)
    ensures
        irq == if IRQ_VECTOR_BASE <= vector <= IRQ_VECTOR_LAST {
            Some((vector - IRQ_VECTOR_BASE) as u8)
        } else {
            None
        },
{
    if IRQ_VECTOR_BASE <= vector && vector <= IRQ_VECTOR_LAST {
        Some(vector - IRQ_VECTOR_BASE)
    } else {
        None
    }
}

} // verus!

//! The 8253/8254 programmable interval timer: channel 0 programmed to fire
//! IRQ0 at [`FREQUENCY_HZ`], and the tick count that gives the kernel a
//! notion of time.
use vstd::prelude::*;

use super::pic::IRQ_VECTOR_BASE;

verus! {

/// The timer's IRQ line.
pub const IRQ: u8 = 0;

/// The vector IRQ0 raises after the PIC remap.
pub const VECTOR: u8 = IRQ_VECTOR_BASE + IRQ;

/// Ticks per second.
pub const FREQUENCY_HZ: u32 = 100;

/// The PIT's input clock.
pub const PIT_OSCILLATOR_HZ: u32 = 1_193_182;

/// Reload value for channel 0: the oscillator divided by [`FREQUENCY_HZ`].
pub const DIVISOR: u16 = 11931;

/// Channel 0, lobyte/hibyte access, mode 3 (square wave), binary.
pub const CMD_CHANNEL0_MODE3: u8 = 0x36;

/// The reload value's two bytes, low first, as channel 0 takes them.
pub fn divisor_bytes(divisor: u16) -> (b: (u8, u8))
    ensures
        b.0 == divisor % 256,
        b.1 == divisor / 256,
{
    assert(divisor & 0xffu16 == divisor % 256 && divisor >> 8u16 == divisor / 256) by (bit_vector);
    ((divisor & 0xff) as u8, (divisor >> 8) as u8)
}

/// Timer ticks since [`Timer::new`], wrapping like the counter it models.
pub struct Timer {
    ticks: u32,
}

impl Timer {
    pub closed spec fn count(self) -> u32 {
        self.ticks
    }

    pub fn new() -> (t: Timer)
        ensures
            t.count() == 0,
    {
        Timer { ticks: 0 }
    }

    /// One timer interrupt.
    pub fn tick(&mut self)
        ensures
            final(self).count() == (old(self).count() + 1) % 0x1_0000_0000,
    {
        self.ticks = self.ticks.wrapping_add(1);
    }

    /// Timer interrupts taken since start.
    pub fn ticks(&self) -> (n: u32)
        ensures
            n == self.count(),
    {
        self.ticks
    }

    /// Whole seconds since start.
    pub fn seconds(&self) -> (s: u32)
        ensures
            s == self.count() / FREQUENCY_HZ,
    {
        self.ticks / FREQUENCY_HZ
    }
}

} // verus!

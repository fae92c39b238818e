//! VGA mode 13h: a linear 320x200 framebuffer, one palette-index byte per
//! pixel, row-major.
use vstd::prelude::*;

verus! {

/// BIOS video mode number of 320x200, 256 colours.
pub const MODE: u8 = 0x13;

/// Physical address of the framebuffer.
pub const BUFFER_ADDR: usize = 0xa0000;

pub const WIDTH: usize = 320;

pub const HEIGHT: usize = 200;

/// Bytes in the framebuffer.
pub const BUFFER_LEN: usize = 64000;

/// Palette index the boot fill uses.
pub const SOLID_COLOR: u8 = 0x01;

/// Paints every pixel of `buffer` with palette index `color`.
pub fn fill(buffer: &mut [u8], color: u8)
    requires
        old(buffer)@.len() == BUFFER_LEN,
    ensures
        final(buffer)@ == Seq::new(BUFFER_LEN as nat, |i: int| color),
{
    let mut i: usize = 0;
    while i < BUFFER_LEN
        invariant
            i <= BUFFER_LEN,
            buffer@.len() == BUFFER_LEN,
            forall|j: int| 0 <= j < i ==> buffer@[j] == color,
        decreases BUFFER_LEN - i,
    {
        buffer[i] = color;
        i += 1;
    }
    assert(buffer@ =~= Seq::new(BUFFER_LEN as nat, |i: int| color));
}

} // verus!

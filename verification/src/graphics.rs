//! Graphics mode as the boot banner reports it.
use vstd::prelude::*;

verus! {

/// BIOS video mode number of 320x200, 256 colours.
pub const MODE: u8 = 0x13;

pub const WIDTH: usize = 320;

pub const HEIGHT: usize = 200;

/// Physical address of the framebuffer.
pub const FRAMEBUFFER: usize = 0xa0000;

/// What the test pattern drew: its background colour and how many
/// rectangles.
#[derive(Clone, Copy)]
pub struct Report {
    pub bg_color: u8,
    pub rects: usize,
}

} // verus!

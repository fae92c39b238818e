//! PS/2 keyboard decoding: scancode set 1 to keys, with both shift keys tracked and
//! the two-byte extended codes skipped.
//!
//! The decoder is the state machine the IRQ1 handler drives with each byte
//! read from the controller; what it returns is what the handler echoes.
use vstd::prelude::*;

use super::pic::IRQ_VECTOR_BASE;

verus! {

/// The keyboard's IRQ line.
pub const IRQ: u8 = 1;

/// The vector IRQ1 raises after the PIC remap.
pub const VECTOR: u8 = IRQ_VECTOR_BASE + IRQ;

/// Data port of the PS/2 controller.
pub const DATA_PORT: u16 = 0x60;

/// Status port of the PS/2 controller.
pub const STATUS_PORT: u16 = 0x64;

/// Status bit: a byte is waiting in the output buffer.
pub const STATUS_OUTPUT_FULL: u8 = 1;

/// Prefix of a two-byte (extended) scancode.
pub const SCANCODE_EXTENDED: u8 = 0xe0;

/// Bit set in the break (key release) code of a key.
pub const SCANCODE_BREAK: u8 = 0x80;

pub const SCAN_LSHIFT: u8 = 0x2a;
pub const SCAN_RSHIFT: u8 = 0x36;
pub const SCAN_ENTER: u8 = 0x1c;
pub const SCAN_BACKSPACE: u8 = 0x0e;
pub const SCAN_SPACE: u8 = 0x39;

/// A key press worth echoing.
#[derive(Clone, Copy, PartialEq, Eq, Debug, Structural)]
pub enum Key {
    Char(char),
    Enter,
    Backspace,
}

/// `lower` as typed with `shift` held.
pub open spec fn letter_spec(lower: char, shift: bool) -> char {
    if shift {
        ((lower as int) - 32) as char
    } else {
        lower
    }
}

/// The letter `lower` (one of `a`..=`z`), upper-cased when shift is held.
pub fn letter(lower: char, shift: bool) -> (c: char)
    requires
        'a' <= lower <= 'z',
    ensures
        c == letter_spec(lower, shift),
{
    if shift {
        let code = lower as u32 - 32;
        let upper = code as u8 as char;
        assert(upper == ((lower as int) - 32) as char);
        upper
    } else {
        lower
    }
}

/// The letter key with make code `make`, lower case, if it is one.
pub open spec fn letter_of(make: u8) -> Option<char> {
    if make == 0x1e { Some('a') } else if make == 0x30 { Some('b') } else if make == 0x2e { Some('c') }
    else if make == 0x20 { Some('d') } else if make == 0x12 { Some('e') } else if make == 0x21 { Some('f') }
    else if make == 0x22 { Some('g') } else if make == 0x23 { Some('h') } else if make == 0x17 { Some('i') }
    else if make == 0x24 { Some('j') } else if make == 0x25 { Some('k') } else if make == 0x26 { Some('l') }
    else if make == 0x32 { Some('m') } else if make == 0x31 { Some('n') } else if make == 0x18 { Some('o') }
    else if make == 0x19 { Some('p') } else if make == 0x10 { Some('q') } else if make == 0x13 { Some('r') }
    else if make == 0x1f { Some('s') } else if make == 0x14 { Some('t') } else if make == 0x16 { Some('u') }
    else if make == 0x2f { Some('v') } else if make == 0x11 { Some('w') } else if make == 0x2d { Some('x') }
    else if make == 0x15 { Some('y') } else if make == 0x2c { Some('z') } else { None }
}

/// The digit key with make code `make`, if it is one.
pub open spec fn digit_of(make: u8) -> Option<char> {
    if make == 0x02 { Some('1') } else if make == 0x03 { Some('2') } else if make == 0x04 { Some('3') }
    else if make == 0x05 { Some('4') } else if make == 0x06 { Some('5') } else if make == 0x07 { Some('6') }
    else if make == 0x08 { Some('7') } else if make == 0x09 { Some('8') } else if make == 0x0a { Some('9') }
    else if make == 0x0b { Some('0') } else { None }
}

/// The key a make code stands for with shift held or not, for the keys the
/// kernel handles.
pub open spec fn translate_spec(make: u8, shift: bool) -> Option<Key> {
    if make == SCAN_ENTER {
        Some(Key::Enter)
    } else if make == SCAN_BACKSPACE {
        Some(Key::Backspace)
    } else if make == SCAN_SPACE {
        Some(Key::Char(' '))
    } else if digit_of(make) is Some {
        Some(Key::Char(digit_of(make)->0))
    } else if letter_of(make) is Some {
        Some(Key::Char(letter_spec(letter_of(make)->0, shift)))
    } else {
        None
    }
}

/// The letter keys of the top row, left to right, as printed on the keys;
/// in scancode set 1 they send make codes 0x10 through 0x19.
pub open spec fn top_row() -> Seq<char> {
    seq!['q', 'w', 'e', 'r', 't', 'y', 'u', 'i', 'o', 'p']
}

/// The home row's letter keys, left to right: make codes 0x1e through 0x26.
pub open spec fn home_row() -> Seq<char> {
    seq!['a', 's', 'd', 'f', 'g', 'h', 'j', 'k', 'l']
}

/// The bottom row's letter keys, left to right: make codes 0x2c through
/// 0x32.
pub open spec fn bottom_row() -> Seq<char> {
    seq!['z', 'x', 'c', 'v', 'b', 'n', 'm']
}

/// The number row, left to right: make codes 0x02 through 0x0b.
pub open spec fn number_row() -> Seq<char> {
    seq!['1', '2', '3', '4', '5', '6', '7', '8', '9', '0']
}

/// The same rows with shift held, as capitals.
pub open spec fn top_row_shifted() -> Seq<char> {
    seq!['Q', 'W', 'E', 'R', 'T', 'Y', 'U', 'I', 'O', 'P']
}

pub open spec fn home_row_shifted() -> Seq<char> {
    seq!['A', 'S', 'D', 'F', 'G', 'H', 'J', 'K', 'L']
}

pub open spec fn bottom_row_shifted() -> Seq<char> {
    seq!['Z', 'X', 'C', 'V', 'B', 'N', 'M']
}

/// The key a row's `i`th make code gives with `shift` held or not.
pub open spec fn row_key(lower: Seq<char>, upper: Seq<char>, i: int, shift: bool) -> Option<Key> {
    Some(Key::Char(if shift { upper[i] } else { lower[i] }))
}

/// Scancode set 1 as the keyboard is laid out: each letter key gives the
/// letter printed on it, a capital exactly when shift is held; the number
/// row gives its digits either way; Enter, Backspace and the space bar give
/// themselves; and every other make code gives nothing.
pub proof fn lemma_set1_layout(make: u8, shift: bool)
    ensures
        0x10 <= make <= 0x19 ==> translate_spec(make, shift) == row_key(
            top_row(),
            top_row_shifted(),
            make - 0x10,
            shift,
        ),
        0x1e <= make <= 0x26 ==> translate_spec(make, shift) == row_key(
            home_row(),
            home_row_shifted(),
            make - 0x1e,
            shift,
        ),
        0x2c <= make <= 0x32 ==> translate_spec(make, shift) == row_key(
            bottom_row(),
            bottom_row_shifted(),
            make - 0x2c,
            shift,
        ),
        0x02 <= make <= 0x0b ==> translate_spec(make, shift) == Some(
            Key::Char(number_row()[make - 0x02]),
        ),
        make == 0x1c ==> translate_spec(make, shift) == Some(Key::Enter),
        make == 0x0e ==> translate_spec(make, shift) == Some(Key::Backspace),
        make == 0x39 ==> translate_spec(make, shift) == Some(Key::Char(' ')),
        !(0x02 <= make <= 0x0b || 0x10 <= make <= 0x19 || 0x1e <= make <= 0x26 || 0x2c <= make
            <= 0x32 || make == 0x0e || make == 0x1c || make == 0x39) ==> translate_spec(make, shift)
            is None,
{
    if make == 0x10 {} else if make == 0x11 {} else if make == 0x12 {} else if make == 0x13 {}
    else if make == 0x14 {} else if make == 0x15 {} else if make == 0x16 {} else if make == 0x17 {}
    else if make == 0x18 {} else if make == 0x19 {} else if make == 0x1e {} else if make == 0x1f {}
    else if make == 0x20 {} else if make == 0x21 {} else if make == 0x22 {} else if make == 0x23 {}
    else if make == 0x24 {} else if make == 0x25 {} else if make == 0x26 {} else if make == 0x2c {}
    else if make == 0x2d {} else if make == 0x2e {} else if make == 0x2f {} else if make == 0x30 {}
    else if make == 0x31 {} else if make == 0x32 {}
}

/// The key make code `make` stands for, letters upper-cased with shift.
pub fn translate(make: u8, shift: bool) -> (k: Option<Key>)
    ensures
        k == translate_spec(make, shift),
{
    let c = match make {
        SCAN_ENTER => return Some(Key::Enter),
        SCAN_BACKSPACE => return Some(Key::Backspace),
        SCAN_SPACE => return Some(Key::Char(' ')),
        0x02 => return Some(Key::Char('1')),
        0x03 => return Some(Key::Char('2')),
        0x04 => return Some(Key::Char('3')),
        0x05 => return Some(Key::Char('4')),
        0x06 => return Some(Key::Char('5')),
        0x07 => return Some(Key::Char('6')),
        0x08 => return Some(Key::Char('7')),
        0x09 => return Some(Key::Char('8')),
        0x0a => return Some(Key::Char('9')),
        0x0b => return Some(Key::Char('0')),
        0x1e => 'a',
        0x30 => 'b',
        0x2e => 'c',
        0x20 => 'd',
        0x12 => 'e',
        0x21 => 'f',
        0x22 => 'g',
        0x23 => 'h',
        0x17 => 'i',
        0x24 => 'j',
        0x25 => 'k',
        0x26 => 'l',
        0x32 => 'm',
        0x31 => 'n',
        0x18 => 'o',
        0x19 => 'p',
        0x10 => 'q',
        0x13 => 'r',
        0x1f => 's',
        0x14 => 't',
        0x16 => 'u',
        0x2f => 'v',
        0x11 => 'w',
        0x2d => 'x',
        0x15 => 'y',
        0x2c => 'z',
        _ => return None,
    };
    Some(Key::Char(letter(c, shift)))
}

/// The decoder's state between scancodes.
pub struct Decoder {
    /// The previous byte was the extended prefix.
    extended: bool,
    /// The left shift key is held.
    left_shift: bool,
    /// The right shift key is held.
    right_shift: bool,
    /// Keys echoed so far, wrapping.
    echoed: u32,
}

impl View for Decoder {
    /// `(extended, left shift held, right shift held, echoed)`.
    type V = (bool, bool, bool, u32);

    closed spec fn view(&self) -> Self::V {
        (self.extended, self.left_shift, self.right_shift, self.echoed)
    }
}

/// Whether shift is in effect in state `s`: either shift key is held.
pub open spec fn shifted(s: (bool, bool, bool, u32)) -> bool {
    s.1 || s.2
}

/// The decoder state after `scancode` arrives in state `s`, and the key it
/// produced, if any: the extended prefix and the byte after it are
/// swallowed, a press or release of either shift key only updates that key's
/// state, other releases are ignored, and a press of a known key is counted
/// and returned, upper-cased while either shift key is held.
pub open spec fn decode(s: (bool, bool, bool, u32), scancode: u8) -> ((bool, bool, bool, u32), Option<Key>) {
    if scancode == SCANCODE_EXTENDED {
        ((true, s.1, s.2, s.3), None)
    } else if s.0 {
        ((false, s.1, s.2, s.3), None)
    } else {
        let released = scancode >= SCANCODE_BREAK;
        let make = (scancode % 128) as u8;
        if make == SCAN_LSHIFT {
            ((false, !released, s.2, s.3), None)
        } else if make == SCAN_RSHIFT {
            ((false, s.1, !released, s.3), None)
        } else if released {
            ((false, s.1, s.2, s.3), None)
        } else {
            let k = translate_spec(make, shifted(s));
            ((false, s.1, s.2, if k is Some { ((s.3 + 1) % 0x1_0000_0000) as u32 } else { s.3 }), k)
        }
    }
}

/// How the decoder treats each byte, in the words of the PS/2 protocol: the
/// 0xe0 prefix and the byte after it produce nothing; a byte with the top
/// bit set is a release and produces nothing; Left Shift (0x2a, released as
/// 0xaa) and Right Shift (0x36, released as 0xb6) each just mark their own
/// key held or not; any other press produces the key [`translate`] gives for
/// it with shift in effect exactly while either shift key is held, and
/// counts it when it is one; and nothing but a Shift key changes which
/// shift keys are held.
pub proof fn lemma_decoder_protocol(s: (bool, bool, bool, u32), sc: u8)
    ensures
        sc == 0xe0 ==> decode(s, sc) == ((true, s.1, s.2, s.3), None::<Key>),
        sc != 0xe0 && s.0 ==> decode(s, sc) == ((false, s.1, s.2, s.3), None::<Key>),
        sc != 0xe0 && !s.0 && sc >= 0x80 ==> decode(s, sc).1 is None,
        sc != 0xe0 && !s.0 && sc == 0x2a ==> decode(s, sc) == ((false, true, s.2, s.3), None::<Key>),
        sc != 0xe0 && !s.0 && sc == 0xaa ==> decode(s, sc) == ((false, false, s.2, s.3), None::<Key>),
        sc != 0xe0 && !s.0 && sc == 0x36 ==> decode(s, sc) == ((false, s.1, true, s.3), None::<Key>),
        sc != 0xe0 && !s.0 && sc == 0xb6 ==> decode(s, sc) == ((false, s.1, false, s.3), None::<Key>),
        sc != 0xe0 && !s.0 && sc != 0x2a && sc != 0xaa && sc != 0x36 && sc != 0xb6 ==> decode(
            s,
            sc,
        ).0.1 == s.1 && decode(s, sc).0.2 == s.2 && !decode(s, sc).0.0,
        sc != 0xe0 && !s.0 && sc < 0x80 && sc != 0x2a && sc != 0x36 ==> decode(s, sc).1
            == translate_spec(sc, s.1 || s.2) && decode(s, sc).0.3 == if translate_spec(
            sc,
            s.1 || s.2,
        ) is Some {
            (s.3 + 1) % 0x1_0000_0000
        } else {
            s.3 as int
        },
{
    if sc >= 0x80 {
        assert((sc % 128) as u8 == sc - 128);
    } else {
        assert((sc % 128) as u8 == sc);
    }
}

impl Decoder {
    pub fn new() -> (d: Decoder)
        ensures
            d@ == (false, false, false, 0u32),
    {
        Decoder { extended: false, left_shift: false, right_shift: false, echoed: 0 }
    }

    /// How many keys have been echoed.
    pub fn echoed_count(&self) -> (n: u32)
        ensures
            n == self@.3,
    {
        self.echoed
    }

    /// Feeds one scancode byte; returns the key to echo, if any.
    pub fn handle_scancode(&mut self, scancode: u8) -> (k: Option<Key>)
        ensures
            (final(self)@, k) == decode(old(self)@, scancode),
    {
        if scancode == SCANCODE_EXTENDED {
            self.extended = true;
            return None;
        }
        if self.extended {
            self.extended = false;
            return None;
        }
        assert(scancode & 0x80u8 != 0 <==> scancode >= 0x80u8) by (bit_vector);
        assert(scancode & 0x7fu8 == scancode % 128) by (bit_vector);
        let released = scancode & SCANCODE_BREAK != 0;
        let make = scancode & 0x7f;
        if make == SCAN_LSHIFT {
            self.left_shift = !released;
            return None;
        }
        if make == SCAN_RSHIFT {
            self.right_shift = !released;
            return None;
        }
        if released {
            return None;
        }
        let k = translate(make, self.left_shift || self.right_shift);
        if k.is_some() {
            self.echoed = self.echoed.wrapping_add(1);
        }
        k
    }
}

} // verus!

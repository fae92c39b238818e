//! VGA text mode: an 80x25 grid of character cells at 0xb8000, each a byte
//! of ASCII and a byte of colour. The writer keeps the cursor, wraps at the
//! right edge, and scrolls the screen up one line when output runs off the
//! bottom.
//!
//! The cells are handed in as a slice of 16-bit words, one per cell in
//! row-major order, the low byte the character and the high byte its
//! colour, which is how the hardware lays them out.
use vstd::prelude::*;

verus! {

/// Physical address of the text buffer.
pub const BUFFER_ADDR: usize = 0xb8000;

pub const BUFFER_WIDTH: usize = 80;

pub const BUFFER_HEIGHT: usize = 25;

/// Cells on the screen.
pub const BUFFER_CELLS: usize = 2000;

/// Stand-in byte for anything outside printable ASCII.
pub const REPLACEMENT: u8 = 0xfe;

/// The 16 text-mode colours.
#[derive(Clone, Copy, PartialEq, Eq, Debug, Structural)]
pub enum Color {
    Black,
    Blue,
    Green,
    Cyan,
    Red,
    Magenta,
    Brown,
    LightGray,
    DarkGray,
    LightBlue,
    LightGreen,
    LightCyan,
    LightRed,
    Pink,
    Yellow,
    White,
}

impl Color {
    /// The colour's 4-bit palette index.
    pub open spec fn index(self) -> u8 {
        match self {
            Color::Black => 0,
            Color::Blue => 1,
            Color::Green => 2,
            Color::Cyan => 3,
            Color::Red => 4,
            Color::Magenta => 5,
            Color::Brown => 6,
            Color::LightGray => 7,
            Color::DarkGray => 8,
            Color::LightBlue => 9,
            Color::LightGreen => 10,
            Color::LightCyan => 11,
            Color::LightRed => 12,
            Color::Pink => 13,
            Color::Yellow => 14,
            Color::White => 15,
        }
    }

    pub fn value(self) -> (v: u8)
        ensures
            v == self.index(),
            v < 16,
    {
        match self {
            Color::Black => 0,
            Color::Blue => 1,
            Color::Green => 2,
            Color::Cyan => 3,
            Color::Red => 4,
            Color::Magenta => 5,
            Color::Brown => 6,
            Color::LightGray => 7,
            Color::DarkGray => 8,
            Color::LightBlue => 9,
            Color::LightGreen => 10,
            Color::LightCyan => 11,
            Color::LightRed => 12,
            Color::Pink => 13,
            Color::Yellow => 14,
            Color::White => 15,
        }
    }
}

/// Attribute byte for `foreground` on `background`.
pub fn color_code(foreground: Color, background: Color) -> (c: u8)
    ensures
        c == background.index() * 16 + foreground.index(),
{
    let f = foreground.value();
    let b = background.value();
    assert(f < 16 && b < 16 ==> (b << 4u8) | f == b * 16 + f) by (bit_vector);
    (b << 4) | f
}

/// A cell showing `ascii` in colour `color`.
pub open spec fn cell(ascii: u8, color: u8) -> u16 {
    (ascii + color * 256) as u16
}

/// What the screen and cursor look like: the cells, the row and the column.
pub type Screen = (Seq<u16>, int, int);

/// The cells scrolled up one line, the bottom line blank.
pub open spec fn scrolled(s: Seq<u16>, blank: u16) -> Seq<u16> {
    Seq::new(2000, |i: int| if i < 1920 { s[i + 80] } else { blank })
}

/// `s` with line `row` blank.
pub open spec fn cleared(s: Seq<u16>, row: int, blank: u16) -> Seq<u16> {
    Seq::new(s.len(), |i: int| if row * 80 <= i < row * 80 + 80 { blank } else { s[i] })
}

/// The screen after a line break in colour `color`.
pub open spec fn after_new_line(scr: Screen, color: u8) -> Screen {
    if scr.1 + 1 < 25 {
        (scr.0, scr.1 + 1, 0)
    } else {
        (scrolled(scr.0, cell(0x20, color)), scr.1, 0)
    }
}

/// The screen after writing `byte` in colour `color`: a newline breaks the
/// line; anything else goes at the cursor, breaking the line first when it
/// is full.
pub open spec fn after_byte(scr: Screen, byte: u8, color: u8) -> Screen {
    if byte == 0x0a {
        after_new_line(scr, color)
    } else {
        let s = if scr.2 >= 80 {
            after_new_line(scr, color)
        } else {
            scr
        };
        (s.0.update(s.1 * 80 + s.2, cell(byte, color)), s.1, s.2 + 1)
    }
}

/// The byte written for `byte` of a string: itself when printable or a
/// newline, else the replacement.
pub open spec fn shown(byte: u8) -> u8 {
    if (0x20 <= byte <= 0x7e) || byte == 0x0a {
        byte
    } else {
        REPLACEMENT
    }
}

/// The screen after writing all of `bytes`.
pub open spec fn after_bytes(scr: Screen, bytes: Seq<u8>, color: u8) -> Screen
    decreases bytes.len(),
{
    if bytes.len() == 0 {
        scr
    } else {
        after_byte(after_bytes(scr, bytes.drop_last(), color), shown(bytes.last()), color)
    }
}

/// Writing one more byte `b` after `bytes` writes it as itself when it is
/// printable ASCII (0x20 through 0x7e: letters, digits, punctuation and the
/// space) or a newline, and as the replacement block 0xfe otherwise.
pub proof fn lemma_string_writes_bytes(scr: Screen, bytes: Seq<u8>, b: u8, color: u8)
    ensures
        after_bytes(scr, bytes.push(b), color) == after_byte(
            after_bytes(scr, bytes, color),
            if (0x20 <= b <= 0x7e) || b == 0x0a {
                b
            } else {
                0xfeu8
            },
            color,
        ),
{
    assert(bytes.push(b).drop_last() =~= bytes);
}

/// A newline moves the cursor to the start of the next line, or, on the last
/// of the 25 lines, scrolls every line up one, blanks the bottom line in the
/// current colour and stays on it; a printable byte written past the end of
/// a line goes to the first cell of the next line the same way.
pub proof fn lemma_line_breaks(scr: Screen, b: u8, color: u8)
    requires
        scr.0.len() == 2000,
        0 <= scr.1 < 25,
        0 <= scr.2 <= 80,
    ensures
        ({
            let out = after_byte(scr, 0x0a, color);
            &&& out.2 == 0
            &&& scr.1 < 24 ==> out.1 == scr.1 + 1 && out.0 == scr.0
            &&& scr.1 == 24 ==> out.1 == 24 && out.0.len() == 2000 && (forall|i: int|
                0 <= i < 1920 ==> #[trigger] out.0[i] == scr.0[i + 80]) && (forall|i: int|
                1920 <= i < 2000 ==> #[trigger] out.0[i] == (0x20 + color * 256) as u16)
        }),
        b != 0x0a && scr.2 == 80 ==> ({
            let out = after_byte(scr, b, color);
            let row = if scr.1 < 24 {
                scr.1 + 1
            } else {
                24
            };
            &&& out.1 == row
            &&& out.2 == 1
            &&& out.0[row * 80] == (b + color * 256) as u16
        }),
{
}

/// Printable ASCII written where it fits on the cursor's line lands in the
/// next cells, one per byte, each holding the byte in the low half and the
/// colour in the high half; every other cell is left as it was, and the
/// cursor ends just past the text.
pub proof fn lemma_text_on_one_line(scr: Screen, bytes: Seq<u8>, color: u8)
    requires
        scr.0.len() == 2000,
        0 <= scr.1 < 25,
        0 <= scr.2,
        scr.2 + bytes.len() <= 80,
        forall|k: int| 0 <= k < bytes.len() ==> 0x20 <= #[trigger] bytes[k] <= 0x7e,
    ensures
        ({
            let out = after_bytes(scr, bytes, color);
            let at = scr.1 * 80 + scr.2;
            &&& out.1 == scr.1
            &&& out.2 == scr.2 + bytes.len()
            &&& out.0.len() == 2000
            &&& forall|i: int|
                0 <= i < 2000 ==> #[trigger] out.0[i] == if at <= i < at + bytes.len() {
                    (bytes[i - at] + color * 256) as u16
                } else {
                    scr.0[i]
                }
        }),
    decreases bytes.len(),
{
    if bytes.len() > 0 {
        let t = bytes.drop_last();
        assert forall|k: int| 0 <= k < t.len() implies 0x20 <= #[trigger] t[k] <= 0x7e by {
            assert(t[k] == bytes[k]);
        }
        lemma_text_on_one_line(scr, t, color);
        let b = bytes.last();
        assert(0x20 <= bytes[bytes.len() - 1] <= 0x7e);
        let mid = after_bytes(scr, t, color);
        let at = scr.1 * 80 + scr.2;
        let out = after_bytes(scr, bytes, color);
        assert(out == after_byte(mid, b, color));
        assert forall|i: int| 0 <= i < 2000 implies #[trigger] out.0[i] == if at <= i < at
            + bytes.len() {
            (bytes[i - at] + color * 256) as u16
        } else {
            scr.0[i]
        } by {
            if i < at + t.len() && at <= i {
                assert(t[i - at] == bytes[i - at]);
            }
        }
    }
}

/// The cursor and colour; the cells themselves are the caller's.
pub struct Writer {
    column: usize,
    row: usize,
    color_code: u8,
}

impl View for Writer {
    /// `(row, column, colour)`.
    type V = (int, int, u8);

    closed spec fn view(&self) -> Self::V {
        (self.row as int, self.column as int, self.color_code)
    }
}

impl Writer {
    /// The cursor is on the screen (the column may sit just past the edge).
    pub open spec fn wf(&self) -> bool {
        0 <= self@.0 < 25 && 0 <= self@.1 <= 80
    }

    /// A writer at the top left, white on black.
    pub fn new() -> (w: Writer)
        ensures
            w@ == (0int, 0int, 15u8),
            w.wf(),
    {
        Writer { column: 0, row: 0, color_code: 15 }
    }

    fn put_char(&self, buf: &mut [u16], row: usize, col: usize, ascii: u8)
        requires
            old(buf)@.len() == BUFFER_CELLS,
            row < 25,
            col < 80,
        ensures
            final(buf)@ == old(buf)@.update(row * 80 + col, cell(ascii, self.color_code)),
    {
        let v = (ascii as u16) + (self.color_code as u16) * 256;
        buf[row * BUFFER_WIDTH + col] = v;
    }

    /// Blanks line `row`.
    pub fn clear_row(&self, buf: &mut [u16], row: usize)
        requires
            old(buf)@.len() == BUFFER_CELLS,
            row < 25,
        ensures
            final(buf)@ == cleared(old(buf)@, row as int, cell(0x20, self@.2)),
    {
        let mut col: usize = 0;
        while col < BUFFER_WIDTH
            invariant
                col <= 80,
                row < 25,
                buf@.len() == BUFFER_CELLS,
                forall|i: int|
                    0 <= i < 2000 ==> #[trigger] buf@[i] == if row * 80 <= i < row * 80 + col {
                        cell(0x20, self@.2)
                    } else {
                        old(buf)@[i]
                    },
            decreases 80 - col,
        {
            self.put_char(buf, row, col, 0x20);
            col += 1;
        }
        assert(buf@ =~= cleared(old(buf)@, row as int, cell(0x20, self@.2)));
    }

    /// Moves to the start of the next line, scrolling when on the last.
    pub fn new_line(&mut self, buf: &mut [u16])
        requires
            old(buf)@.len() == BUFFER_CELLS,
            old(self).wf(),
        ensures
            final(self).wf(),
            final(buf)@.len() == BUFFER_CELLS,
            final(self)@.2 == old(self)@.2,
            (final(buf)@, final(self)@.0, final(self)@.1) == after_new_line(
                (old(buf)@, old(self)@.0, old(self)@.1),
                old(self)@.2,
            ),
    {
        if self.row + 1 < BUFFER_HEIGHT {
            self.row += 1;
        } else {
            let ghost s0 = buf@;
            let mut i: usize = 80;
            while i < BUFFER_CELLS
                invariant
                    80 <= i <= 2000,
                    buf@.len() == BUFFER_CELLS,
                    s0.len() == BUFFER_CELLS,
                    forall|j: int|
                        0 <= j < 2000 ==> #[trigger] buf@[j] == if j < i - 80 {
                            s0[j + 80]
                        } else {
                            s0[j]
                        },
                decreases 2000 - i,
            {
                let ch = buf[i];
                buf[i - 80] = ch;
                i += 1;
            }
            self.clear_row(buf, BUFFER_HEIGHT - 1);
            assert(buf@ =~= scrolled(s0, cell(0x20, self@.2)));
        }
        self.column = 0;
    }

    /// Writes one byte at the cursor.
    pub fn write_byte(&mut self, buf: &mut [u16], byte: u8)
        requires
            old(buf)@.len() == BUFFER_CELLS,
            old(self).wf(),
        ensures
            final(self).wf(),
            final(buf)@.len() == BUFFER_CELLS,
            final(self)@.2 == old(self)@.2,
            (final(buf)@, final(self)@.0, final(self)@.1) == after_byte(
                (old(buf)@, old(self)@.0, old(self)@.1),
                byte,
                old(self)@.2,
            ),
    {
        if byte == 0x0a {
            self.new_line(buf);
        } else {
            if self.column >= BUFFER_WIDTH {
                self.new_line(buf);
            }
            self.put_char(buf, self.row, self.column, byte);
            self.column += 1;
        }
    }

    /// Writes `s`, printable ASCII and newlines as they are and anything
    /// else as the replacement byte.
    pub fn write_string(&mut self, buf: &mut [u16], s: &[u8])
        requires
            old(buf)@.len() == BUFFER_CELLS,
            old(self).wf(),
        ensures
            final(self).wf(),
            final(buf)@.len() == BUFFER_CELLS,
            final(self)@.2 == old(self)@.2,
            (final(buf)@, final(self)@.0, final(self)@.1) == after_bytes(
                (old(buf)@, old(self)@.0, old(self)@.1),
                s@,
                old(self)@.2,
            ),
    {
        let mut i: usize = 0;
        while i < s.len()
            invariant
                i <= s@.len(),
                self.wf(),
                buf@.len() == BUFFER_CELLS,
                self@.2 == old(self)@.2,
                (buf@, self@.0, self@.1) == after_bytes(
                    (old(buf)@, old(self)@.0, old(self)@.1),
                    s@.take(i as int),
                    old(self)@.2,
                ),
            decreases s@.len() - i,
        {
            let byte = s[i];
            let out = if (0x20 <= byte && byte <= 0x7e) || byte == 0x0a {
                byte
            } else {
                REPLACEMENT
            };
            self.write_byte(buf, out);
            proof {
                assert(s@.take(i + 1).drop_last() =~= s@.take(i as int));
            }
            i += 1;
        }
        assert(s@.take(i as int) =~= s@);
    }
}

/// Blanks the whole screen and puts the cursor at the top left.
pub fn clear_screen(writer: &mut Writer, buf: &mut [u16])
    requires
        old(buf)@.len() == BUFFER_CELLS,
    ensures
        final(writer)@ == (0int, 0int, old(writer)@.2),
        final(buf)@ == Seq::new(2000, |i: int| cell(0x20, old(writer)@.2)),
{
    let mut row: usize = 0;
    while row < BUFFER_HEIGHT
        invariant
            row <= 25,
            buf@.len() == BUFFER_CELLS,
            *writer == *old(writer),
            forall|i: int|
                0 <= i < 2000 ==> #[trigger] buf@[i] == if i < row * 80 {
                    cell(0x20, writer@.2)
                } else {
                    old(buf)@[i]
                },
        decreases 25 - row,
    {
        writer.clear_row(buf, row);
        row += 1;
    }
    writer.row = 0;
    writer.column = 0;
    assert(buf@ =~= Seq::new(2000, |i: int| cell(0x20, old(writer)@.2)));
}

/// Rubs out the character before the cursor, if the cursor is not at the
/// start of the line.
pub fn backspace(writer: &mut Writer, buf: &mut [u16])
    requires
        old(buf)@.len() == BUFFER_CELLS,
        old(writer).wf(),
    ensures
        final(writer).wf(),
        old(writer)@.1 == 0 ==> final(writer)@ == old(writer)@ && final(buf)@ == old(buf)@,
        old(writer)@.1 > 0 ==> final(writer)@ == (old(writer)@.0, old(writer)@.1 - 1, old(writer)@.2)
            && final(buf)@ == old(buf)@.update(
            old(writer)@.0 * 80 + old(writer)@.1 - 1,
            cell(0x20, old(writer)@.2),
        ),
{
    if writer.column == 0 {
        return ;
    }
    writer.column -= 1;
    writer.put_char(buf, writer.row, writer.column, 0x20);
}

} // verus!

use goatos::ata::{self, AtaError, Controller, Poll};
use goatos::framebuffer;
use goatos::input::{KeyEvent, Queue, CAPACITY};
use goatos::keyboard::{self, Decoder, Key};
use goatos::shell::{self, Echo, LineEditor};
use goatos::vga::{self, Color, Writer};

#[test]
fn keyboard_translates_letters_and_digits() {
    assert_eq!(keyboard::translate(0x1e, false), Some(Key::Char('a')));
    assert_eq!(keyboard::translate(0x1e, true), Some(Key::Char('A')));
    assert_eq!(keyboard::translate(0x2c, true), Some(Key::Char('Z')));
    assert_eq!(keyboard::translate(0x0b, true), Some(Key::Char('0')));
    assert_eq!(keyboard::translate(0x39, false), Some(Key::Char(' ')));
    assert_eq!(keyboard::translate(0x1c, false), Some(Key::Enter));
    assert_eq!(keyboard::translate(0x0e, false), Some(Key::Backspace));
    assert_eq!(keyboard::translate(0x3b, false), None);
    assert_eq!(keyboard::letter('q', true), 'Q');
    assert_eq!(keyboard::letter('q', false), 'q');
}

#[test]
fn decoder_tracks_shift_and_skips_extended() {
    let mut d = Decoder::new();
    assert_eq!(d.handle_scancode(0x23), Some(Key::Char('h')));
    assert_eq!(d.handle_scancode(0xa3), None);
    assert_eq!(d.handle_scancode(0x2a), None);
    assert_eq!(d.handle_scancode(0x17), Some(Key::Char('I')));
    assert_eq!(d.handle_scancode(0xaa), None);
    assert_eq!(d.handle_scancode(0x17), Some(Key::Char('i')));
    assert_eq!(d.handle_scancode(0xe0), None);
    assert_eq!(d.handle_scancode(0x1c), None);
    assert_eq!(d.handle_scancode(0x1c), Some(Key::Enter));
    assert_eq!(d.echoed_count(), 4);
}

#[test]
fn decoder_holds_shift_while_either_key_is_down() {
    let mut d = Decoder::new();
    assert_eq!(d.handle_scancode(0x2a), None);
    assert_eq!(d.handle_scancode(0x36), None);
    assert_eq!(d.handle_scancode(0xb6), None);
    assert_eq!(d.handle_scancode(0x1e), Some(Key::Char('A')));
    assert_eq!(d.echoed_count(), 1);
    assert_eq!(d.handle_scancode(0xaa), None);
    assert_eq!(d.handle_scancode(0x1e), Some(Key::Char('a')));
    assert_eq!(d.echoed_count(), 2);
}

#[test]
fn queue_is_first_in_first_out() {
    let mut q = Queue::new();
    assert_eq!(q.pop(), None);
    assert!(q.push(KeyEvent::Char('a')));
    assert!(q.push(KeyEvent::Enter));
    assert_eq!(q.len(), 2);
    assert_eq!(q.pop(), Some(KeyEvent::Char('a')));
    assert!(q.push(KeyEvent::Backspace));
    assert_eq!(q.pop(), Some(KeyEvent::Enter));
    assert_eq!(q.pop(), Some(KeyEvent::Backspace));
    assert_eq!(q.pop(), None);
    assert_eq!(q.dropped(), 0);
}

#[test]
fn queue_drops_when_full() {
    let mut q = Queue::new();
    for i in 0..CAPACITY {
        assert!(q.push(KeyEvent::Char((b'a' + (i % 26) as u8) as char)));
    }
    assert!(!q.push(KeyEvent::Enter));
    assert!(!q.push(KeyEvent::Enter));
    assert_eq!(q.dropped(), 2);
    assert_eq!(q.len(), CAPACITY);
    assert_eq!(q.pop(), Some(KeyEvent::Char('a')));
    assert!(q.push(KeyEvent::Enter));
    for _ in 0..CAPACITY - 1 {
        q.pop();
    }
    assert_eq!(q.pop(), Some(KeyEvent::Enter));
}

#[test]
fn line_editor_edits_and_submits() {
    let mut e = LineEditor::new();
    assert!(matches!(e.handle_event(KeyEvent::Char('h')), Echo::Char('h')));
    assert!(matches!(e.handle_event(KeyEvent::Char('i')), Echo::Char('i')));
    assert!(matches!(e.handle_event(KeyEvent::Char('\u{7f}')), Echo::Nothing));
    assert!(matches!(e.handle_event(KeyEvent::Backspace), Echo::Erase));
    assert!(matches!(e.handle_event(KeyEvent::Char('o')), Echo::Char('o')));
    match e.handle_event(KeyEvent::Enter) {
        Echo::Line(line) => assert_eq!(line, b"ho".to_vec()),
        _ => panic!("enter should submit the line"),
    }
    assert!(e.line().is_empty());
    assert!(matches!(e.handle_event(KeyEvent::Backspace), Echo::Nothing));
}

#[test]
fn line_editor_stops_at_capacity() {
    let mut e = LineEditor::new();
    for _ in 0..shell::LINE_CAPACITY {
        assert!(matches!(e.handle_event(KeyEvent::Char('x')), Echo::Char('x')));
    }
    assert!(matches!(e.handle_event(KeyEvent::Char('y')), Echo::Nothing));
    assert_eq!(e.line().len(), shell::LINE_CAPACITY);
}

#[test]
fn drain_input_feeds_events_in_order() {
    let mut q = Queue::new();
    let mut e = LineEditor::new();
    q.push(KeyEvent::Char('o'));
    q.push(KeyEvent::Char('k'));
    q.push(KeyEvent::Enter);
    q.push(KeyEvent::Char('z'));
    let echoes = shell::drain_input(&mut e, &mut q);
    assert_eq!(echoes.len(), 4);
    assert!(matches!(&echoes[2], Echo::Line(l) if l == &b"ok".to_vec()));
    assert_eq!(q.len(), 0);
    assert_eq!(e.line(), b"z".to_vec());
    assert_eq!(shell::PROMPT, "> ");
}

fn blank(color: u8) -> u16 {
    0x20 | (color as u16) << 8
}

#[test]
fn vga_writes_wraps_and_scrolls() {
    let mut buf = vec![0u16; vga::BUFFER_CELLS];
    let mut w = Writer::new();
    w.write_string(&mut buf, b"hi\n!");
    assert_eq!(buf[0], b'h' as u16 | 0x0f00);
    assert_eq!(buf[1], b'i' as u16 | 0x0f00);
    assert_eq!(buf[80], b'!' as u16 | 0x0f00);
    w.write_string(&mut buf, &[0x01]);
    assert_eq!(buf[81], 0xfe | 0x0f00);
    for _ in 0..24 {
        w.new_line(&mut buf);
    }
    // two lines scrolled off: the '!' line is now at the top
    assert_eq!(buf[0], b'!' as u16 | 0x0f00);
    assert_eq!(buf[24 * 80], blank(0x0f));
}

#[test]
fn vga_wraps_at_right_edge() {
    let mut buf = vec![0u16; vga::BUFFER_CELLS];
    let mut w = Writer::new();
    let line = [b'x'; 81];
    w.write_string(&mut buf, &line);
    assert_eq!(buf[79], b'x' as u16 | 0x0f00);
    assert_eq!(buf[80], b'x' as u16 | 0x0f00);
    assert_eq!(buf[81], 0);
}

#[test]
fn vga_backspace_and_clear() {
    let mut buf = vec![0u16; vga::BUFFER_CELLS];
    let mut w = Writer::new();
    vga::backspace(&mut w, &mut buf);
    assert_eq!(buf[0], 0);
    w.write_byte(&mut buf, b'a');
    vga::backspace(&mut w, &mut buf);
    assert_eq!(buf[0], blank(0x0f));
    w.write_byte(&mut buf, b'b');
    assert_eq!(buf[0], b'b' as u16 | 0x0f00);
    vga::clear_screen(&mut w, &mut buf);
    assert!(buf.iter().all(|c| *c == blank(0x0f)));
    assert_eq!(vga::color_code(Color::White, Color::Black), 0x0f);
    assert_eq!(vga::color_code(Color::Yellow, Color::Blue), 0x1e);
}

#[test]
fn framebuffer_fill_paints_every_pixel() {
    let mut buf = vec![0u8; framebuffer::BUFFER_LEN];
    framebuffer::fill(&mut buf, framebuffer::SOLID_COLOR);
    assert!(buf.iter().all(|p| *p == 1));
    assert_eq!(framebuffer::WIDTH * framebuffer::HEIGHT, framebuffer::BUFFER_LEN);
}

#[test]
fn ata_read_arguments() {
    assert_eq!(ata::check_read(0, 512), Ok(1));
    assert_eq!(ata::check_read(0x0fff_ffff, 512 * 256), Ok(256));
    assert_eq!(ata::check_read(0, 0), Err(AtaError::BadArgument));
    assert_eq!(ata::check_read(0, 100), Err(AtaError::BadArgument));
    assert_eq!(ata::check_read(0, 512 * 257), Err(AtaError::BadArgument));
    assert_eq!(ata::check_read(0x1000_0000, 512), Err(AtaError::BadArgument));
    let absent = Controller::new(false);
    assert!(!absent.is_present());
    assert_eq!(absent.check(0, 512), Err(AtaError::NotPresent));
    assert_eq!(absent.check(0, 7), Err(AtaError::BadArgument));
    assert_eq!(Controller::new(true).check(5, 1024), Ok(2));
}

#[test]
fn ata_command_registers() {
    assert_eq!(ata::command_registers(0x0123_4567, 256), (0xe1, 0, 0x67, 0x45, 0x23));
    assert_eq!(ata::command_registers(2048, 8), (0xe0, 8, 0x00, 0x08, 0x00));
}

#[test]
fn ata_status_polls() {
    assert_eq!(ata::wait_while_step(0xff, 0x80, 0x80), Poll::Fail(AtaError::NotPresent));
    assert_eq!(ata::wait_while_step(0x80, 0x80, 0x80), Poll::Spin);
    assert_eq!(ata::wait_while_step(0x50, 0x80, 0x80), Poll::Ready);
    assert_eq!(ata::drq_step(0x88), Poll::Spin);
    assert_eq!(ata::drq_step(0x21), Poll::Fail(AtaError::DriveError));
    assert_eq!(ata::drq_step(0x58), Poll::Ready);
    assert_eq!(ata::drq_step(0x50), Poll::Spin);
    assert!(ata::status_failed(0x01));
    assert!(!ata::status_failed(0x58));
    assert!(ata::probe_present(0x50, Ok(())));
    assert!(!ata::probe_present(0xff, Ok(())));
    assert!(!ata::probe_present(0x50, Err(AtaError::Timeout)));
    assert_eq!(AtaError::Timeout.describe(), "timeout");
}

#[test]
fn ata_words_land_low_byte_first() {
    let mut buf = vec![0u8; 4];
    ata::store_word(&mut buf, 1, 0xbeef);
    assert_eq!(buf, vec![0, 0, 0xef, 0xbe]);
}

#[test]
fn queue_counts_follow_pushes_and_pops() {
    let mut q = Queue::new();
    let mut accepted = 0;
    let mut refused = 0;
    let mut popped = 0;
    for i in 0..100 {
        if i % 3 == 0 {
            if q.pop().is_some() {
                popped += 1;
            }
        } else if q.push(KeyEvent::Enter) {
            accepted += 1;
        } else {
            refused += 1;
        }
    }
    assert_eq!(q.len(), accepted - popped);
    assert_eq!(q.dropped() as usize, refused);
    assert!(q.len() <= CAPACITY);
}

#[test]
fn ata_waits_are_bounded() {
    let mut w = ata::Waiter::new();
    assert_eq!(w.next(Poll::Spin), None);
    assert_eq!(w.next(Poll::Ready), Some(Ok(())));
    let mut w = ata::Waiter::new();
    assert_eq!(w.next(Poll::Fail(AtaError::DriveError)), Some(Err(AtaError::DriveError)));
    let mut w = ata::Waiter::new();
    for _ in 0..ata::SPIN_LIMIT - 1 {
        assert_eq!(w.next(Poll::Spin), None);
    }
    assert_eq!(w.next(Poll::Spin), Some(Err(AtaError::Timeout)));
}

#[test]
fn ata_sector_words() {
    assert_eq!(ata::sector_word(0, 0), 0);
    assert_eq!(ata::sector_word(2, 5), 517);
}

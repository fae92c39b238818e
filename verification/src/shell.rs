//! The line shell: a prompt and a line editor fed key events from the input
//! queue. Printable ASCII is appended and echoed, backspace erases, and
//! enter submits the line, which is echoed back before a fresh prompt.
//!
//! The editor decides what to echo; the caller prints it.
use vstd::prelude::*;

use super::input::{KeyEvent, Queue};

verus! {

/// Longest line the editor holds.
pub const LINE_CAPACITY: usize = 72;

/// What the shell prints before each line.
pub const PROMPT: &'static str = "> ";

/// What handling one key event asks the caller to print.
pub enum Echo {
    /// Nothing changed.
    Nothing,
    /// The character was appended: print it.
    Char(char),
    /// The last character was erased: rub it out.
    Erase,
    /// The line was submitted: end the input line, print this line back,
    /// then a fresh prompt.
    Line(Vec<u8>),
}

/// Characters the editor accepts: printable ASCII.
pub open spec fn printable(c: char) -> bool {
    ' ' <= c <= '~'
}

/// The line after key event `e` arrives with `line` in the editor.
pub open spec fn step(line: Seq<u8>, e: KeyEvent) -> Seq<u8> {
    match e {
        KeyEvent::Char(c) => if printable(c) && line.len() < LINE_CAPACITY {
            line.push((c as int) as u8)
        } else {
            line
        },
        KeyEvent::Backspace => if line.len() > 0 {
            line.drop_last()
        } else {
            line
        },
        KeyEvent::Enter => Seq::empty(),
    }
}

/// `echo` is what key event `e` asks to print with `line` in the editor.
pub open spec fn echo_for(echo: Echo, line: Seq<u8>, e: KeyEvent) -> bool {
    match e {
        KeyEvent::Char(c) => if printable(c) && line.len() < LINE_CAPACITY {
            echo matches Echo::Char(x) && x == c
        } else {
            echo is Nothing
        },
        KeyEvent::Backspace => if line.len() > 0 {
            echo is Erase
        } else {
            echo is Nothing
        },
        KeyEvent::Enter => echo matches Echo::Line(v) && v@ == line,
    }
}

/// Typing character `c` with `line` in the editor: a character of printable
/// ASCII, from the space (0x20) through '~' (0x7e), is appended as its byte
/// and echoed while the line holds fewer than [`LINE_CAPACITY`] bytes; any
/// other character, or one typed into a full line, changes nothing and
/// echoes nothing.
pub proof fn lemma_typing(line: Seq<u8>, c: char, echo: Echo)
    requires
        echo_for(echo, line, KeyEvent::Char(c)),
    ensures
        0x20 <= c as u32 <= 0x7e && line.len() < 72 ==> step(line, KeyEvent::Char(c)) == line.push(
            c as u8,
        ) && (echo matches Echo::Char(x) && x == c),
        !(0x20 <= c as u32 <= 0x7e && line.len() < 72) ==> step(line, KeyEvent::Char(c)) == line
            && echo is Nothing,
{
}

/// Backspace erases the last byte typed and says so, or does nothing on an
/// empty line; Enter hands back exactly the line typed and leaves the editor
/// empty; and typing a printable character into a line with room, then
/// backspace, gives back the line as it was.
pub proof fn lemma_editing(line: Seq<u8>, c: char, erase: Echo, submit: Echo)
    requires
        echo_for(erase, line, KeyEvent::Backspace),
        echo_for(submit, line, KeyEvent::Enter),
    ensures
        line.len() > 0 ==> step(line, KeyEvent::Backspace) == line.subrange(0, line.len() - 1)
            && erase is Erase,
        line.len() == 0 ==> step(line, KeyEvent::Backspace) == line && erase is Nothing,
        submit matches Echo::Line(v) && v@ == line,
        step(line, KeyEvent::Enter).len() == 0,
        0x20 <= c as u32 <= 0x7e && line.len() < 72 ==> step(
            step(line, KeyEvent::Char(c)),
            KeyEvent::Backspace,
        ) == line,
{
    if 0x20 <= c as u32 <= 0x7e && line.len() < 72 {
        assert(line.push(c as u8).drop_last() =~= line);
    }
}

/// Typing up to [`LINE_CAPACITY`] characters `cs` of printable ASCII (0x20
/// through 0x7e, the space included) into an empty editor, as the key
/// events `events`, leaves exactly their bytes as the line, in the order
/// typed: what Enter then submits.
pub proof fn lemma_typed_line(cs: Seq<char>, events: Seq<KeyEvent>)
    requires
        cs.len() <= 72,
        events.len() == cs.len(),
        forall|k: int| 0 <= k < cs.len() ==> events[k] == KeyEvent::Char(#[trigger] cs[k]),
        forall|k: int| 0 <= k < cs.len() ==> 0x20 <= (#[trigger] cs[k]) as u32 <= 0x7e,
    ensures
        line_after(Seq::empty(), events).len() == cs.len(),
        forall|k: int|
            0 <= k < cs.len() ==> #[trigger] line_after(Seq::empty(), events)[k] == cs[k] as u8,
    decreases cs.len(),
{
    if cs.len() > 0 {
        let n = cs.len() - 1;
        let t = cs.drop_last();
        let te = events.drop_last();
        assert forall|k: int| 0 <= k < t.len() implies te[k] == KeyEvent::Char(#[trigger] t[k])
            && 0x20 <= t[k] as u32 <= 0x7e by {
            assert(t[k] == cs[k] && te[k] == events[k]);
        }
        lemma_typed_line(t, te);
        assert(events.last() == KeyEvent::Char(cs[n]));
        assert(0x20 <= cs[n] as u32 <= 0x7e);
        let l = line_after(Seq::empty(), events);
        assert forall|k: int| 0 <= k < cs.len() implies #[trigger] l[k] == cs[k] as u8 by {
            if k < n {
                assert(t[k] == cs[k]);
                assert(line_after(Seq::empty(), te)[k] == t[k] as u8);
            }
        }
    }
}

/// The line after each of `events` in turn, starting from `line`.
pub open spec fn line_after(line: Seq<u8>, events: Seq<KeyEvent>) -> Seq<u8>
    decreases events.len(),
{
    if events.len() == 0 {
        line
    } else {
        step(line_after(line, events.drop_last()), events.last())
    }
}

/// The line being typed.
pub struct LineEditor {
    buf: [u8; 72],
    len: usize,
}

impl View for LineEditor {
    type V = Seq<u8>;

    closed spec fn view(&self) -> Seq<u8> {
        self.buf@.subrange(0, self.len as int)
    }
}

impl Default for LineEditor {
    fn default() -> (e: LineEditor)
        ensures
            e.wf(),
            e@.len() == 0,
    {
        LineEditor::new()
    }
}

impl LineEditor {
    /// The length fits the buffer.
    pub closed spec fn wf(&self) -> bool {
        self.len <= LINE_CAPACITY
    }

    pub fn new() -> (e: LineEditor)
        ensures
            e.wf(),
            e@.len() == 0,
    {
        LineEditor { buf: [0u8; 72], len: 0 }
    }

    /// A well-formed editor never holds more than [`LINE_CAPACITY`] bytes.
    pub proof fn lemma_len_bounded(&self)
        requires
            self.wf(),
        ensures
            self@.len() <= LINE_CAPACITY,
    {
    }

    fn clear(&mut self)
        ensures
            final(self).wf(),
            final(self)@.len() == 0,
    {
        self.len = 0;
    }

    /// The line typed so far.
    pub fn line(&self) -> (v: Vec<u8>)
        requires
            self.wf(),
        ensures
            v@ == self@,
    {
        let mut v = Vec::new();
        let mut i: usize = 0;
        while i < self.len
            invariant
                i <= self.len <= LINE_CAPACITY,
                v@ == self.buf@.subrange(0, i as int),
            decreases self.len - i,
        {
            v.push(self.buf[i]);
            i += 1;
            assert(v@ =~= self.buf@.subrange(0, i as int));
        }
        v
    }

    fn push_char(&mut self, c: char) -> (pushed: bool)
        requires
            old(self).wf(),
        ensures
            final(self).wf(),
            pushed == (printable(c) && old(self)@.len() < LINE_CAPACITY),
            final(self)@ == step(old(self)@, KeyEvent::Char(c)),
    {
        if self.len >= LINE_CAPACITY {
            return false;
        }
        if !(' ' <= c && c <= '~') {
            return false;
        }
        let ghost before = self@;
        let byte = (c as u32) as u8;
        self.buf[self.len] = byte;
        self.len += 1;
        assert(self@ =~= before.push(byte));
        true
    }

    fn pop_char(&mut self) -> (popped: bool)
        requires
            old(self).wf(),
        ensures
            final(self).wf(),
            popped == (old(self)@.len() > 0),
            final(self)@ == step(old(self)@, KeyEvent::Backspace),
    {
        if self.len == 0 {
            return false;
        }
        self.len -= 1;
        assert(self@ =~= old(self)@.drop_last());
        true
    }

    /// Applies one key event and says what to print for it.
    pub fn handle_event(&mut self, event: KeyEvent) -> (echo: Echo)
        requires
            old(self).wf(),
        ensures
            final(self).wf(),
            final(self)@ == step(old(self)@, event),
            echo_for(echo, old(self)@, event),
    {
        match event {
            KeyEvent::Char(c) => {
                if self.push_char(c) {
                    Echo::Char(c)
                } else {
                    Echo::Nothing
                }
            },
            KeyEvent::Backspace => {
                if self.pop_char() {
                    Echo::Erase
                } else {
                    Echo::Nothing
                }
            },
            KeyEvent::Enter => {
                let line = self.line();
                self.clear();
                Echo::Line(line)
            },
        }
    }
}

/// Feeds every queued event to `editor`, oldest first, and returns what
/// each asked to print, in order.
pub fn drain_input(editor: &mut LineEditor, queue: &mut Queue) -> (echoes: Vec<Echo>)
    requires
        old(editor).wf(),
        old(queue).wf(),
    ensures
        final(editor).wf(),
        final(queue).wf(),
        final(queue)@.len() == 0,
        final(editor)@ == line_after(old(editor)@, old(queue)@),
        echoes@.len() == old(queue)@.len(),
        forall|i: int|
            0 <= i < echoes@.len() ==> echo_for(
                #[trigger] echoes@[i],
                line_after(old(editor)@, old(queue)@.take(i)),
                old(queue)@[i],
            ),
{
    let ghost q0 = queue@;
    let ghost e0 = editor@;
    let mut echoes: Vec<Echo> = Vec::new();
    loop
        invariant
            editor.wf(),
            queue.wf(),
            echoes@.len() <= q0.len(),
            queue@ == q0.skip(echoes@.len() as int),
            editor@ == line_after(e0, q0.take(echoes@.len() as int)),
            forall|i: int|
                0 <= i < echoes@.len() ==> echo_for(
                    #[trigger] echoes@[i],
                    line_after(e0, q0.take(i)),
                    q0[i],
                ),
        ensures
            queue@.len() == 0,
            echoes@.len() == q0.len(),
            editor@ == line_after(e0, q0),
            forall|i: int|
                0 <= i < echoes@.len() ==> echo_for(
                    #[trigger] echoes@[i],
                    line_after(e0, q0.take(i)),
                    q0[i],
                ),
            editor.wf(),
            queue.wf(),
        decreases queue@.len(),
    {
        let k = echoes.len();
        match queue.pop() {
            Some(event) => {
                assert(event == q0[k as int]);
                let echo = editor.handle_event(event);
                proof {
                    assert(q0.take(k + 1).drop_last() =~= q0.take(k as int));
                    assert(q0.take(k + 1).last() == q0[k as int]);
                    assert(q0.skip(k as int).drop_first() =~= q0.skip(k + 1));
                }
                echoes.push(echo);
            },
            None => {
                assert(q0.take(k as int) =~= q0);
                break ;
            },
        }
    }
    echoes
}

} // verus!

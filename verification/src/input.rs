//! The keyboard input queue: a fixed-capacity ring buffer of key events
//! between the IRQ handler that produces them and the shell that consumes
//! them. Events come out in the order they went in; when the queue is full a
//! new event is dropped and counted rather than overwriting an older one.
use vstd::prelude::*;

verus! {

/// Events the queue holds before it starts dropping.
pub const CAPACITY: usize = 64;

/// A key event, as the shell consumes it.
#[derive(Clone, Copy, PartialEq, Eq, Debug, Structural)]
pub enum KeyEvent {
    Char(char),
    Enter,
    Backspace,
}

/// Ring buffer of key events.
pub struct Queue {
    buf: [KeyEvent; 64],
    /// Where the next event goes.
    head: usize,
    /// Where the oldest event is.
    tail: usize,
    len: usize,
    dropped: u32,
}

impl View for Queue {
    /// The queued events, oldest first.
    type V = Seq<KeyEvent>;

    closed spec fn view(&self) -> Seq<KeyEvent> {
        Seq::new(self.len as nat, |i: int| self.buf@[(self.tail + i) % 64])
    }
}

impl Queue {
    /// The head, tail and length agree.
    pub closed spec fn wf(&self) -> bool {
        &&& self.len <= CAPACITY
        &&& self.tail < CAPACITY
        &&& self.head == (self.tail + self.len) % 64
    }

    /// Events dropped because the queue was full, saturating.
    pub closed spec fn dropped_spec(&self) -> u32 {
        self.dropped
    }

    /// What [`Queue::push`] of `event` did, going from `pre` to `post` and
    /// answering `pushed`: it takes the event exactly when there is room;
    /// otherwise the queue is unchanged and one more drop is counted,
    /// saturating.
    pub open spec fn push_step(pre: Queue, post: Queue, event: KeyEvent, pushed: bool) -> bool {
        &&& pushed == (pre@.len() < CAPACITY)
        &&& pushed ==> post@ == pre@.push(event) && post.dropped_spec() == pre.dropped_spec()
        &&& !pushed ==> post@ == pre@ && post.dropped_spec() == if pre.dropped_spec() == u32::MAX {
            u32::MAX
        } else {
            (pre.dropped_spec() + 1) as u32
        }
    }

    /// What [`Queue::pop`] did, going from `pre` to `post` and answering `e`:
    /// the oldest event comes off the front, if there is one.
    pub open spec fn pop_step(pre: Queue, post: Queue, e: Option<KeyEvent>) -> bool {
        &&& post.dropped_spec() == pre.dropped_spec()
        &&& pre@.len() == 0 ==> e is None && post@ == pre@
        &&& pre@.len() > 0 ==> e == Some(pre@[0]) && post@ == pre@.drop_first()
    }

    /// A well-formed queue never holds more than [`CAPACITY`] events.
    pub proof fn lemma_len_bounded(&self)
        requires
            self.wf(),
        ensures
            self@.len() <= CAPACITY,
    {
    }

    pub fn new() -> (q: Queue)
        ensures
            q.wf(),
            q@.len() == 0,
            q.dropped_spec() == 0,
    {
        Queue { buf: [KeyEvent::Char('\0'); 64], head: 0, tail: 0, len: 0, dropped: 0 }
    }

    /// Appends `event`; returns false (and counts a drop) when full.
    pub fn push(&mut self, event: KeyEvent) -> (pushed: bool)
        requires
            old(self).wf(),
        ensures
            final(self).wf(),
            Queue::push_step(*old(self), *final(self), event, pushed),
    {
        if self.len == CAPACITY {
            self.dropped = self.dropped.saturating_add(1);
            return false;
        }
        let ghost before = self@;
        self.buf[self.head] = event;
        self.head = (self.head + 1) % CAPACITY;
        self.len += 1;
        proof {
            assert forall|i: int| 0 <= i < before.len() implies self@[i] == before[i] by {
                assert((self.tail + i) % 64 != (self.tail + before.len()) % 64);
            }
            assert(self@ =~= before.push(event));
        }
        true
    }

    /// Takes the oldest event, if any.
    pub fn pop(&mut self) -> (e: Option<KeyEvent>)
        requires
            old(self).wf(),
        ensures
            final(self).wf(),
            Queue::pop_step(*old(self), *final(self), e),
    {
        if self.len == 0 {
            return None;
        }
        let ghost before = self@;
        let event = self.buf[self.tail];
        self.tail = (self.tail + 1) % CAPACITY;
        self.len -= 1;
        proof {
            assert forall|i: int| 0 <= i < self@.len() implies self@[i] == before[i + 1] by {
                assert(((old(self).tail + 1) % 64 + i) % 64 == (old(self).tail + (i + 1)) % 64);
            }
            assert(self@ =~= before.drop_first());
        }
        Some(event)
    }

    /// Events waiting.
    pub fn len(&self) -> (n: usize)
        requires
            self.wf(),
        ensures
            n == self@.len(),
    {
        self.len
    }

    /// Events dropped because the queue was full.
    pub fn dropped(&self) -> (n: u32)
        ensures
            n == self.dropped_spec(),
    {
        self.dropped
    }
}

/// One call on a queue and what it answered.
pub enum QueueCall {
    /// [`Queue::push`] of the event, and whether it was taken.
    Push(KeyEvent, bool),
    /// [`Queue::pop`], and what it returned.
    Pop(Option<KeyEvent>),
}

/// Going from `pre` to `post` is what call `c` does.
pub open spec fn queue_step(pre: Queue, post: Queue, c: QueueCall) -> bool {
    &&& post.wf()
    &&& match c {
        QueueCall::Push(e, pushed) => Queue::push_step(pre, post, e, pushed),
        QueueCall::Pop(r) => Queue::pop_step(pre, post, r),
    }
}

/// Pushes among `calls` that were taken.
pub open spec fn accepted_pushes(calls: Seq<QueueCall>) -> int
    decreases calls.len(),
{
    if calls.len() == 0 {
        0
    } else {
        accepted_pushes(calls.drop_last()) + if calls.last() matches QueueCall::Push(_, true) {
            1int
        } else {
            0
        }
    }
}

/// Pushes among `calls` that were refused.
pub open spec fn refused_pushes(calls: Seq<QueueCall>) -> int
    decreases calls.len(),
{
    if calls.len() == 0 {
        0
    } else {
        refused_pushes(calls.drop_last()) + if calls.last() matches QueueCall::Push(_, false) {
            1int
        } else {
            0
        }
    }
}

/// Pops among `calls` that returned an event.
pub open spec fn taken_pops(calls: Seq<QueueCall>) -> int
    decreases calls.len(),
{
    if calls.len() == 0 {
        0
    } else {
        taken_pops(calls.drop_last()) + if calls.last() matches QueueCall::Pop(Some(_)) {
            1int
        } else {
            0
        }
    }
}

/// Whatever pushes and pops a new queue goes through, it holds the events
/// taken less those popped, never more than [`CAPACITY`], and its drop count
/// is the number of refused pushes, saturating at `u32::MAX`. `states[k]` is
/// the queue after the first `k` of `calls`.
pub proof fn lemma_queue_counts(states: Seq<Queue>, calls: Seq<QueueCall>)
    requires
        states.len() == calls.len() + 1,
        states[0].wf(),
        states[0]@.len() == 0,
        states[0].dropped_spec() == 0,
        forall|k: int| 0 <= k < calls.len() ==> queue_step(states[k], #[trigger] states[k + 1], calls[k]),
    ensures
        states.last()@.len() == accepted_pushes(calls) - taken_pops(calls),
        states.last()@.len() <= CAPACITY,
        states.last().dropped_spec() == if refused_pushes(calls) >= u32::MAX {
            u32::MAX as int
        } else {
            refused_pushes(calls)
        },
    decreases calls.len(),
{
    if calls.len() > 0 {
        let n = calls.len() - 1;
        let s2 = states.drop_last();
        let c2 = calls.drop_last();
        assert forall|k: int| 0 <= k < c2.len() implies queue_step(s2[k], #[trigger] s2[k + 1], c2[k]) by {
            assert(s2[k] == states[k] && s2[k + 1] == states[k + 1] && c2[k] == calls[k]);
            assert(queue_step(states[k], states[k + 1], calls[k]));
        }
        lemma_queue_counts(s2, c2);
        assert(s2.last() == states[n]);
        assert(queue_step(states[n], states[n + 1], calls[n]));
        states[n + 1].lemma_len_bounded();
    } else {
        states[0].lemma_len_bounded();
    }
}

/// Events come out in the order they went in: pushing `e` onto a queue
/// holding `s` and then popping gives the front of `s`, or `e` itself when
/// `s` was empty, and leaves the rest of `s` followed by `e`.
pub proof fn lemma_first_in_first_out(s: Seq<KeyEvent>, e: KeyEvent)
    ensures
        s.push(e)[0] == if s.len() == 0 {
            e
        } else {
            s[0]
        },
        s.len() > 0 ==> s.push(e).drop_first() == s.drop_first().push(e),
{
    if s.len() > 0 {
        assert(s.push(e).drop_first() =~= s.drop_first().push(e));
    }
}

} // verus!

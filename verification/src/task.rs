//! Cooperative kernel tasks: up to [`MAX_TASKS`] slots, the boot context
//! in slot 0, round-robin on [`yield_now`].
//!
//! This module decides which slot a new task takes, which task runs next,
//! and how a new task's stack is laid out so the first switch to it lands in
//! the start trampoline and then its entry point; the stack memory and the
//! register switch itself belong to the caller.
use vstd::prelude::*;

verus! {

/// Bytes of stack each spawned task gets.
pub const STACK_SIZE: usize = 8 * 1024;

/// Task slots, the boot context included.
pub const MAX_TASKS: usize = 4;

/// Words pushed on a new task's stack before its first switch: the entry
/// point, the trampoline the switch returns into, and the four callee-saved
/// registers the switch pops.
pub const INITIAL_FRAME_WORDS: usize = 6;

/// Which task slots are taken and which one is running.
pub struct Scheduler {
    occupied: [bool; 4],
    current: usize,
    count: usize,
}

/// The first taken slot after `current`, going round, `current` itself
/// last; `None` when every slot is free.
pub open spec fn next_after(occupied: Seq<bool>, current: int) -> Option<int> {
    next_from(occupied, current, 1)
}

/// The first taken slot `current + offset`, `current + offset + 1`, ...,
/// `current + MAX_TASKS` (modulo the slot count).
pub open spec fn next_from(occupied: Seq<bool>, current: int, offset: int) -> Option<int>
    decreases MAX_TASKS + 1 - offset,
{
    if offset > MAX_TASKS || offset < 1 {
        None
    } else if occupied[(current + offset) % 4] {
        Some((current + offset) % 4)
    } else {
        next_from(occupied, current, offset + 1)
    }
}

proof fn lemma_next_from_range(occupied: Seq<bool>, current: int, offset: int)
    requires
        current >= 0,
    ensures
        next_from(occupied, current, offset) is Some ==> 0 <= next_from(occupied, current, offset)->0
            < MAX_TASKS,
    decreases MAX_TASKS + 1 - offset,
{
    if 1 <= offset <= MAX_TASKS && !occupied[(current + offset) % 4] {
        lemma_next_from_range(occupied, current, offset + 1);
    }
}

/// How many of the four slots are taken.
pub open spec fn taken(occupied: Seq<bool>) -> int {
    (if occupied[0] { 1int } else { 0 }) + (if occupied[1] { 1int } else { 0 }) + (if occupied[2] {
        1int
    } else {
        0
    }) + (if occupied[3] { 1int } else { 0 })
}

/// The first free slot at or after `i`.
pub open spec fn free_from(occupied: Seq<bool>, i: int) -> Option<int>
    decreases MAX_TASKS - i,
{
    if i >= MAX_TASKS || i < 0 {
        None
    } else if !occupied[i] {
        Some(i)
    } else {
        free_from(occupied, i + 1)
    }
}

impl View for Scheduler {
    /// `(occupied slots, running slot, task count)`.
    type V = (Seq<bool>, int, int);

    closed spec fn view(&self) -> Self::V {
        (self.occupied@, self.current as int, self.count as int)
    }
}

impl Scheduler {
    /// The running slot is taken and the count is the number of taken
    /// slots.
    pub open spec fn wf(&self) -> bool {
        &&& self@.0.len() == MAX_TASKS
        &&& 0 <= self@.1 < MAX_TASKS
        &&& self@.0[self@.1]
        &&& self@.2 == taken(self@.0)
    }

    /// What [`Scheduler::spawn`] did, going from `pre` to `post` and
    /// answering `id`: the lowest free slot is taken, if there is one.
    pub open spec fn spawn_step(pre: Scheduler, post: Scheduler, id: Option<usize>) -> bool {
        &&& id == match free_from(pre@.0, 0) {
            Some(i) => Some(i as usize),
            None => None::<usize>,
        }
        &&& id is Some ==> post@ == (pre@.0.update(id->0 as int, true), pre@.1, pre@.2 + 1)
        &&& id is None ==> post@ == pre@
    }

    /// What [`Scheduler::yield_now`] did, going from `pre` to `post` and
    /// answering `sw`: the next taken slot after the running one, going
    /// round, becomes the running one.
    pub open spec fn yield_step(pre: Scheduler, post: Scheduler, sw: Option<(usize, usize)>) -> bool {
        &&& post@.0 == pre@.0
        &&& post@.2 == pre@.2
        &&& match next_after(pre@.0, pre@.1) {
            Some(n) => if n == pre@.1 {
                sw is None && post@.1 == pre@.1
            } else {
                sw == Some((pre@.1 as usize, n as usize)) && post@.1 == n
            },
            None => sw is None && post@.1 == pre@.1,
        }
    }

    /// The boot context as task 0, running; nothing else.
    pub fn new() -> (s: Scheduler)
        ensures
            s.wf(),
            s@ == (seq![true, false, false, false], 0int, 1int),
    {
        let s = Scheduler { occupied: [true, false, false, false], current: 0, count: 1 };
        assert(s@.0 =~= seq![true, false, false, false]);
        s
    }

    /// Tasks created so far, the boot context included.
    pub fn count(&self) -> (n: usize)
        ensures
            n == self@.2,
    {
        self.count
    }

    /// The slot that is running.
    pub fn current(&self) -> (c: usize)
        ensures
            c == self@.1,
    {
        self.current
    }

    /// Takes the lowest free slot for a new task and returns its id, or
    /// `None` when all are taken.
    pub fn spawn(&mut self) -> (id: Option<usize>)
        requires
            old(self).wf(),
        ensures
            final(self).wf(),
            Scheduler::spawn_step(*old(self), *final(self), id),
    {
        let mut i: usize = 0;
        while i < MAX_TASKS
            invariant
                i <= MAX_TASKS,
                *self == *old(self),
                self.wf(),
                free_from(self@.0, 0) == free_from(self@.0, i as int),
            decreases MAX_TASKS - i,
        {
            if !self.occupied[i] {
                assert(free_from(self@.0, i as int) == Some(i as int));
                self.occupied[i] = true;
                self.count += 1;
                return Some(i);
            }
            i += 1;
        }
        None
    }

    /// Picks the task to run after the current one, round-robin, and makes
    /// it current. Returns `(from, to)` when that is a different task, or
    /// `None` when there is nothing else to run.
    pub fn yield_now(&mut self) -> (sw: Option<(usize, usize)>)
        requires
            old(self).wf(),
        ensures
            final(self).wf(),
            Scheduler::yield_step(*old(self), *final(self), sw),
    {
        let current = self.current;
        proof {
            lemma_next_from_range(self@.0, current as int, 1);
        }
        match next_task(&self.occupied, current) {
            None => None,
            Some(next) => {
                if next == current {
                    return None;
                }
                self.current = next;
                Some((current, next))
            },
        }
    }
}

/// One call on a scheduler and what it answered.
pub enum SchedulerCall {
    /// [`Scheduler::spawn`], and the slot it gave.
    Spawn(Option<usize>),
    /// [`Scheduler::yield_now`], and the switch it made.
    Yield(Option<(usize, usize)>),
}

/// Going from `pre` to `post` is what call `c` does.
pub open spec fn scheduler_step(pre: Scheduler, post: Scheduler, c: SchedulerCall) -> bool {
    &&& post.wf()
    &&& match c {
        SchedulerCall::Spawn(id) => Scheduler::spawn_step(pre, post, id),
        SchedulerCall::Yield(sw) => Scheduler::yield_step(pre, post, sw),
    }
}

/// Spawns among `calls` that gave a slot.
pub open spec fn successful_spawns(calls: Seq<SchedulerCall>) -> int
    decreases calls.len(),
{
    if calls.len() == 0 {
        0
    } else {
        successful_spawns(calls.drop_last()) + if calls.last() matches SchedulerCall::Spawn(Some(_)) {
            1int
        } else {
            0
        }
    }
}

/// Whatever spawns and yields a new scheduler goes through, it counts the
/// boot context plus one task per spawn that gave a slot, and never more
/// than [`MAX_TASKS`]. `states[k]` is the scheduler after the first `k` of
/// `calls`.
pub proof fn lemma_task_counts(states: Seq<Scheduler>, calls: Seq<SchedulerCall>)
    requires
        states.len() == calls.len() + 1,
        states[0].wf(),
        states[0]@.2 == 1,
        forall|k: int|
            0 <= k < calls.len() ==> scheduler_step(#[trigger] states[k], states[k + 1], calls[k]),
    ensures
        states.last()@.2 == 1 + successful_spawns(calls),
        states.last()@.2 <= MAX_TASKS,
    decreases calls.len(),
{
    if calls.len() > 0 {
        let n = calls.len() - 1;
        let s2 = states.drop_last();
        let c2 = calls.drop_last();
        assert forall|k: int| 0 <= k < c2.len() implies scheduler_step(#[trigger] s2[k], s2[k + 1], c2[k]) by {
            assert(s2[k] == states[k] && s2[k + 1] == states[k + 1] && c2[k] == calls[k]);
            assert(scheduler_step(states[k], states[k + 1], calls[k]));
        }
        lemma_task_counts(s2, c2);
        assert(s2.last() == states[n]);
        assert(scheduler_step(states[n], states[n + 1], calls[n]));
    }
}

/// How many slots past `c`, going round, slot `j` is.
pub open spec fn slots_ahead(c: int, j: int) -> int {
    (j - c + MAX_TASKS) % (MAX_TASKS as int)
}

proof fn lemma_next_from_within(occupied: Seq<bool>, c: int, j: int, offset: int) -> (o: int)
    requires
        0 <= c < MAX_TASKS,
        0 <= j < MAX_TASKS,
        occupied[j],
        1 <= offset <= slots_ahead(c, j),
    ensures
        offset <= o <= slots_ahead(c, j),
        next_from(occupied, c, offset) == Some((c + o) % 4),
    decreases slots_ahead(c, j) - offset,
{
    if occupied[(c + offset) % 4] {
        offset
    } else {
        if offset == slots_ahead(c, j) {
            assert((c + offset) % 4 == j);
        }
        lemma_next_from_within(occupied, c, j, offset + 1)
    }
}

/// A yield away from slot `c` lands on a taken slot nearer, going round, to
/// any other taken slot `j`.
proof fn lemma_yield_nears(pre: Scheduler, post: Scheduler, sw: Option<(usize, usize)>, j: int)
    requires
        pre.wf(),
        Scheduler::yield_step(pre, post, sw),
        0 <= j < MAX_TASKS,
        pre@.0[j],
        pre@.1 != j,
    ensures
        slots_ahead(post@.1, j) < slots_ahead(pre@.1, j),
        0 <= post@.1 < MAX_TASKS,
{
    let c = pre@.1;
    let o = lemma_next_from_within(pre@.0, c, j, 1);
    assert(next_after(pre@.0, c) == Some((c + o) % 4));
    assert((c + o) % 4 != c);
}

/// Round-robin is fair: while no task is spawned, every task runs at least
/// once in any [`MAX_TASKS`] - 1 yields in a row. `states[k]` is the
/// scheduler after the first `k` of the yields `sws` answered.
pub proof fn lemma_round_robin_fair(states: Seq<Scheduler>, sws: Seq<Option<(usize, usize)>>, j: int)
    requires
        states.len() == MAX_TASKS,
        sws.len() == MAX_TASKS - 1,
        states[0].wf(),
        forall|k: int|
            0 <= k < sws.len() ==> Scheduler::yield_step(#[trigger] states[k], states[k + 1], sws[k])
                && states[k + 1].wf(),
        0 <= j < MAX_TASKS,
        states[0]@.0[j],
    ensures
        exists|k: int| 0 <= k < MAX_TASKS && (#[trigger] states[k])@.1 == j,
{
    assert(Scheduler::yield_step(states[0], states[1], sws[0]) && states[1].wf());
    assert(Scheduler::yield_step(states[1], states[2], sws[1]) && states[2].wf());
    assert(Scheduler::yield_step(states[2], states[3], sws[2]) && states[3].wf());
    if states[0]@.1 != j {
        lemma_yield_nears(states[0], states[1], sws[0], j);
        if states[1]@.1 != j {
            lemma_yield_nears(states[1], states[2], sws[1], j);
            if states[2]@.1 != j {
                lemma_yield_nears(states[2], states[3], sws[2], j);
                assert(states[3]@.1 == j);
            }
        }
    }
}

/// The first taken slot after `current`, going round, `current` last.
pub fn next_task(occupied: &[bool; 4], current: usize) -> (n: Option<usize>)
    requires
        current < MAX_TASKS,
    ensures
        n == match next_after(occupied@, current as int) {
            Some(i) => Some(i as usize),
            None => None::<usize>,
        },
        n is Some ==> n->0 < MAX_TASKS && occupied@[n->0 as int],
{
    let mut offset: usize = 1;
    while offset <= MAX_TASKS
        invariant
            1 <= offset <= MAX_TASKS + 1,
            current < MAX_TASKS,
            next_after(occupied@, current as int) == next_from(occupied@, current as int, offset as int),
        decreases MAX_TASKS + 1 - offset,
    {
        let idx = (current + offset) % MAX_TASKS;
        if occupied[idx] {
            return Some(idx);
        }
        offset += 1;
    }
    None
}

/// Top of a new task's stack spanning `len` bytes from `base`: its end,
/// rounded down to 16 bytes.
pub fn stack_top(base: usize, len: usize) -> (top: usize)
    requires
        base + len <= usize::MAX,
    ensures
        top == (base + len) / 16 * 16,
{
    let end = base + len;
    assert(end & !0xfusize == end / 16 * 16) by (bit_vector);
    end & !0xf
}

/// Where each word of a new task's initial frame goes below `top`, and the
/// stack pointer the first switch starts from: the entry point at
/// `top - 4`, the trampoline at `top - 8`, four zeroed registers below, and
/// the stack pointer at the last of them.
pub fn initial_frame(top: usize, entry: u32, trampoline: u32) -> (frame: (usize, Vec<(usize, u32)>))
    requires
        top >= 24,
    ensures
        frame.0 == top - 24,
        frame.1@ == seq![
            ((top - 4) as usize, entry),
            ((top - 8) as usize, trampoline),
            ((top - 12) as usize, 0u32),
            ((top - 16) as usize, 0u32),
            ((top - 20) as usize, 0u32),
            ((top - 24) as usize, 0u32),
        ],
{
    let mut words: Vec<(usize, u32)> = Vec::new();
    let mut esp = top;
    esp -= 4;
    words.push((esp, entry));
    esp -= 4;
    words.push((esp, trampoline));
    let mut k: usize = 0;
    while k < 4
        invariant
            k <= 4,
            top >= 24,
            esp == top - 8 - 4 * k,
            words@.len() == 2 + k,
            words@[0] == ((top - 4) as usize, entry),
            words@[1] == ((top - 8) as usize, trampoline),
            forall|j: int| 2 <= j < 2 + k ==> words@[j] == ((top - 4 - 4 * j) as usize, 0u32),
        decreases 4 - k,
    {
        esp -= 4;
        words.push((esp, 0));
        k += 1;
    }
    assert(words@ =~= seq![
        ((top - 4) as usize, entry),
        ((top - 8) as usize, trampoline),
        ((top - 12) as usize, 0u32),
        ((top - 16) as usize, 0u32),
        ((top - 20) as usize, 0u32),
        ((top - 24) as usize, 0u32),
    ]);
    (esp, words)
}

} // verus!

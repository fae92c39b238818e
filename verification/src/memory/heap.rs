//! Kernel heap: where `alloc` (`Vec`, `Box`, `String`) gets its memory.
//!
//! [`super::frame`] hands out whole 4 KiB frames; most kernel data structures
//! want something smaller. This module carves a contiguous run of those
//! frames into a heap managed by a first-fit free list with coalescing.
//!
//! The free list is intrusive: every block, free or live, starts with an
//! 8-byte header of two little words, its size (header included) and, for a
//! free block, the address of the next free block (0 for none). The heap's
//! bytes are handed to each operation as a slice of those 32-bit words, the
//! first word at the heap's start address, so the bookkeeping lives in the
//! managed memory itself exactly as the allocator finds it there.
use vstd::prelude::*;

use super::frame::{Frame, FrameAllocator};

verus! {

/// Bytes the heap claims from the frame allocator.
pub const HEAP_SIZE: usize = 1024 * 1024;

/// Frames the heap claims: [`HEAP_SIZE`] in 4 KiB frames.
pub const HEAP_FRAMES: usize = HEAP_SIZE / 4096;

/// Every heap block - free or live - is aligned to this.
pub const ALIGN: usize = 8;

/// Bytes occupied by a block header (`size` + `next`).
pub const HEADER_SIZE: usize = 8;

/// A block `(address, size)`, size counting the header.
pub type Block = (int, int);

/// Two blocks share no byte.
pub open spec fn apart(a: Block, b: Block) -> bool {
    a.0 + a.1 <= b.0 || b.0 + b.1 <= a.0
}

/// Index of the word at address `a` in memory starting at `start`.
#[verifier::opaque]
pub closed spec fn word_of(start: int, a: int) -> int {
    (a - start) / 4
}

/// Sum of the sizes of `s`.
pub open spec fn total_size(s: Seq<Block>) -> int
    decreases s.len(),
{
    if s.len() == 0 {
        0
    } else {
        total_size(s.drop_last()) + s.last().1
    }
}

/// Blocks in address order with a gap between neighbours take up at most
/// the span from the first one's start to the last one's end, less a byte
/// per gap.
proof fn lemma_span(s: Seq<Block>)
    requires
        s.len() > 0,
        forall|i: int| 0 <= i < s.len() - 1 ==> (#[trigger] s[i]).0 + s[i].1 < s[i + 1].0,
        forall|i: int| 0 <= i < s.len() ==> #[trigger] s[i].1 >= 0,
    ensures
        total_size(s) + s.len() - 1 <= s.last().0 + s.last().1 - s[0].0,
    decreases s.len(),
{
    if s.len() > 1 {
        let t = s.drop_last();
        assert forall|i: int| 0 <= i < t.len() - 1 implies (#[trigger] t[i]).0 + t[i].1 < t[i + 1].0 by {
            assert(t[i] == s[i] && t[i + 1] == s[i + 1]);
        }
        assert forall|i: int| 0 <= i < t.len() implies #[trigger] t[i].1 >= 0 by {
            assert(t[i] == s[i]);
        }
        lemma_span(t);
        assert(t.last() == s[s.len() - 2]);
        assert(s[s.len() - 2].0 + s[s.len() - 2].1 < s[s.len() - 1].0);
        assert(t[0] == s[0]);
        assert(total_size(s) == total_size(t) + s.last().1);
    } else {
        assert(s.drop_last() =~= Seq::<Block>::empty());
        assert(total_size(s.drop_last()) == 0);
        assert(total_size(s) == s[0].1);
        assert(s.last() == s[0]);
    }
}

proof fn lemma_total_nonneg(s: Seq<Block>)
    requires
        forall|k: int| 0 <= k < s.len() ==> s[k].1 >= 0,
    ensures
        total_size(s) >= 0,
    decreases s.len(),
{
    if s.len() > 0 {
        lemma_total_nonneg(s.drop_last());
    }
}

proof fn lemma_total_concat(a: Seq<Block>, b: Seq<Block>)
    ensures
        total_size(a + b) == total_size(a) + total_size(b),
    decreases b.len(),
{
    if b.len() > 0 {
        lemma_total_concat(a, b.drop_last());
        assert((a + b).drop_last() =~= a + b.drop_last());
    }
}

proof fn lemma_total_split(s: Seq<Block>, i: int)
    requires
        0 <= i < s.len(),
    ensures
        total_size(s) == total_size(s.take(i)) + s[i].1 + total_size(s.skip(i + 1)),
{
    assert(s =~= s.take(i) + seq![s[i]] + s.skip(i + 1));
    lemma_total_concat(s.take(i) + seq![s[i]], s.skip(i + 1));
    lemma_total_concat(s.take(i), seq![s[i]]);
    assert(seq![s[i]].drop_last() =~= Seq::<Block>::empty());
    reveal_with_fuel(total_size, 2);
}

proof fn lemma_total_update(s: Seq<Block>, i: int, b: Block)
    requires
        0 <= i < s.len(),
    ensures
        total_size(s.update(i, b)) == total_size(s) - s[i].1 + b.1,
{
    lemma_total_split(s, i);
    lemma_total_split(s.update(i, b), i);
    assert(s.update(i, b).take(i) =~= s.take(i));
    assert(s.update(i, b).skip(i + 1) =~= s.skip(i + 1));
}

proof fn lemma_total_remove(s: Seq<Block>, i: int)
    requires
        0 <= i < s.len(),
    ensures
        total_size(s.remove(i)) == total_size(s) - s[i].1,
{
    lemma_total_split(s, i);
    assert(s.remove(i) =~= s.take(i) + s.skip(i + 1));
    lemma_total_concat(s.take(i), s.skip(i + 1));
}


proof fn lemma_total_push(s: Seq<Block>, b: Block)
    ensures
        total_size(s.push(b)) == total_size(s) + b.1,
{
    assert(s.push(b).drop_last() =~= s);
}

/// Bytes a live block needs for `payload` usable bytes: the payload rounded
/// up to [`ALIGN`], plus the header, rounded up again.
pub open spec fn block_size_for(payload: int) -> int {
    round_up(round_up(payload) + HEADER_SIZE)
}

/// `value` rounded up to a multiple of [`ALIGN`].
pub open spec fn round_up(value: int) -> int {
    (value + 7) / 8 * 8
}

fn align_up(value: usize, align: usize) -> (r: Option<usize>)
    requires
        align == ALIGN,
    ensures
        r == if value + 7 <= usize::MAX {
            Some(round_up(value as int) as usize)
        } else {
            None
        },
{
    let mask = align - 1;
    let bumped = value.checked_add(mask)?;
    assert(bumped & !7usize == (bumped / 8) * 8) by (bit_vector);
    Some(bumped & !mask)
}

fn aligned_block_size(payload: usize) -> (r: Option<usize>)
    ensures
        r == if round_up(payload as int) + HEADER_SIZE + 7 <= usize::MAX
            && payload + 7 <= usize::MAX {
            Some(block_size_for(payload as int) as usize)
        } else {
            None
        },
{
    let without_header = align_up(payload, ALIGN)?;
    match without_header.checked_add(HEADER_SIZE) {
        Some(n) => align_up(n, ALIGN),
        None => None,
    }
}

/// The free list plus the heap's fixed bounds. Empty until
/// [`Heap::init`] fills it in; allocations against an empty heap return 0.
pub struct Heap {
    heap_start: usize,
    heap_end: usize,
    /// Address of the first free block, or 0.
    free_list: usize,
    /// Bytes currently handed out (payload + their headers).
    used: usize,
    /// Successful allocations since init, wrapping.
    allocations: usize,
    /// The free blocks, in list order.
    free: Ghost<Seq<Block>>,
    /// The live blocks.
    live: Ghost<Seq<Block>>,
}

impl Heap {
    /// Word index of the header of the block at address `a`.
    pub closed spec fn hdr(self, a: int) -> int {
        word_of(self.heap_start as int, a)
    }

    /// A block lies inside the heap, aligned, at least a header long.
    pub closed spec fn block_ok(self, b: Block) -> bool {
        &&& self.heap_start <= b.0
        &&& b.0 + b.1 <= self.heap_end
        &&& b.0 % 8 == 0
        &&& b.1 % 8 == 0
        &&& b.1 >= 8
    }

    pub closed spec fn free_blocks(self) -> Seq<Block> {
        self.free@
    }

    pub closed spec fn live_blocks(self) -> Seq<Block> {
        self.live@
    }

    pub closed spec fn used_spec(self) -> int {
        self.used as int
    }

    /// Successful allocations since [`Heap::init`], wrapping.
    pub closed spec fn allocations_spec(self) -> int {
        self.allocations as int
    }

    pub closed spec fn start_spec(self) -> int {
        self.heap_start as int
    }

    pub closed spec fn end_spec(self) -> int {
        self.heap_end as int
    }

    /// Whether the heap has a backing region.
    pub open spec fn ready(self) -> bool {
        self.end_spec() > self.start_spec()
    }

    /// Whether `a` is the address of a live block.
    pub open spec fn is_live(self, a: int) -> bool {
        exists|i: int| 0 <= i < self.live_blocks().len() && self.live_blocks()[i].0 == a
    }

    /// The heap's region matches its memory.
    pub closed spec fn frame_ok(self, mem: Seq<u32>) -> bool {
        &&& self.heap_start > 0
        &&& self.heap_start % 8 == 0
        &&& self.heap_end <= u32::MAX
        &&& (self.heap_end - self.heap_start) % 8 == 0
        &&& mem.len() * 4 == self.heap_end - self.heap_start
    }

    /// Every block lies inside the heap, aligned.
    #[verifier::opaque]
    pub closed spec fn inside(self) -> bool {
        &&& forall|k: int| 0 <= k < self.free@.len() ==> self.block_ok(#[trigger] self.free@[k])
        &&& forall|k: int| 0 <= k < self.live@.len() ==> self.block_ok(#[trigger] self.live@[k])
    }

    /// The free list is in address order and its blocks do not overlap.
    #[verifier::opaque]
    pub closed spec fn sorted(self) -> bool {
        forall|i: int, j: int|
            0 <= i < j < self.free@.len() ==> (#[trigger] self.free@[i]).0 + self.free@[i].1 <= (
            #[trigger] self.free@[j]).0
    }

    /// No live block overlaps another block.
    #[verifier::opaque]
    pub closed spec fn disjoint(self) -> bool {
        &&& forall|i: int, j: int|
            0 <= i < j < self.live@.len() ==> apart(#[trigger] self.live@[i], #[trigger] self.live@[j])
        &&& forall|i: int, j: int|
            0 <= i < self.live@.len() && 0 <= j < self.free@.len() ==> apart(
                #[trigger] self.live@[i],
                #[trigger] self.free@[j],
            )
    }

    /// No two neighbouring free blocks touch: freeing merges them.
    #[verifier::opaque]
    pub closed spec fn coalesced(self) -> bool {
        forall|i: int|
            0 <= i < self.free@.len() - 1 ==> (#[trigger] self.free@[i]).0 + self.free@[i].1
                < self.free@[i + 1].0
    }

    /// Every free block's header word holds its size.
    #[verifier::opaque]
    pub closed spec fn free_sizes(self, mem: Seq<u32>) -> bool {
        forall|k: int|
            0 <= k < self.free@.len() ==> mem[self.hdr((#[trigger] self.free@[k]).0)] == self.free@[k].1
    }

    /// Every free block's second word holds the address of the next free
    /// block, or 0 for the last.
    #[verifier::opaque]
    pub closed spec fn free_links(self, mem: Seq<u32>) -> bool {
        forall|k: int|
            0 <= k < self.free@.len() ==> mem[self.hdr((#[trigger] self.free@[k]).0) + 1] == if k + 1
                < self.free@.len() {
                self.free@[k + 1].0
            } else {
                0
            }
    }

    /// Every live block's header word holds its size.
    #[verifier::opaque]
    pub closed spec fn live_sizes(self, mem: Seq<u32>) -> bool {
        forall|k: int|
            0 <= k < self.live@.len() ==> mem[self.hdr((#[trigger] self.live@[k]).0)] == self.live@[k].1
    }

    /// Every block's header is in place in `mem`.
    pub closed spec fn headers(self, mem: Seq<u32>) -> bool {
        &&& self.free_sizes(mem)
        &&& self.free_links(mem)
        &&& self.live_sizes(mem)
    }

    /// Bytes handed out plus bytes free make up the whole heap.
    pub closed spec fn accounting(self) -> bool {
        &&& self.free_list == if self.free@.len() > 0 {
            self.free@[0].0
        } else {
            0
        }
        &&& self.used == total_size(self.live@)
        &&& total_size(self.live@) + total_size(self.free@) == self.heap_end - self.heap_start
    }

    /// The heap's internal consistency, against the words of its memory.
    pub closed spec fn wf(self, mem: Seq<u32>) -> bool {
        &&& self.heap_start <= self.heap_end
        &&& if self.heap_end > self.heap_start {
            &&& self.frame_ok(mem)
            &&& self.inside()
            &&& self.sorted()
            &&& self.disjoint()
            &&& self.headers(mem)
            &&& self.coalesced()
            &&& self.accounting()
        } else {
            &&& self.free@.len() == 0
            &&& self.live@.len() == 0
            &&& self.free_list == 0
            &&& self.used == 0
        }
    }

    /// A heap with no backing region: every allocation against it fails.
    pub fn empty() -> (h: Heap)
        ensures
            h.wf(Seq::empty()),
            !h.ready(),
            h.used_spec() == 0,
            h.allocations_spec() == 0,
    {
        Heap {
            heap_start: 1,
            heap_end: 1,
            free_list: 0,
            used: 0,
            allocations: 0,
            free: Ghost(Seq::empty()),
            live: Ghost(Seq::empty()),
        }
    }

    /// Whether the heap has a backing region.
    pub fn is_ready(&self) -> (b: bool)
        ensures
            b == self.ready(),
    {
        self.heap_end > self.heap_start
    }

    /// Bytes currently handed out, headers included.
    pub fn used(&self) -> (u: usize)
        ensures
            u == self.used_spec(),
    {
        self.used
    }

    /// Successful allocations since [`Heap::init`], wrapping.
    pub fn allocations(&self) -> (n: usize)
        ensures
            n == self.allocations_spec(),
    {
        self.allocations
    }

    /// Takes over `start..start + mem.len() * 4` as one free block.
    pub fn init(&mut self, mem: &mut [u32], start: usize)
        requires
            start > 0,
            start % 8 == 0,
            old(mem)@.len() * 4 >= HEADER_SIZE,
            (old(mem)@.len() * 4) % 8 == 0,
            start + old(mem)@.len() * 4 <= u32::MAX,
        ensures
            final(self).wf(final(mem)@),
            final(self).ready(),
            final(self).start_spec() == start,
            final(self).end_spec() == start + old(mem)@.len() * 4,
            final(self).free_blocks() == seq![(start as int, (old(mem)@.len() * 4) as int)],
            final(self).live_blocks().len() == 0,
            final(self).used_spec() == 0,
            final(self).allocations_spec() == 0,
            final(mem)@.len() == old(mem)@.len(),
    {
        let size = mem.len() * 4;
        mem[0] = size as u32;
        mem[1] = 0;
        self.heap_start = start;
        self.heap_end = start + size;
        self.free_list = start;
        self.used = 0;
        self.allocations = 0;
        proof {
            self.free@ = seq![(start as int, size as int)];
            self.live@ = Seq::empty();
            assert(total_size(self.free@) == size) by {
                assert(self.free@.drop_last() =~= Seq::<Block>::empty());
                reveal_with_fuel(total_size, 2);
            }
            assert(self.hdr(start as int) == 0) by {
                reveal(word_of);
            }
            reveal(Heap::inside);
            reveal(Heap::sorted);
            reveal(Heap::disjoint);
            reveal(Heap::free_sizes);
            reveal(Heap::free_links);
            reveal(Heap::live_sizes);
            reveal(Heap::coalesced);
        }
    }
}


impl Heap {
    proof fn lemma_hdr(self, mem: Seq<u32>, a: int, size: int)
        requires
            self.frame_ok(mem),
            self.block_ok((a, size)),
        ensures
            self.hdr(a) * 4 == a - self.heap_start,
            self.hdr(a) % 2 == 0,
            0 <= self.hdr(a),
            self.hdr(a) + 1 < mem.len(),
            self.hdr(a) + size / 4 <= mem.len(),
    {
        reveal(word_of);
    }

    /// The first free block, in list order, that can hold `needed` bytes is
    /// the `k`th.
    pub open spec fn first_fit(self, k: int, needed: int) -> bool {
        &&& 0 <= k < self.free_blocks().len()
        &&& self.free_blocks()[k].1 >= needed
        &&& forall|j: int| 0 <= j < k ==> self.free_blocks()[j].1 < needed
    }

    /// No free block can hold `needed` bytes.
    pub open spec fn no_fit(self, needed: int) -> bool {
        forall|j: int| 0 <= j < self.free_blocks().len() ==> self.free_blocks()[j].1 < needed
    }

    /// What [`Heap::allocate`] on `pre` for `size` bytes aligned to `align`
    /// did, leaving `post` and returning address `p`: first fit over the free
    /// list, splitting off the tail of the block as a free block when it can
    /// hold a header of its own.
    pub open spec fn allocation(pre: Heap, post: Heap, size: int, align: int, p: int) -> bool {
        let needed = block_size_for(size);
        let fl = pre.free_blocks();
        &&& post.start_spec() == pre.start_spec()
        &&& post.end_spec() == pre.end_spec()
        &&& post.allocations_spec() == if p == 0 {
            pre.allocations_spec()
        } else if pre.allocations_spec() == usize::MAX {
            0
        } else {
            pre.allocations_spec() + 1
        }
        &&& if !pre.ready() || size == 0 || align > ALIGN || size + 7 > usize::MAX || round_up(size)
            + HEADER_SIZE + 7 > usize::MAX || pre.no_fit(needed) {
            &&& p == 0
            &&& post.free_blocks() == pre.free_blocks()
            &&& post.live_blocks() == pre.live_blocks()
            &&& post.used_spec() == pre.used_spec()
        } else {
            forall|k: int|
                pre.first_fit(k, needed) ==> {
                    let b = fl[k];
                    let rem = b.1 - needed;
                    &&& p == b.0 + HEADER_SIZE
                    &&& post.free_blocks() == if rem >= HEADER_SIZE {
                        fl.update(k, (b.0 + needed, rem))
                    } else {
                        fl.remove(k)
                    }
                    &&& post.live_blocks() == pre.live_blocks().push(
                        (
                            b.0,
                            if rem >= HEADER_SIZE {
                                needed
                            } else {
                                b.1
                            },
                        ),
                    )
                    &&& post.used_spec() == pre.used_spec() + post.live_blocks().last().1
                }
        }
    }

    /// Takes the first free block that can hold `size` bytes (plus header),
    /// aligned to at most [`ALIGN`]. Returns the payload address, or 0 when
    /// the heap is not ready, the request is empty or too strictly aligned,
    /// or nothing fits.
    #[verifier::spinoff_prover]
    #[verifier::rlimit(50)]
    pub fn allocate(&mut self, mem: &mut [u32], size: usize, align: usize) -> (p: usize)
        requires
            old(self).wf(old(mem)@),
        ensures
            final(self).wf(final(mem)@),
            final(mem)@.len() == old(mem)@.len(),
            Heap::allocation(*old(self), *final(self), size as int, align as int, p as int),
            forall|i: int, w: int|
                #![trigger old(self).live_blocks()[i], final(mem)@[w]]
                0 <= i < old(self).live_blocks().len() && 0 <= w < old(mem)@.len()
                    && old(self).live_blocks()[i].0 <= old(self).start_spec() + 4 * w
                    < old(self).live_blocks()[i].0 + old(self).live_blocks()[i].1
                    ==> final(mem)@[w] == old(mem)@[w],
    {
        if !self.is_ready() || size == 0 {
            return 0;
        }
        if align > ALIGN {
            return 0;
        }
        let needed = match aligned_block_size(size) {
            Some(n) => n,
            None => return 0,
        };
        let ghost fl = self.free@;
        let ghost lv = self.live@;
        let mut prev: usize = 0;
        let mut current = self.free_list;
        let ghost mut k: int = 0;
        while current != 0
            invariant
                self.wf(mem@),
                *self == *old(self),
                mem@ == old(mem)@,
                self.ready(),
                fl == self.free@,
                lv == self.live@,
                needed == block_size_for(size as int),
                size > 0,
                align <= ALIGN,
                size + 7 <= usize::MAX,
                round_up(size as int) + HEADER_SIZE + 7 <= usize::MAX,
                needed >= 16,
                needed % 8 == 0,
                0 <= k <= fl.len(),
                current == if k < fl.len() {
                    fl[k].0
                } else {
                    0
                },
                prev == if k > 0 {
                    fl[k - 1].0
                } else {
                    0
                },
                forall|j: int| 0 <= j < k ==> fl[j].1 < needed,
            decreases fl.len() - k,
        {
            proof {
                reveal(Heap::inside);
                reveal(Heap::free_sizes);
            reveal(Heap::free_links);
            reveal(Heap::live_sizes);
                assert(self.block_ok(fl[k]));
                self.lemma_hdr(mem@, fl[k].0, fl[k].1);
                assert(mem@[self.hdr(fl[k].0)] == fl[k].1);
                assert(mem@[self.hdr(fl[k].0) + 1] == if k + 1 < fl.len() {
                    fl[k + 1].0
                } else {
                    0
                });
                if k > 0 {
                    assert(self.block_ok(fl[k - 1]));
                }
                if k + 1 < fl.len() {
                    assert(self.block_ok(fl[k + 1]));
                }
            }
            let word = (current - self.heap_start) / 4;
            let block_size = mem[word] as usize;
            let next = mem[word + 1] as usize;
            if block_size >= needed {
                proof {
                    assert(self.first_fit(k, needed as int));
                    assert forall|k2: int| self.first_fit(k2, needed as int) implies k2 == k by {
                        if k2 < k {
                            assert(fl[k2].1 < needed);
                        } else if k2 > k {
                            assert(fl[k].1 < needed);
                        }
                    }
                    assert(!self.no_fit(needed as int));
                }
                let p = self.take_block(mem, prev, current, block_size, next, needed, Ghost(k));
                proof {
                    let pre = *old(self);
                    let post = *self;
                    assert(needed == block_size_for(size as int));
                    assert(!(!pre.ready() || size == 0 || align > ALIGN || size + 7 > usize::MAX
                        || round_up(size as int) + HEADER_SIZE + 7 > usize::MAX || pre.no_fit(
                        needed as int,
                    )));
                    assert(p == fl[k].0 + HEADER_SIZE);
                }
                return p;
            }
            prev = current;
            current = next;
            proof {
                k = k + 1;
            }
        }
        proof {
            if k < fl.len() {
                reveal(Heap::inside);
                assert(self.block_ok(fl[k]));
            }
            assert(self.no_fit(needed as int));
        }
        0
    }

    /// What the writes of one allocation did to the heap and its memory: the
    /// `k`th free block, first to fit `needed` bytes, went live, its tail
    /// staying free when it can hold a header.
    spec fn alloc_effect(pre: Heap, mem0: Seq<u32>, post: Heap, mem1: Seq<u32>, k: int, needed: int) -> bool {
        let fl = pre.free@;
        let b = fl[k];
        let rem = b.1 - needed;
        let split_case = rem >= HEADER_SIZE;
        let split = b.0 + needed;
        let next = if k + 1 < fl.len() {
            fl[k + 1].0
        } else {
            0
        };
        let newsize = if split_case {
            needed
        } else {
            b.1
        };
        let link = if split_case {
            split
        } else {
            next
        };
        let hc = pre.hdr(b.0);
        let hp = if k > 0 {
            pre.hdr(fl[k - 1].0)
        } else {
            -2
        };
        let hs = pre.hdr(split);
        &&& pre.wf(mem0)
        &&& pre.ready()
        &&& pre.first_fit(k, needed)
        &&& needed >= 16
        &&& needed % 8 == 0
        &&& post.heap_start == pre.heap_start
        &&& post.heap_end == pre.heap_end
        &&& mem1.len() == mem0.len()
        &&& post.free@ == if split_case {
            fl.update(k, (split, rem))
        } else {
            fl.remove(k)
        }
        &&& post.live@ == pre.live@.push((b.0, newsize))
        &&& post.used == pre.used + newsize
        &&& post.free_list == if k == 0 {
            link
        } else {
            pre.free_list as int
        }
        &&& forall|w: int|
            0 <= w < mem1.len() ==> mem1[w] == if w == hc {
                newsize as u32
            } else if w == hc + 1 {
                0u32
            } else if k > 0 && w == hp + 1 {
                link as u32
            } else if split_case && w == hs {
                rem as u32
            } else if split_case && w == hs + 1 {
                next as u32
            } else {
                mem0[w]
            }
    }

    #[verifier::spinoff_prover]
    #[verifier::rlimit(50)]
    proof fn lemma_alloc_basics(pre: Heap, mem0: Seq<u32>, post: Heap, mem1: Seq<u32>, k: int, needed: int)
        requires
            Heap::alloc_effect(pre, mem0, post, mem1, k, needed),
        ensures
            pre.block_ok(pre.free@[k]),
            (pre.free@[k].1 - needed) % 8 == 0,
            post.frame_ok(mem1),
            k > 0 ==> pre.block_ok(pre.free@[k - 1]) && pre.free@[k - 1].0 + pre.free@[k - 1].1
                <= pre.free@[k].0,
            k + 1 < pre.free@.len() ==> pre.block_ok(pre.free@[k + 1]) && pre.free@[k].0
                + pre.free@[k].1 <= pre.free@[k + 1].0,
    {
        reveal(Heap::inside);
        reveal(Heap::sorted);
        assert(pre.block_ok(pre.free@[k]));
        if k > 0 {
            assert(pre.block_ok(pre.free@[k - 1]));
        }
        if k + 1 < pre.free@.len() {
            assert(pre.block_ok(pre.free@[k + 1]));
        }
    }

    #[verifier::spinoff_prover]
    #[verifier::rlimit(50)]
    proof fn lemma_alloc_inside(pre: Heap, mem0: Seq<u32>, post: Heap, mem1: Seq<u32>, k: int, needed: int)
        requires
            Heap::alloc_effect(pre, mem0, post, mem1, k, needed),
        ensures
            post.inside(),
    {
        Heap::lemma_alloc_basics(pre, mem0, post, mem1, k, needed);
        reveal(Heap::inside);
        let fl = pre.free@;
        let lv = pre.live@;
        let split_case = fl[k].1 - needed >= HEADER_SIZE;
        let nfl = post.free@;
        let nlv = post.live@;
        assert forall|j: int| 0 <= j < nfl.len() implies post.block_ok(#[trigger] nfl[j]) by {
            if split_case {
                if j != k {
                    assert(pre.block_ok(fl[j]));
                }
            } else {
                if j < k {
                    assert(pre.block_ok(fl[j]));
                } else {
                    assert(pre.block_ok(fl[j + 1]));
                }
            }
        }
        assert forall|j: int| 0 <= j < nlv.len() implies post.block_ok(#[trigger] nlv[j]) by {
            if j < lv.len() {
                assert(pre.block_ok(lv[j]));
            }
        }
    }

    #[verifier::spinoff_prover]
    #[verifier::rlimit(50)]
    proof fn lemma_alloc_sorted(pre: Heap, mem0: Seq<u32>, post: Heap, mem1: Seq<u32>, k: int, needed: int)
        requires
            Heap::alloc_effect(pre, mem0, post, mem1, k, needed),
        ensures
            post.sorted(),
    {
        Heap::lemma_alloc_basics(pre, mem0, post, mem1, k, needed);
        reveal(Heap::sorted);
        let fl = pre.free@;
        let split_case = fl[k].1 - needed >= HEADER_SIZE;
        let nfl = post.free@;
        assert forall|i: int, j: int| 0 <= i < j < nfl.len() implies (#[trigger] nfl[i]).0
            + nfl[i].1 <= (#[trigger] nfl[j]).0 by {
            if split_case {
                assert(fl[i].0 + fl[i].1 <= fl[j].0);
            } else {
                let ii = if i < k {
                    i
                } else {
                    i + 1
                };
                let jj = if j < k {
                    j
                } else {
                    j + 1
                };
                assert(fl[ii].0 + fl[ii].1 <= fl[jj].0);
            }
        }
    }

    #[verifier::spinoff_prover]
    #[verifier::rlimit(50)]
    proof fn lemma_alloc_disjoint(pre: Heap, mem0: Seq<u32>, post: Heap, mem1: Seq<u32>, k: int, needed: int)
        requires
            Heap::alloc_effect(pre, mem0, post, mem1, k, needed),
        ensures
            post.disjoint(),
    {
        Heap::lemma_alloc_basics(pre, mem0, post, mem1, k, needed);
        reveal(Heap::disjoint);
        reveal(Heap::sorted);
        let fl = pre.free@;
        let lv = pre.live@;
        let b = fl[k];
        let split_case = fl[k].1 - needed >= HEADER_SIZE;
        let nfl = post.free@;
        let nlv = post.live@;
        assert forall|i: int, j: int| 0 <= i < j < nlv.len() implies apart(
            #[trigger] nlv[i],
            #[trigger] nlv[j],
        ) by {
            if j < lv.len() {
                assert(apart(lv[i], lv[j]));
            } else {
                assert(apart(lv[i], b));
            }
        }
        assert forall|i: int, j: int| 0 <= i < nlv.len() && 0 <= j < nfl.len() implies apart(
            #[trigger] nlv[i],
            #[trigger] nfl[j],
        ) by {
            let jj = if split_case || j < k {
                j
            } else {
                j + 1
            };
            if i < lv.len() {
                assert(apart(lv[i], fl[jj]));
                if split_case && j == k {
                    assert(apart(lv[i], b));
                }
            } else {
                if jj != k {
                    if jj < k {
                        assert(fl[jj].0 + fl[jj].1 <= b.0);
                    } else {
                        assert(b.0 + b.1 <= fl[jj].0);
                    }
                }
            }
        }
    }

    /// The words an allocation writes belong to the block it takes and to
    /// the link that led there; every other block's header is untouched.
    #[verifier::spinoff_prover]
    #[verifier::rlimit(50)]
    proof fn lemma_alloc_untouched(pre: Heap, mem0: Seq<u32>, post: Heap, mem1: Seq<u32>, k: int, needed: int)
        requires
            Heap::alloc_effect(pre, mem0, post, mem1, k, needed),
        ensures
            forall|j: int|
                0 <= j < pre.free@.len() && j != k ==> mem1[pre.hdr(#[trigger] pre.free@[j].0)]
                    == mem0[pre.hdr(pre.free@[j].0)] && (j != k - 1 ==> mem1[pre.hdr(
                    pre.free@[j].0,
                ) + 1] == mem0[pre.hdr(pre.free@[j].0) + 1]),
            forall|i: int|
                0 <= i < pre.live@.len() ==> mem1[pre.hdr(#[trigger] pre.live@[i].0)] == mem0[pre.hdr(
                    pre.live@[i].0,
                )],
    {
        Heap::lemma_alloc_basics(pre, mem0, post, mem1, k, needed);
        reveal(Heap::inside);
        reveal(Heap::sorted);
        reveal(Heap::disjoint);
        let fl = pre.free@;
        let lv = pre.live@;
        let b = fl[k];
        pre.lemma_hdr(mem0, b.0, b.1);
        if k > 0 {
            pre.lemma_hdr(mem0, fl[k - 1].0, fl[k - 1].1);
        }
        let split = b.0 + needed;
        assert(b.1 - needed >= HEADER_SIZE ==> pre.hdr(split) * 4 == split - pre.heap_start) by {
            if b.1 - needed >= HEADER_SIZE {
                pre.lemma_hdr(mem0, split, b.1 - needed);
            }
        }
        assert forall|j: int| 0 <= j < fl.len() && j != k implies mem1[pre.hdr(
            #[trigger] fl[j].0,
        )] == mem0[pre.hdr(fl[j].0)] && (j != k - 1 ==> mem1[pre.hdr(fl[j].0) + 1] == mem0[pre.hdr(
            fl[j].0,
        ) + 1]) by {
            assert(pre.block_ok(fl[j]));
            pre.lemma_hdr(mem0, fl[j].0, fl[j].1);
            if j < k {
                assert(fl[j].0 + fl[j].1 <= b.0);
                if j < k - 1 {
                    assert(fl[j].0 + fl[j].1 <= fl[k - 1].0);
                }
            } else {
                assert(b.0 + b.1 <= fl[j].0);
            }
        }
        assert forall|i: int| 0 <= i < lv.len() implies mem1[pre.hdr(#[trigger] lv[i].0)] == mem0[pre.hdr(
            lv[i].0,
        )] by {
            assert(pre.block_ok(lv[i]));
            pre.lemma_hdr(mem0, lv[i].0, lv[i].1);
            assert(apart(lv[i], b));
        }
    }

    #[verifier::spinoff_prover]
    #[verifier::rlimit(50)]
    proof fn lemma_alloc_free_sizes(pre: Heap, mem0: Seq<u32>, post: Heap, mem1: Seq<u32>, k: int, needed: int)
        requires
            Heap::alloc_effect(pre, mem0, post, mem1, k, needed),
        ensures
            post.free_sizes(mem1),
    {
        Heap::lemma_alloc_basics(pre, mem0, post, mem1, k, needed);
        Heap::lemma_alloc_untouched(pre, mem0, post, mem1, k, needed);
        reveal(Heap::free_sizes);
        let fl = pre.free@;
        let b = fl[k];
        let rem = b.1 - needed;
        let split_case = rem >= HEADER_SIZE;
        let nfl = post.free@;
        pre.lemma_hdr(mem0, b.0, b.1);
        if split_case {
            pre.lemma_hdr(mem0, b.0 + needed, rem);
        }
        if k > 0 {
            pre.lemma_hdr(mem0, fl[k - 1].0, fl[k - 1].1);
        }
        assert forall|j: int| 0 <= j < nfl.len() implies mem1[post.hdr((#[trigger] nfl[j]).0)]
            == nfl[j].1 by {
            let jj = if split_case || j < k {
                j
            } else {
                j + 1
            };
            if !(split_case && j == k) {
                assert(mem1[pre.hdr(fl[jj].0)] == mem0[pre.hdr(fl[jj].0)]);
            }
        }
    }

    #[verifier::spinoff_prover]
    #[verifier::rlimit(60)]
    proof fn lemma_alloc_free_links(pre: Heap, mem0: Seq<u32>, post: Heap, mem1: Seq<u32>, k: int, needed: int)
        requires
            Heap::alloc_effect(pre, mem0, post, mem1, k, needed),
        ensures
            post.free_links(mem1),
    {
        Heap::lemma_alloc_basics(pre, mem0, post, mem1, k, needed);
        Heap::lemma_alloc_untouched(pre, mem0, post, mem1, k, needed);
        reveal(Heap::free_links);
        let fl = pre.free@;
        let b = fl[k];
        let rem = b.1 - needed;
        let split_case = rem >= HEADER_SIZE;
        let nfl = post.free@;
        pre.lemma_hdr(mem0, b.0, b.1);
        if split_case {
            pre.lemma_hdr(mem0, b.0 + needed, rem);
        }
        if k > 0 {
            pre.lemma_hdr(mem0, fl[k - 1].0, fl[k - 1].1);
        }
        assert forall|j: int| 0 <= j < nfl.len() implies mem1[post.hdr((#[trigger] nfl[j]).0) + 1]
            == if j + 1 < nfl.len() {
            nfl[j + 1].0
        } else {
            0
        } by {
            let jj = if split_case || j < k {
                j
            } else {
                j + 1
            };
            if split_case && j == k {
            } else if jj == k - 1 {
            } else {
                assert(mem1[pre.hdr(fl[jj].0) + 1] == mem0[pre.hdr(fl[jj].0) + 1]);
            }
        }
    }

    #[verifier::spinoff_prover]
    #[verifier::rlimit(50)]
    proof fn lemma_alloc_live_sizes(pre: Heap, mem0: Seq<u32>, post: Heap, mem1: Seq<u32>, k: int, needed: int)
        requires
            Heap::alloc_effect(pre, mem0, post, mem1, k, needed),
        ensures
            post.live_sizes(mem1),
    {
        Heap::lemma_alloc_basics(pre, mem0, post, mem1, k, needed);
        Heap::lemma_alloc_untouched(pre, mem0, post, mem1, k, needed);
        reveal(Heap::live_sizes);
        let lv = pre.live@;
        let nlv = post.live@;
        let b = pre.free@[k];
        pre.lemma_hdr(mem0, b.0, b.1);
        assert forall|j: int| 0 <= j < nlv.len() implies mem1[post.hdr((#[trigger] nlv[j]).0)]
            == nlv[j].1 by {
            if j < lv.len() {
                assert(mem1[pre.hdr(lv[j].0)] == mem0[pre.hdr(lv[j].0)]);
            }
        }
    }

    /// An allocation writes no word of a block that was already live.
    #[verifier::spinoff_prover]
    #[verifier::rlimit(50)]
    proof fn lemma_alloc_keeps_live(pre: Heap, mem0: Seq<u32>, post: Heap, mem1: Seq<u32>, k: int, needed: int)
        requires
            Heap::alloc_effect(pre, mem0, post, mem1, k, needed),
        ensures
            forall|i: int, w: int|
                #![trigger pre.live@[i], mem1[w]]
                0 <= i < pre.live@.len() && 0 <= w < mem0.len() && pre.live@[i].0 <= pre.heap_start
                    + 4 * w < pre.live@[i].0 + pre.live@[i].1 ==> mem1[w] == mem0[w],
    {
        Heap::lemma_alloc_basics(pre, mem0, post, mem1, k, needed);
        reveal(Heap::inside);
        reveal(Heap::disjoint);
        let fl = pre.free@;
        let lv = pre.live@;
        let b = fl[k];
        pre.lemma_hdr(mem0, b.0, b.1);
        if k > 0 {
            pre.lemma_hdr(mem0, fl[k - 1].0, fl[k - 1].1);
        }
        if b.1 - needed >= HEADER_SIZE {
            pre.lemma_hdr(mem0, b.0 + needed, b.1 - needed);
        }
        assert forall|i: int, w: int|
            #![trigger lv[i], mem1[w]]
            0 <= i < lv.len() && 0 <= w < mem0.len() && lv[i].0 <= pre.heap_start + 4 * w < lv[i].0
                + lv[i].1 implies mem1[w] == mem0[w] by {
            assert(pre.block_ok(lv[i]));
            assert(apart(lv[i], b));
            if k > 0 {
                assert(apart(lv[i], fl[k - 1]));
            }
        }
    }

    #[verifier::spinoff_prover]
    #[verifier::rlimit(50)]
    proof fn lemma_alloc_wf(pre: Heap, mem0: Seq<u32>, post: Heap, mem1: Seq<u32>, k: int, needed: int)
        requires
            Heap::alloc_effect(pre, mem0, post, mem1, k, needed),
            post.accounting(),
        ensures
            post.wf(mem1),
    {
        Heap::lemma_alloc_basics(pre, mem0, post, mem1, k, needed);
        Heap::lemma_alloc_inside(pre, mem0, post, mem1, k, needed);
        Heap::lemma_alloc_sorted(pre, mem0, post, mem1, k, needed);
        Heap::lemma_alloc_disjoint(pre, mem0, post, mem1, k, needed);
        Heap::lemma_alloc_free_sizes(pre, mem0, post, mem1, k, needed);
        Heap::lemma_alloc_free_links(pre, mem0, post, mem1, k, needed);
        Heap::lemma_alloc_live_sizes(pre, mem0, post, mem1, k, needed);
        Heap::lemma_alloc_coalesced(pre, mem0, post, mem1, k, needed);
    }

    #[verifier::spinoff_prover]
    #[verifier::rlimit(50)]
    proof fn lemma_alloc_coalesced(pre: Heap, mem0: Seq<u32>, post: Heap, mem1: Seq<u32>, k: int, needed: int)
        requires
            Heap::alloc_effect(pre, mem0, post, mem1, k, needed),
        ensures
            post.coalesced(),
    {
        Heap::lemma_alloc_basics(pre, mem0, post, mem1, k, needed);
        reveal(Heap::coalesced);
        reveal(Heap::sorted);
        let fl = pre.free@;
        let split_case = fl[k].1 - needed >= HEADER_SIZE;
        let nfl = post.free@;
        assert forall|i: int| 0 <= i < nfl.len() - 1 implies (#[trigger] nfl[i]).0 + nfl[i].1
            < nfl[i + 1].0 by {
            if split_case {
                assert(fl[i].0 + fl[i].1 < fl[i + 1].0 || i == k - 1 || i == k);
            } else if i < k - 1 {
                assert(fl[i].0 + fl[i].1 < fl[i + 1].0);
            } else if i == k - 1 {
                assert(fl[k - 1].0 + fl[k - 1].1 <= fl[k].0);
                assert(fl[k].0 + fl[k].1 <= fl[k + 1].0);
            } else {
                assert(fl[i + 1].0 + fl[i + 1].1 < fl[i + 2].0);
            }
        }
    }

    /// Hands out the `k`th free block, the first to fit `needed` bytes,
    /// splitting its tail off as a free block when the tail can hold a header.
    #[verifier::spinoff_prover]
    #[verifier::rlimit(50)]
    fn take_block(
        &mut self,
        mem: &mut [u32],
        prev: usize,
        current: usize,
        block_size: usize,
        next: usize,
        needed: usize,
        Ghost(k): Ghost<int>,
    ) -> (p: usize)
        requires
            old(self).wf(old(mem)@),
            old(self).ready(),
            old(self).first_fit(k, needed as int),
            needed >= 16,
            needed % 8 == 0,
            current == old(self).free@[k].0,
            block_size == old(self).free@[k].1,
            next == if k + 1 < old(self).free@.len() {
                old(self).free@[k + 1].0
            } else {
                0
            },
            prev == if k > 0 {
                old(self).free@[k - 1].0
            } else {
                0
            },
        ensures
            final(self).wf(final(mem)@),
            final(mem)@.len() == old(mem)@.len(),
            p == current + HEADER_SIZE,
            final(self).heap_start == old(self).heap_start,
            final(self).heap_end == old(self).heap_end,
            final(self).allocations == if old(self).allocations == usize::MAX {
                0
            } else {
                old(self).allocations + 1
            },
            final(self).free@ == if block_size - needed >= HEADER_SIZE {
                old(self).free@.update(k, ((current + needed) as int, (block_size - needed) as int))
            } else {
                old(self).free@.remove(k)
            },
            final(self).live@ == old(self).live@.push(
                (
                    current as int,
                    if block_size - needed >= HEADER_SIZE {
                        needed as int
                    } else {
                        block_size as int
                    },
                ),
            ),
            final(self).used == old(self).used + final(self).live@.last().1,
            forall|i: int, w: int|
                #![trigger old(self).live_blocks()[i], final(mem)@[w]]
                0 <= i < old(self).live_blocks().len() && 0 <= w < old(mem)@.len()
                    && old(self).live_blocks()[i].0 <= old(self).start_spec() + 4 * w
                    < old(self).live_blocks()[i].0 + old(self).live_blocks()[i].1
                    ==> final(mem)@[w] == old(mem)@[w],
    {
        let ghost fl = self.free@;
        let ghost lv = self.live@;
        proof {
            Heap::lemma_alloc_facts(*self, mem@, k, needed as int);
        }
        let word = (current - self.heap_start) / 4;
        proof {
            assert(word == self.hdr(current as int)) by {
                reveal(word_of);
            }
            assert(((current + needed - self.heap_start) / 4) as int == self.hdr((current + needed) as int)) by {
                reveal(word_of);
            }
        }
        let remaining = block_size - needed;
        if remaining >= HEADER_SIZE {
            let split = current + needed;
            let split_word = (split - self.heap_start) / 4;
            let ghost m0 = mem@;
            mem[split_word] = remaining as u32;
            mem[split_word + 1] = next as u32;
            let ghost m1 = mem@;
            self.unlink(mem, prev, split);
            let ghost m2 = mem@;
            mem[word] = needed as u32;
            mem[word + 1] = 0;
            proof {
                assert(m1 == m0.update(split_word as int, remaining as u32).update(split_word + 1, next as u32));
                assert(prev == 0 ==> m2 == m1);
                assert(prev != 0 ==> m2 == m1.update(old(self).hdr(prev as int) + 1, split as u32));
                assert(mem@ == m2.update(word as int, needed as u32).update(word + 1, 0u32));
                assert(split_word == old(self).hdr(split as int));
                assert(word == old(self).hdr(current as int));
                Heap::lemma_chain_split(*old(self), old(mem)@, m1, m2, mem@, k, current as int,
                    prev as int, needed as int, remaining as int, next as int);
                self.free@ = fl.update(k, (split as int, remaining as int));
                self.live@ = lv.push((current as int, needed as int));
                lemma_total_update(fl, k, (split as int, remaining as int));
                lemma_total_push(lv, (current as int, needed as int));
            }
            self.used = self.used + needed;
        } else {
            let ghost m1 = mem@;
            self.unlink(mem, prev, next);
            let ghost m2 = mem@;
            mem[word] = block_size as u32;
            mem[word + 1] = 0;
            proof {
                assert(prev == 0 ==> m2 == m1);
                assert(prev != 0 ==> m2 == m1.update(old(self).hdr(prev as int) + 1, next as u32));
                assert(mem@ == m2.update(word as int, block_size as u32).update(word + 1, 0u32));
                assert(word == old(self).hdr(current as int));
                Heap::lemma_chain_plain(*old(self), old(mem)@, m2, mem@, k, current as int, prev as int,
                    block_size as int, next as int);
                self.free@ = fl.remove(k);
                self.live@ = lv.push((current as int, block_size as int));
                lemma_total_remove(fl, k);
                lemma_total_push(lv, (current as int, block_size as int));
            }
            self.used = self.used + block_size;
        }
        self.allocations = self.allocations.wrapping_add(1);
        proof {
            let hc = old(self).hdr(current as int);
            let hp = old(self).hdr(prev as int);
            let split = current + needed;
            let hs = old(self).hdr(split as int);
            let split_case = remaining >= HEADER_SIZE;
            let newsize = if split_case {
                needed as int
            } else {
                block_size as int
            };
            let link = if split_case {
                split as int
            } else {
                next as int
            };
            assert(Heap::alloc_effect(*old(self), old(mem)@, *self, mem@, k, needed as int));
            Heap::lemma_alloc_wf(*old(self), old(mem)@, *self, mem@, k, needed as int);
            Heap::lemma_alloc_keeps_live(*old(self), old(mem)@, *self, mem@, k, needed as int);
        }
        current + HEADER_SIZE
    }

    #[verifier::spinoff_prover]
    #[verifier::rlimit(50)]
    proof fn lemma_chain_split(
        pre: Heap,
        m0: Seq<u32>,
        m1: Seq<u32>,
        m2: Seq<u32>,
        m3: Seq<u32>,
        k: int,
        c: int,
        p: int,
        needed: int,
        rem: int,
        next: int,
    )
        requires
            0 <= pre.hdr(c),
            pre.hdr(c) + 4 <= pre.hdr(c + needed),
            pre.hdr(c + needed) + 1 < m0.len(),
            k > 0 ==> pre.hdr(p) + 2 <= pre.hdr(c) && 0 <= pre.hdr(p),
            (p != 0) == (k > 0),
            m1 == m0.update(pre.hdr(c + needed), rem as u32).update(pre.hdr(c + needed) + 1, next as u32),
            p == 0 ==> m2 == m1,
            p != 0 ==> m2 == m1.update(pre.hdr(p) + 1, (c + needed) as u32),
            m3 == m2.update(pre.hdr(c), needed as u32).update(pre.hdr(c) + 1, 0u32),
        ensures
            m3.len() == m0.len(),
            forall|w: int|
                0 <= w < m3.len() ==> m3[w] == if w == pre.hdr(c) {
                    needed as u32
                } else if w == pre.hdr(c) + 1 {
                    0u32
                } else if k > 0 && w == pre.hdr(p) + 1 {
                    (c + needed) as u32
                } else if w == pre.hdr(c + needed) {
                    rem as u32
                } else if w == pre.hdr(c + needed) + 1 {
                    next as u32
                } else {
                    m0[w]
                },
    {
    }

    #[verifier::spinoff_prover]
    #[verifier::rlimit(50)]
    proof fn lemma_chain_plain(
        pre: Heap,
        m0: Seq<u32>,
        m2: Seq<u32>,
        m3: Seq<u32>,
        k: int,
        c: int,
        p: int,
        size: int,
        next: int,
    )
        requires
            0 <= pre.hdr(c),
            pre.hdr(c) + 1 < m0.len(),
            k > 0 ==> pre.hdr(p) + 2 <= pre.hdr(c) && 0 <= pre.hdr(p),
            (p != 0) == (k > 0),
            p == 0 ==> m2 == m0,
            p != 0 ==> m2 == m0.update(pre.hdr(p) + 1, next as u32),
            m3 == m2.update(pre.hdr(c), size as u32).update(pre.hdr(c) + 1, 0u32),
        ensures
            m3.len() == m0.len(),
            forall|w: int|
                0 <= w < m3.len() ==> m3[w] == if w == pre.hdr(c) {
                    size as u32
                } else if w == pre.hdr(c) + 1 {
                    0u32
                } else if k > 0 && w == pre.hdr(p) + 1 {
                    next as u32
                } else {
                    m0[w]
                },
    {
    }

    /// Facts about the `k`th free block that taking it relies on.
    #[verifier::spinoff_prover]
    #[verifier::rlimit(50)]
    proof fn lemma_alloc_facts(pre: Heap, mem: Seq<u32>, k: int, needed: int)
        requires
            pre.wf(mem),
            pre.ready(),
            pre.first_fit(k, needed),
            needed >= 16,
            needed % 8 == 0,
        ensures
            pre.block_ok(pre.free@[k]),
            pre.hdr(pre.free@[k].0) * 4 == pre.free@[k].0 - pre.heap_start,
            pre.hdr(pre.free@[k].0) % 2 == 0,
            pre.hdr(pre.free@[k].0) + 1 < mem.len(),
            k > 0 ==> pre.hdr(pre.free@[k - 1].0) + 2 <= pre.hdr(pre.free@[k].0) && 0 <= pre.hdr(
                pre.free@[k - 1].0,
            ),
            pre.free@[k].1 - needed >= HEADER_SIZE ==> pre.hdr(pre.free@[k].0 + needed) + 1 < mem.len()
                && pre.hdr(pre.free@[k].0 + needed) * 4 == pre.free@[k].0 + needed - pre.heap_start
                && pre.hdr(pre.free@[k].0) + 4 <= pre.hdr(pre.free@[k].0 + needed),
            k > 0 ==> pre.block_ok(pre.free@[k - 1]) && pre.hdr(pre.free@[k - 1].0) + 1 < mem.len(),
            k + 1 < pre.free@.len() ==> pre.block_ok(pre.free@[k + 1]),
            pre.free@[k].0 + needed <= u32::MAX,
            pre.used + pre.free@[k].1 <= usize::MAX,
    {
        reveal(Heap::inside);
        assert(pre.block_ok(pre.free@[k]));
        pre.lemma_hdr(mem, pre.free@[k].0, pre.free@[k].1);
        if pre.free@[k].1 - needed >= HEADER_SIZE {
            pre.lemma_hdr(mem, pre.free@[k].0 + needed, pre.free@[k].1 - needed);
        }
        if k > 0 {
            reveal(Heap::sorted);
            assert(pre.block_ok(pre.free@[k - 1]));
            pre.lemma_hdr(mem, pre.free@[k - 1].0, pre.free@[k - 1].1);
            assert(pre.free@[k - 1].0 + pre.free@[k - 1].1 <= pre.free@[k].0);
        }
        if k + 1 < pre.free@.len() {
            assert(pre.block_ok(pre.free@[k + 1]));
        }
        lemma_total_split(pre.free@, k);
        lemma_total_nonneg(pre.free@.take(k));
        lemma_total_nonneg(pre.free@.skip(k + 1));
        lemma_total_nonneg(pre.live@);
    }

    /// Points the link that led to the `k`th free block (the list head, or
    /// the previous block's `next`) at `new_next`.
    fn unlink(&mut self, mem: &mut [u32], prev: usize, new_next: usize)
        requires
            old(self).ready(),
            old(self).heap_start > 0,
            old(self).heap_start % 8 == 0,
            old(self).heap_end <= u32::MAX,
            old(mem)@.len() * 4 == old(self).heap_end - old(self).heap_start,
            0 <= new_next <= u32::MAX,
            prev == 0 || (old(self).heap_start <= prev && prev + 8 <= old(self).heap_end && (prev
                - old(self).heap_start) % 8 == 0),
        ensures
            final(mem)@.len() == old(mem)@.len(),
            prev == 0 ==> final(mem)@ == old(mem)@ && *final(self) == (Heap {
                free_list: new_next,
                ..*old(self)
            }),
            prev != 0 ==> final(mem)@ == old(mem)@.update(old(self).hdr(prev as int) + 1, new_next as u32)
                && *final(self) == *old(self),
    {
        proof {
            reveal(word_of);
        }
        if prev == 0 {
            self.free_list = new_next;
        } else {
            let word = (prev - self.heap_start) / 4;
            mem[word + 1] = new_next as u32;
        }
    }
}


/// `fl` with the blocks from index `lo` up to `hi` replaced by the one
/// block `x`.
pub open spec fn splice(fl: Seq<Block>, lo: int, hi: int, x: Block) -> Seq<Block> {
    fl.take(lo) + seq![x] + fl.skip(hi)
}

impl Heap {
    /// `q` is where a block at address `a` goes in the address-ordered free
    /// list: after every free block below `a`, before the rest.
    pub open spec fn slot(self, q: int, a: int) -> bool {
        &&& 0 <= q <= self.free_blocks().len()
        &&& forall|j: int| 0 <= j < q ==> self.free_blocks()[j].0 < a
        &&& q < self.free_blocks().len() ==> self.free_blocks()[q].0 >= a
    }

    /// The free list once block `b` is put back at slot `q`, merged with the
    /// free block right after it and the one right before it when they
    /// touch.
    pub open spec fn with_freed(self, q: int, b: Block) -> Seq<Block> {
        let fl = self.free_blocks();
        let mn = q < fl.len() && b.0 + b.1 == fl[q].0;
        let mp = q > 0 && fl[q - 1].0 + fl[q - 1].1 == b.0;
        let msize = b.1 + if mn {
            fl[q].1
        } else {
            0
        };
        let lo = if mp {
            q - 1
        } else {
            q
        };
        let hi = if mn {
            q + 1
        } else {
            q
        };
        let x = if mp {
            (fl[q - 1].0, fl[q - 1].1 + msize)
        } else {
            (b.0, msize)
        };
        splice(fl, lo, hi, x)
    }

    /// What [`Heap::deallocate`] of payload address `ptr` did: nothing for 0
    /// or an empty heap; otherwise the live block at `ptr - HEADER_SIZE` went
    /// back on the free list, merged with the free blocks it touches.
    pub open spec fn release(pre: Heap, post: Heap, ptr: int) -> bool {
        &&& post.start_spec() == pre.start_spec()
        &&& post.end_spec() == pre.end_spec()
        &&& post.allocations_spec() == pre.allocations_spec()
        &&& if ptr == 0 || !pre.ready() {
            &&& post.free_blocks() == pre.free_blocks()
            &&& post.live_blocks() == pre.live_blocks()
            &&& post.used_spec() == pre.used_spec()
        } else {
            forall|i: int, q: int|
                #![trigger pre.live_blocks()[i], pre.slot(q, ptr - HEADER_SIZE)]
                0 <= i < pre.live_blocks().len() && pre.live_blocks()[i].0 == ptr - HEADER_SIZE && pre.slot(
                    q,
                    ptr - HEADER_SIZE,
                ) ==> {
                    &&& post.live_blocks() == pre.live_blocks().remove(i)
                    &&& post.used_spec() == pre.used_spec() - pre.live_blocks()[i].1
                    &&& post.free_blocks() == pre.with_freed(q, pre.live_blocks()[i])
                }
        }
    }

    /// The heap is consistent but for block `b`, which is neither live nor
    /// free yet: the state between taking a block off the live list and
    /// putting it on the free list.
    spec fn between(self, mem: Seq<u32>, b: Block) -> bool {
        &&& self.ready()
        &&& self.frame_ok(mem)
        &&& self.inside()
        &&& self.sorted()
        &&& self.disjoint()
        &&& self.free_sizes(mem)
        &&& self.free_links(mem)
        &&& self.live_sizes(mem)
        &&& self.coalesced()
        &&& self.block_ok(b)
        &&& forall|j: int| 0 <= j < self.free@.len() ==> apart(b, #[trigger] self.free@[j])
        &&& forall|j: int| 0 <= j < self.live@.len() ==> apart(b, #[trigger] self.live@[j])
        &&& self.free_list == if self.free@.len() > 0 {
            self.free@[0].0
        } else {
            0
        }
        &&& self.used == total_size(self.live@)
        &&& total_size(self.live@) + total_size(self.free@) + b.1 == self.heap_end - self.heap_start
    }

    /// Returns the block whose payload starts at `ptr` to the free list,
    /// merging it with the free blocks it touches. Ignores 0 and an empty
    /// heap; any other `ptr` must be one [`Heap::allocate`] returned and not
    /// yet deallocated, as the global allocator's contract promises.
    #[verifier::spinoff_prover]
    #[verifier::rlimit(50)]
    pub fn deallocate(&mut self, mem: &mut [u32], ptr: usize)
        requires
            old(self).wf(old(mem)@),
            ptr == 0 || !old(self).ready() || old(self).is_live(ptr - HEADER_SIZE),
        ensures
            final(self).wf(final(mem)@),
            final(mem)@.len() == old(mem)@.len(),
            Heap::release(*old(self), *final(self), ptr as int),
            forall|i: int, w: int|
                #![trigger final(self).live_blocks()[i], final(mem)@[w]]
                0 <= i < final(self).live_blocks().len() && 0 <= w < old(mem)@.len()
                    && final(self).live_blocks()[i].0 <= final(self).start_spec() + 4 * w
                    < final(self).live_blocks()[i].0 + final(self).live_blocks()[i].1
                    ==> final(mem)@[w] == old(mem)@[w],
    {
        if ptr == 0 || !self.is_ready() {
            return ;
        }
        let ghost i = choose|i: int|
            0 <= i < self.live@.len() && self.live@[i].0 == ptr - HEADER_SIZE;
        let ghost lv = self.live@;
        let ghost b = lv[i];
        proof {
            reveal(Heap::inside);
            reveal(Heap::live_sizes);
            assert(self.block_ok(b));
            self.lemma_hdr(mem@, b.0, b.1);
        }
        let block_addr = ptr - HEADER_SIZE;
        if block_addr < self.heap_start || block_addr >= self.heap_end {
            return ;
        }
        let word = (block_addr - self.heap_start) / 4;
        proof {
            assert(word == self.hdr(b.0)) by {
                reveal(word_of);
            }
        }
        let size = mem[word] as usize;
        if size < HEADER_SIZE || block_addr + size > self.heap_end {
            return ;
        }
        proof {
            Heap::lemma_take_live(*self, mem@, i);
        }
        self.used = self.used.saturating_sub(size);
        proof {
            self.live@ = lv.remove(i);
        }
        let ghost mid = *self;
        proof {
            assert(b == (block_addr as int, size as int));
            assert(mid.free@ == old(self).free@);
            assert(mid.used == old(self).used - b.1);
        }
        self.insert_free(mem, block_addr, size);
        proof {
            assert forall|q: int| old(self).slot(q, b.0) implies self.free@ == old(self).with_freed(q, b) by {
                assert(mid.slot(q, b.0));
                assert(mid.with_freed(q, b) == old(self).with_freed(q, b));
            }
            assert forall|i2: int, q: int|
                #![trigger old(self).live@[i2], old(self).slot(q, ptr - HEADER_SIZE)]
                0 <= i2 < old(self).live@.len() && old(self).live@[i2].0 == ptr - HEADER_SIZE
                    && old(self).slot(q, ptr - HEADER_SIZE) implies {
                &&& self.live@ == old(self).live@.remove(i2)
                &&& self.used == old(self).used - old(self).live@[i2].1
                &&& self.free@ == old(self).with_freed(q, old(self).live@[i2])
            } by {
                Heap::lemma_live_unique(*old(self), old(mem)@, i, i2);
                Heap::lemma_slot_unique(mid, old(self).free@, b.0, q);
            }
        }
    }

    proof fn lemma_live_unique(h: Heap, mem: Seq<u32>, i: int, j: int)
        requires
            h.wf(mem),
            h.ready(),
            0 <= i < h.live@.len(),
            0 <= j < h.live@.len(),
            h.live@[i].0 == h.live@[j].0,
        ensures
            i == j,
    {
        reveal(Heap::inside);
        reveal(Heap::disjoint);
        if i < j {
            assert(apart(h.live@[i], h.live@[j]));
        } else if j < i {
            assert(apart(h.live@[j], h.live@[i]));
        }
    }

    /// Taking live block `i` off the live list leaves the heap consistent but
    /// for that block.
    #[verifier::spinoff_prover]
    #[verifier::rlimit(50)]
    proof fn lemma_take_live(h: Heap, mem: Seq<u32>, i: int)
        requires
            h.wf(mem),
            h.ready(),
            0 <= i < h.live@.len(),
        ensures
            (Heap { live: Ghost(h.live@.remove(i)), used: (h.used - h.live@[i].1) as usize, ..h }).between(
                mem,
                h.live@[i],
            ),
            h.used >= h.live@[i].1,
            h.live@[i].1 <= u32::MAX,
    {
        reveal(Heap::inside);
        reveal(Heap::sorted);
        reveal(Heap::disjoint);
        reveal(Heap::free_sizes);
        reveal(Heap::free_links);
        reveal(Heap::live_sizes);
        reveal(Heap::coalesced);
        let lv = h.live@;
        let nlv = lv.remove(i);
        let n = Heap { live: Ghost(nlv), used: (h.used - lv[i].1) as usize, ..h };
        lemma_total_remove(lv, i);
        lemma_total_split(lv, i);
        assert forall|k: int| 0 <= k < lv.len() implies lv[k].1 >= 0 by {
            assert(h.block_ok(lv[k]));
        }
        lemma_total_nonneg(lv.take(i));
        lemma_total_nonneg(lv.skip(i + 1));
        assert(h.block_ok(lv[i]));
        assert forall|j: int| 0 <= j < n.free@.len() implies apart(lv[i], #[trigger] n.free@[j]) by {
            assert(apart(lv[i], h.free@[j]));
        }
        assert forall|j: int| 0 <= j < nlv.len() implies apart(lv[i], #[trigger] nlv[j]) by {
            if j < i {
                assert(apart(lv[j], lv[i]));
            } else {
                assert(apart(lv[i], lv[j + 1]));
            }
        }
        assert forall|a: int, c: int| 0 <= a < c < nlv.len() implies apart(
            #[trigger] nlv[a],
            #[trigger] nlv[c],
        ) by {
            let aa = if a < i {
                a
            } else {
                a + 1
            };
            let cc = if c < i {
                c
            } else {
                c + 1
            };
            assert(apart(lv[aa], lv[cc]));
        }
        assert(n.inside());
        assert(n.disjoint());
        assert(n.live_sizes(mem));
        lemma_total_nonneg(h.free@);
    }

    proof fn lemma_slot_unique(h: Heap, fl: Seq<Block>, a: int, q: int)
        requires
            h.free@ == fl,
            h.sorted(),
            h.slot(q, a),
        ensures
            forall|q2: int| h.slot(q2, a) ==> q2 == q,
    {
        assert forall|q2: int| h.slot(q2, a) implies q2 == q by {
            if q2 < q {
                assert(fl[q2].0 < a);
            } else if q < q2 {
                assert(fl[q].0 < a);
            }
        }
    }
}


impl Heap {
    /// The block put back at slot `q` touches the free block after it.
    spec fn merge_next(self, q: int, b: Block) -> bool {
        q < self.free@.len() && b.0 + b.1 == self.free@[q].0
    }

    /// The block put back at slot `q` touches the free block before it.
    spec fn merge_prev(self, q: int, b: Block) -> bool {
        q > 0 && self.free@[q - 1].0 + self.free@[q - 1].1 == b.0
    }

    /// Size of the block put back at slot `q` once merged with its successor.
    spec fn merged(self, q: int, b: Block) -> int {
        b.1 + if self.merge_next(q, b) {
            self.free@[q].1
        } else {
            0
        }
    }

    /// Address of the free block that follows the merged block, or 0.
    spec fn after(self, q: int, b: Block) -> int {
        let h = if self.merge_next(q, b) {
            q + 1
        } else {
            q
        };
        if h < self.free@.len() {
            self.free@[h].0
        } else {
            0
        }
    }

    /// What the writes of one release did: block `b` went back on the free
    /// list at slot `q`, merged with the free blocks it touches.
    spec fn free_effect(pre: Heap, mem0: Seq<u32>, post: Heap, mem1: Seq<u32>, q: int, b: Block) -> bool {
        let fl = pre.free@;
        let hb = pre.hdr(b.0);
        let hp = if q > 0 {
            pre.hdr(fl[q - 1].0)
        } else {
            -2
        };
        let msize = pre.merged(q, b);
        let after = pre.after(q, b);
        let mp = pre.merge_prev(q, b);
        &&& pre.between(mem0, b)
        &&& pre.slot(q, b.0)
        &&& post.heap_start == pre.heap_start
        &&& post.heap_end == pre.heap_end
        &&& post.live@ == pre.live@
        &&& post.used == pre.used
        &&& post.free@ == pre.with_freed(q, b)
        &&& post.free_list == if q == 0 {
            b.0
        } else {
            pre.free_list as int
        }
        &&& mem1.len() == mem0.len()
        &&& forall|w: int|
            0 <= w < mem1.len() ==> mem1[w] == if w == hb {
                msize as u32
            } else if w == hb + 1 {
                after as u32
            } else if mp && w == hp {
                (fl[q - 1].1 + msize) as u32
            } else if q > 0 && w == hp + 1 {
                if mp {
                    after as u32
                } else {
                    b.0 as u32
                }
            } else {
                mem0[w]
            }
    }

    /// Facts about the blocks around slot `q` that putting `b` back there
    /// relies on.
    #[verifier::spinoff_prover]
    #[verifier::rlimit(50)]
    proof fn lemma_free_facts(pre: Heap, mem: Seq<u32>, q: int, b: Block)
        requires
            pre.between(mem, b),
            pre.slot(q, b.0),
        ensures
            pre.hdr(b.0) * 4 == b.0 - pre.heap_start,
            pre.hdr(b.0) % 2 == 0,
            0 <= pre.hdr(b.0),
            pre.hdr(b.0) + 1 < mem.len(),
            b.0 + b.1 <= pre.heap_end,
            q < pre.free@.len() ==> {
                &&& pre.block_ok(pre.free@[q])
                &&& b.0 + b.1 <= pre.free@[q].0
                &&& pre.hdr(pre.free@[q].0) * 4 == pre.free@[q].0 - pre.heap_start
                &&& pre.hdr(pre.free@[q].0) + 1 < mem.len()
                &&& mem[pre.hdr(pre.free@[q].0)] == pre.free@[q].1
                &&& mem[pre.hdr(pre.free@[q].0) + 1] == if q + 1 < pre.free@.len() {
                    pre.free@[q + 1].0
                } else {
                    0
                }
            },
            q > 0 ==> {
                &&& pre.block_ok(pre.free@[q - 1])
                &&& pre.free@[q - 1].0 + pre.free@[q - 1].1 <= b.0
                &&& pre.hdr(pre.free@[q - 1].0) * 4 == pre.free@[q - 1].0 - pre.heap_start
                &&& pre.hdr(pre.free@[q - 1].0) + 1 < mem.len()
                &&& mem[pre.hdr(pre.free@[q - 1].0)] == pre.free@[q - 1].1
            },
            q + 1 < pre.free@.len() ==> pre.block_ok(pre.free@[q + 1]),
    {
        reveal(Heap::inside);
        reveal(Heap::free_sizes);
        reveal(Heap::free_links);
        pre.lemma_hdr(mem, b.0, b.1);
        let fl = pre.free@;
        if q < fl.len() {
            assert(pre.block_ok(fl[q]));
            pre.lemma_hdr(mem, fl[q].0, fl[q].1);
            assert(apart(b, fl[q]));
        }
        if q > 0 {
            assert(pre.block_ok(fl[q - 1]));
            pre.lemma_hdr(mem, fl[q - 1].0, fl[q - 1].1);
            assert(apart(b, fl[q - 1]));
        }
        if q + 1 < fl.len() {
            assert(pre.block_ok(fl[q + 1]));
        }
    }

    /// Puts block `(block, size)` back on the free list at its address-order
    /// slot, merging it with the free blocks right after and right before it
    /// when they touch.
    #[verifier::spinoff_prover]
    #[verifier::rlimit(40)]
    fn insert_free(&mut self, mem: &mut [u32], block: usize, size: usize)
        requires
            old(self).between(old(mem)@, (block as int, size as int)),
        ensures
            final(mem)@.len() == old(mem)@.len(),
            final(self).wf(final(mem)@),
            final(self).heap_start == old(self).heap_start,
            final(self).heap_end == old(self).heap_end,
            final(self).allocations == old(self).allocations,
            final(self).live@ == old(self).live@,
            final(self).used == old(self).used,
            forall|q: int|
                old(self).slot(q, block as int) ==> final(self).free@ == old(self).with_freed(
                    q,
                    (block as int, size as int),
                ),
            forall|i: int, w: int|
                #![trigger old(self).live@[i], final(mem)@[w]]
                0 <= i < old(self).live@.len() && 0 <= w < old(mem)@.len() && old(self).live@[i].0
                    <= old(self).heap_start + 4 * w < old(self).live@[i].0 + old(self).live@[i].1
                    ==> final(mem)@[w] == old(mem)@[w],
    {
        let ghost b: Block = (block as int, size as int);
        let ghost fl = self.free@;
        let mut prev: usize = 0;
        let mut current = self.free_list;
        let ghost mut q: int = 0;
        while current != 0 && current < block
            invariant
                self.between(mem@, b),
                *self == *old(self),
                mem@ == old(mem)@,
                fl == self.free@,
                b == (block as int, size as int),
                0 <= q <= fl.len(),
                current == if q < fl.len() {
                    fl[q].0
                } else {
                    0
                },
                prev == if q > 0 {
                    fl[q - 1].0
                } else {
                    0
                },
                forall|j: int| 0 <= j < q ==> fl[j].0 < block,
            decreases fl.len() - q,
        {
            proof {
                reveal(Heap::inside);
                reveal(Heap::free_links);
                assert(self.block_ok(fl[q]));
                self.lemma_hdr(mem@, fl[q].0, fl[q].1);
                assert(mem@[self.hdr(fl[q].0) + 1] == if q + 1 < fl.len() {
                    fl[q + 1].0
                } else {
                    0
                });
                if q + 1 < fl.len() {
                    assert(self.block_ok(fl[q + 1]));
                }
                assert(((current - self.heap_start) / 4) as int == self.hdr(current as int)) by {
                    reveal(word_of);
                }
            }
            let word = (current - self.heap_start) / 4;
            let next = mem[word + 1] as usize;
            prev = current;
            current = next;
            proof {
                q = q + 1;
            }
        }
        proof {
            if q < fl.len() {
                reveal(Heap::inside);
                assert(self.block_ok(fl[q]));
            }
            assert(self.slot(q, block as int));
            Heap::lemma_free_facts(*self, mem@, q, b);
            assert(((block - self.heap_start) / 4) as int == self.hdr(block as int)) by {
                reveal(word_of);
            }
            if q > 0 {
                assert(((prev - self.heap_start) / 4) as int == self.hdr(prev as int)) by {
                    reveal(word_of);
                }
            }
            if q < fl.len() {
                assert(((current - self.heap_start) / 4) as int == self.hdr(current as int)) by {
                    reveal(word_of);
                }
            }
        }
        let ghost m0 = mem@;
        let hb = (block - self.heap_start) / 4;
        mem[hb] = size as u32;
        mem[hb + 1] = current as u32;
        if prev == 0 {
            self.free_list = block;
        } else {
            let hp = (prev - self.heap_start) / 4;
            mem[hp + 1] = block as u32;
        }
        let ghost m3 = mem@;
        if current != 0 && block + size == current {
            let hc = (current - self.heap_start) / 4;
            let csize = mem[hc];
            let cnext = mem[hc + 1];
            let bsize = mem[hb];
            mem[hb] = bsize + csize;
            mem[hb + 1] = cnext;
        }
        let ghost m4 = mem@;
        if prev != 0 {
            let hp = (prev - self.heap_start) / 4;
            let psize = mem[hp] as usize;
            if prev + psize == block {
                let bsize = mem[hb];
                let blink = mem[hb + 1];
                mem[hp] = psize as u32 + bsize;
                mem[hp + 1] = blink;
            }
        }
        proof {
            let pre = *old(self);
            self.free@ = pre.with_freed(q, b);
            Heap::lemma_free_chain(pre, m0, m3, m4, mem@, q, b);
            assert(Heap::free_effect(pre, old(mem)@, *self, mem@, q, b));
            Heap::lemma_free_wf(pre, old(mem)@, *self, mem@, q, b);
            Heap::lemma_free_keeps_live(pre, old(mem)@, *self, mem@, q, b);
            Heap::lemma_slot_unique(pre, fl, block as int, q);
        }
    }
}


impl Heap {
    /// The words the release writes, step by step, add up to the pointwise
    /// picture of [`Heap::free_effect`].
    #[verifier::spinoff_prover]
    #[verifier::rlimit(50)]
    proof fn lemma_free_chain(
        pre: Heap,
        m0: Seq<u32>,
        m3: Seq<u32>,
        m4: Seq<u32>,
        m5: Seq<u32>,
        q: int,
        b: Block,
    )
        requires
            pre.between(m0, b),
            pre.slot(q, b.0),
            m3 == if q > 0 {
                m0.update(pre.hdr(b.0), b.1 as u32).update(
                    pre.hdr(b.0) + 1,
                    (if q < pre.free@.len() {
                        pre.free@[q].0
                    } else {
                        0
                    }) as u32,
                ).update(pre.hdr(pre.free@[q - 1].0) + 1, b.0 as u32)
            } else {
                m0.update(pre.hdr(b.0), b.1 as u32).update(
                    pre.hdr(b.0) + 1,
                    (if q < pre.free@.len() {
                        pre.free@[q].0
                    } else {
                        0
                    }) as u32,
                )
            },
            m4 == if pre.merge_next(q, b) {
                m3.update(pre.hdr(b.0), (b.1 + pre.free@[q].1) as u32).update(
                    pre.hdr(b.0) + 1,
                    pre.after(q, b) as u32,
                )
            } else {
                m3
            },
            m5 == if pre.merge_prev(q, b) {
                m4.update(
                    pre.hdr(pre.free@[q - 1].0),
                    (pre.free@[q - 1].1 + m4[pre.hdr(b.0)]) as u32,
                ).update(pre.hdr(pre.free@[q - 1].0) + 1, m4[pre.hdr(b.0) + 1])
            } else {
                m4
            },
        ensures
            m5.len() == m0.len(),
            forall|w: int|
                0 <= w < m5.len() ==> m5[w] == if w == pre.hdr(b.0) {
                    pre.merged(q, b) as u32
                } else if w == pre.hdr(b.0) + 1 {
                    pre.after(q, b) as u32
                } else if pre.merge_prev(q, b) && w == pre.hdr(pre.free@[q - 1].0) {
                    (pre.free@[q - 1].1 + pre.merged(q, b)) as u32
                } else if q > 0 && w == pre.hdr(pre.free@[q - 1].0) + 1 {
                    if pre.merge_prev(q, b) {
                        pre.after(q, b) as u32
                    } else {
                        b.0 as u32
                    }
                } else {
                    m0[w]
                },
    {
        Heap::lemma_free_facts(pre, m0, q, b);
        let fl = pre.free@;
        let hb = pre.hdr(b.0);
        if q > 0 {
            assert(pre.hdr(fl[q - 1].0) + 2 <= hb);
        }
        assert(m4[hb] == pre.merged(q, b) as u32);
        assert(m4[hb + 1] == pre.after(q, b) as u32);
    }

    #[verifier::spinoff_prover]
    #[verifier::rlimit(50)]
    proof fn lemma_free_inside(pre: Heap, mem0: Seq<u32>, post: Heap, mem1: Seq<u32>, q: int, b: Block)
        requires
            Heap::free_effect(pre, mem0, post, mem1, q, b),
        ensures
            post.inside(),
    {
        Heap::lemma_free_facts(pre, mem0, q, b);
        reveal(Heap::inside);
        let fl = pre.free@;
        let mn = pre.merge_next(q, b);
        let mp = pre.merge_prev(q, b);
        let lo = if mp {
            q - 1
        } else {
            q
        };
        let hi = if mn {
            q + 1
        } else {
            q
        };
        let x = if mp {
            (fl[q - 1].0, fl[q - 1].1 + pre.merged(q, b))
        } else {
            (b.0, pre.merged(q, b))
        };
        let nfl = post.free@;
        assert(nfl == splice(fl, lo, hi, x));
        assert(nfl.len() == lo + 1 + fl.len() - hi);
        assert(pre.block_ok(x));
        assert forall|j: int| 0 <= j < nfl.len() implies post.block_ok(#[trigger] nfl[j]) by {
            if j < lo {
                assert(nfl[j] == fl[j]);
                assert(pre.block_ok(fl[j]));
            } else if j > lo {
                assert(nfl[j] == fl[j - lo - 1 + hi]);
                assert(pre.block_ok(fl[j - lo - 1 + hi]));
            }
        }
        assert forall|i: int| 0 <= i < pre.live@.len() implies post.block_ok(
            #[trigger] post.live@[i],
        ) by {
            assert(pre.block_ok(pre.live@[i]));
        }
    }

    #[verifier::spinoff_prover]
    #[verifier::rlimit(50)]
    proof fn lemma_free_sorted(pre: Heap, mem0: Seq<u32>, post: Heap, mem1: Seq<u32>, q: int, b: Block)
        requires
            Heap::free_effect(pre, mem0, post, mem1, q, b),
        ensures
            post.sorted(),
    {
        Heap::lemma_free_facts(pre, mem0, q, b);
        reveal(Heap::inside);
        let fl = pre.free@;
        let mn = pre.merge_next(q, b);
        let mp = pre.merge_prev(q, b);
        let lo = if mp {
            q - 1
        } else {
            q
        };
        let hi = if mn {
            q + 1
        } else {
            q
        };
        let x = if mp {
            (fl[q - 1].0, fl[q - 1].1 + pre.merged(q, b))
        } else {
            (b.0, pre.merged(q, b))
        };
        let nfl = post.free@;
        assert(nfl == splice(fl, lo, hi, x));
        assert(nfl.len() == lo + 1 + fl.len() - hi);
        reveal(Heap::sorted);
        assert forall|j: int| 0 <= j < nfl.len() implies nfl[j] == if j < lo {
            fl[j]
        } else if j == lo {
            x
        } else {
            fl[j - lo - 1 + hi]
        } by {}
        // the merged block ends no later than the next block kept on the list
        assert forall|j: int| hi <= j < fl.len() implies x.0 + x.1 <= (#[trigger] fl[j]).0 by {
            assert(pre.block_ok(fl[j]));
            if mn {
                assert(fl[q].0 + fl[q].1 <= fl[j].0);
            } else {
                assert(apart(b, fl[j]));
            }
        }
        assert forall|j: int| 0 <= j < lo implies (#[trigger] fl[j]).0 + fl[j].1 <= x.0 by {
            assert(pre.block_ok(fl[j]));
            if mp {
                assert(fl[j].0 + fl[j].1 <= fl[q - 1].0);
            } else {
                assert(apart(b, fl[j]));
            }
        }
        assert forall|i: int, j: int| 0 <= i < j < nfl.len() implies (#[trigger] nfl[i]).0
            + nfl[i].1 <= (#[trigger] nfl[j]).0 by {
            if j < lo {
                assert(fl[i].0 + fl[i].1 <= fl[j].0);
            } else if j == lo {
                assert(fl[i].0 + fl[i].1 <= x.0);
            } else if i == lo {
                assert(x.0 + x.1 <= fl[j - lo - 1 + hi].0);
            } else if i < lo {
                assert(fl[i].0 + fl[i].1 <= x.0);
                assert(x.0 + x.1 <= fl[j - lo - 1 + hi].0);
            } else {
                assert(fl[i - lo - 1 + hi].0 + fl[i - lo - 1 + hi].1 <= fl[j - lo - 1 + hi].0);
            }
        }
    }
}


impl Heap {
    #[verifier::spinoff_prover]
    #[verifier::rlimit(50)]
    proof fn lemma_free_disjoint(pre: Heap, mem0: Seq<u32>, post: Heap, mem1: Seq<u32>, q: int, b: Block)
        requires
            Heap::free_effect(pre, mem0, post, mem1, q, b),
        ensures
            post.disjoint(),
    {
        Heap::lemma_free_facts(pre, mem0, q, b);
        reveal(Heap::inside);
        reveal(Heap::disjoint);
        let fl = pre.free@;
        let lv = pre.live@;
        let mn = pre.merge_next(q, b);
        let mp = pre.merge_prev(q, b);
        let lo = if mp {
            q - 1
        } else {
            q
        };
        let hi = if mn {
            q + 1
        } else {
            q
        };
        let x = if mp {
            (fl[q - 1].0, fl[q - 1].1 + pre.merged(q, b))
        } else {
            (b.0, pre.merged(q, b))
        };
        let nfl = post.free@;
        assert(nfl == splice(fl, lo, hi, x));
        assert forall|i: int| 0 <= i < lv.len() implies apart(#[trigger] lv[i], x) by {
            assert(pre.block_ok(lv[i]));
            assert(apart(b, lv[i]));
            if mn {
                assert(apart(lv[i], fl[q]));
            }
            if mp {
                assert(apart(lv[i], fl[q - 1]));
            }
        }
        assert forall|i: int, j: int| 0 <= i < post.live@.len() && 0 <= j < nfl.len() implies apart(
            #[trigger] post.live@[i],
            #[trigger] nfl[j],
        ) by {
            if j < lo {
                assert(apart(lv[i], fl[j]));
            } else if j == lo {
                assert(apart(lv[i], x));
            } else {
                assert(nfl[j] == fl[j - lo - 1 + hi]);
                assert(apart(lv[i], fl[j - lo - 1 + hi]));
            }
        }
    }

    /// A release writes only the header of the block it frees and the
    /// header of the free block before it; every other header is untouched.
    #[verifier::spinoff_prover]
    #[verifier::rlimit(50)]
    proof fn lemma_free_untouched(pre: Heap, mem0: Seq<u32>, post: Heap, mem1: Seq<u32>, q: int, b: Block)
        requires
            Heap::free_effect(pre, mem0, post, mem1, q, b),
        ensures
            forall|j: int|
                0 <= j < pre.free@.len() && j != q - 1 ==> mem1[pre.hdr(#[trigger] pre.free@[j].0)]
                    == mem0[pre.hdr(pre.free@[j].0)] && mem1[pre.hdr(pre.free@[j].0) + 1]
                    == mem0[pre.hdr(pre.free@[j].0) + 1],
            forall|i: int|
                0 <= i < pre.live@.len() ==> mem1[pre.hdr(#[trigger] pre.live@[i].0)] == mem0[pre.hdr(
                    pre.live@[i].0,
                )],
            forall|j: int|
                0 <= j < pre.free@.len() ==> 0 <= pre.hdr(#[trigger] pre.free@[j].0) && pre.hdr(
                    pre.free@[j].0,
                ) + 1 < mem0.len(),
    {
        Heap::lemma_free_facts(pre, mem0, q, b);
        reveal(Heap::inside);
        reveal(Heap::sorted);
        reveal(Heap::disjoint);
        let fl = pre.free@;
        let lv = pre.live@;
        assert forall|j: int| 0 <= j < fl.len() && j != q - 1 implies mem1[pre.hdr(
            #[trigger] fl[j].0,
        )] == mem0[pre.hdr(fl[j].0)] && mem1[pre.hdr(fl[j].0) + 1] == mem0[pre.hdr(fl[j].0) + 1] by {
            assert(pre.block_ok(fl[j]));
            pre.lemma_hdr(mem0, fl[j].0, fl[j].1);
            assert(apart(b, fl[j]));
            if j < q - 1 {
                assert(fl[j].0 + fl[j].1 <= fl[q - 1].0);
            } else if q > 0 && j > q - 1 {
                assert(fl[q - 1].0 + fl[q - 1].1 <= fl[j].0);
            }
        }
        assert forall|i: int| 0 <= i < lv.len() implies mem1[pre.hdr(#[trigger] lv[i].0)] == mem0[pre.hdr(
            lv[i].0,
        )] by {
            assert(pre.block_ok(lv[i]));
            pre.lemma_hdr(mem0, lv[i].0, lv[i].1);
            assert(apart(b, lv[i]));
            if q > 0 {
                assert(apart(lv[i], fl[q - 1]));
            }
        }
        assert forall|j: int| 0 <= j < fl.len() implies 0 <= pre.hdr(#[trigger] fl[j].0) && pre.hdr(
            fl[j].0,
        ) + 1 < mem0.len() by {
            assert(pre.block_ok(fl[j]));
            pre.lemma_hdr(mem0, fl[j].0, fl[j].1);
        }
    }

    #[verifier::spinoff_prover]
    #[verifier::rlimit(40)]
    proof fn lemma_free_sizes(pre: Heap, mem0: Seq<u32>, post: Heap, mem1: Seq<u32>, q: int, b: Block)
        requires
            Heap::free_effect(pre, mem0, post, mem1, q, b),
            post.inside(),
        ensures
            post.free_sizes(mem1),
    {
        Heap::lemma_free_facts(pre, mem0, q, b);
        Heap::lemma_free_untouched(pre, mem0, post, mem1, q, b);
        reveal(Heap::inside);
        reveal(Heap::free_sizes);
        reveal(Heap::free_links);
        reveal(Heap::live_sizes);
        let fl = pre.free@;
        let mn = pre.merge_next(q, b);
        let mp = pre.merge_prev(q, b);
        let lo = if mp {
            q - 1
        } else {
            q
        };
        let hi = if mn {
            q + 1
        } else {
            q
        };
        let x = if mp {
            (fl[q - 1].0, fl[q - 1].1 + pre.merged(q, b))
        } else {
            (b.0, pre.merged(q, b))
        };
        let nfl = post.free@;
        assert(nfl == splice(fl, lo, hi, x));
        assert(nfl.len() == lo + 1 + fl.len() - hi);
        assert(post.block_ok(nfl[lo]));
        assert(x.1 <= u32::MAX);
        assert(pre.after(q, b) <= u32::MAX) by {
            if hi < fl.len() {
                assert(pre.block_ok(fl[hi]));
            }
        }
        assert forall|j: int| 0 <= j < nfl.len() implies mem1[post.hdr((#[trigger] nfl[j]).0)]
            == nfl[j].1 by {
            if j < lo {
                assert(nfl[j] == fl[j]);
            } else if j > lo {
                assert(nfl[j] == fl[j - lo - 1 + hi]);
            }
        }
    }

    #[verifier::spinoff_prover]
    #[verifier::rlimit(60)]
    proof fn lemma_free_links(pre: Heap, mem0: Seq<u32>, post: Heap, mem1: Seq<u32>, q: int, b: Block)
        requires
            Heap::free_effect(pre, mem0, post, mem1, q, b),
            post.inside(),
        ensures
            post.free_links(mem1),
    {
        Heap::lemma_free_facts(pre, mem0, q, b);
        Heap::lemma_free_untouched(pre, mem0, post, mem1, q, b);
        reveal(Heap::inside);
        reveal(Heap::free_sizes);
        reveal(Heap::free_links);
        reveal(Heap::live_sizes);
        let fl = pre.free@;
        let mn = pre.merge_next(q, b);
        let mp = pre.merge_prev(q, b);
        let lo = if mp {
            q - 1
        } else {
            q
        };
        let hi = if mn {
            q + 1
        } else {
            q
        };
        let x = if mp {
            (fl[q - 1].0, fl[q - 1].1 + pre.merged(q, b))
        } else {
            (b.0, pre.merged(q, b))
        };
        let nfl = post.free@;
        assert(nfl == splice(fl, lo, hi, x));
        assert(nfl.len() == lo + 1 + fl.len() - hi);
        assert(post.block_ok(nfl[lo]));
        assert(x.1 <= u32::MAX);
        assert(pre.after(q, b) <= u32::MAX) by {
            if hi < fl.len() {
                assert(pre.block_ok(fl[hi]));
            }
        }
        assert forall|j: int| 0 <= j < nfl.len() implies mem1[post.hdr((#[trigger] nfl[j]).0) + 1]
            == if j + 1 < nfl.len() {
            nfl[j + 1].0
        } else {
            0
        } by {
            if j < lo {
                assert(nfl[j] == fl[j]);
                if j + 1 < lo {
                    assert(nfl[j + 1] == fl[j + 1]);
                }
            } else if j > lo {
                assert(nfl[j] == fl[j - lo - 1 + hi]);
                if j + 1 < nfl.len() {
                    assert(nfl[j + 1] == fl[j + 1 - lo - 1 + hi]);
                }
            } else if j + 1 < nfl.len() {
                assert(nfl[j + 1] == fl[hi]);
            }
        }
    }

    #[verifier::spinoff_prover]
    #[verifier::rlimit(50)]
    proof fn lemma_free_live(pre: Heap, mem0: Seq<u32>, post: Heap, mem1: Seq<u32>, q: int, b: Block)
        requires
            Heap::free_effect(pre, mem0, post, mem1, q, b),
        ensures
            post.live_sizes(mem1),
    {
        Heap::lemma_free_untouched(pre, mem0, post, mem1, q, b);
        reveal(Heap::live_sizes);
        assert forall|j: int| 0 <= j < post.live@.len() implies mem1[post.hdr(
            (#[trigger] post.live@[j]).0,
        )] == post.live@[j].1 by {
            assert(mem1[pre.hdr(pre.live@[j].0)] == mem0[pre.hdr(pre.live@[j].0)]);
        }
    }

    #[verifier::spinoff_prover]
    #[verifier::rlimit(50)]
    proof fn lemma_free_accounting(pre: Heap, mem0: Seq<u32>, post: Heap, mem1: Seq<u32>, q: int, b: Block)
        requires
            Heap::free_effect(pre, mem0, post, mem1, q, b),
        ensures
            post.accounting(),
    {
        Heap::lemma_free_facts(pre, mem0, q, b);
        let fl = pre.free@;
        let mn = pre.merge_next(q, b);
        let mp = pre.merge_prev(q, b);
        let lo = if mp {
            q - 1
        } else {
            q
        };
        let hi = if mn {
            q + 1
        } else {
            q
        };
        let x = if mp {
            (fl[q - 1].0, fl[q - 1].1 + pre.merged(q, b))
        } else {
            (b.0, pre.merged(q, b))
        };
        let nfl = post.free@;
        assert(nfl == splice(fl, lo, hi, x));
        lemma_total_concat(fl.take(lo) + seq![x], fl.skip(hi));
        lemma_total_concat(fl.take(lo), seq![x]);
        lemma_total_push(Seq::<Block>::empty(), x);
        assert(seq![x] =~= Seq::<Block>::empty().push(x));
        let mid = fl.subrange(lo, hi);
        assert(fl =~= fl.take(lo) + mid + fl.skip(hi));
        lemma_total_concat(fl.take(lo) + mid, fl.skip(hi));
        lemma_total_concat(fl.take(lo), mid);
        assert(total_size(mid) + b.1 == x.1) by {
            if lo == hi {
                assert(mid =~= Seq::<Block>::empty());
            } else if hi == lo + 1 {
                assert(mid =~= Seq::<Block>::empty().push(fl[lo]));
                lemma_total_push(Seq::<Block>::empty(), fl[lo]);
            } else {
                assert(mid =~= Seq::<Block>::empty().push(fl[lo]).push(fl[lo + 1]));
                lemma_total_push(Seq::<Block>::empty(), fl[lo]);
                lemma_total_push(Seq::<Block>::empty().push(fl[lo]), fl[lo + 1]);
            }
        }
        assert(nfl.len() > 0);
        assert(nfl[0] == if lo == 0 {
            x
        } else {
            fl[0]
        });
    }

    /// A release writes no word of a block that stays live.
    #[verifier::spinoff_prover]
    #[verifier::rlimit(50)]
    proof fn lemma_free_keeps_live(pre: Heap, mem0: Seq<u32>, post: Heap, mem1: Seq<u32>, q: int, b: Block)
        requires
            Heap::free_effect(pre, mem0, post, mem1, q, b),
        ensures
            forall|i: int, w: int|
                #![trigger pre.live@[i], mem1[w]]
                0 <= i < pre.live@.len() && 0 <= w < mem0.len() && pre.live@[i].0 <= pre.heap_start
                    + 4 * w < pre.live@[i].0 + pre.live@[i].1 ==> mem1[w] == mem0[w],
    {
        Heap::lemma_free_facts(pre, mem0, q, b);
        reveal(Heap::inside);
        reveal(Heap::disjoint);
        let fl = pre.free@;
        let lv = pre.live@;
        assert forall|i: int, w: int|
            #![trigger lv[i], mem1[w]]
            0 <= i < lv.len() && 0 <= w < mem0.len() && lv[i].0 <= pre.heap_start + 4 * w < lv[i].0
                + lv[i].1 implies mem1[w] == mem0[w] by {
            assert(pre.block_ok(lv[i]));
            assert(apart(b, lv[i]));
            if q > 0 {
                assert(apart(lv[i], fl[q - 1]));
            }
        }
    }

    #[verifier::spinoff_prover]
    #[verifier::rlimit(50)]
    proof fn lemma_free_wf(pre: Heap, mem0: Seq<u32>, post: Heap, mem1: Seq<u32>, q: int, b: Block)
        requires
            Heap::free_effect(pre, mem0, post, mem1, q, b),
        ensures
            post.wf(mem1),
    {
        Heap::lemma_free_facts(pre, mem0, q, b);
        Heap::lemma_free_inside(pre, mem0, post, mem1, q, b);
        Heap::lemma_free_sorted(pre, mem0, post, mem1, q, b);
        Heap::lemma_free_disjoint(pre, mem0, post, mem1, q, b);
        Heap::lemma_free_sizes(pre, mem0, post, mem1, q, b);
        Heap::lemma_free_links(pre, mem0, post, mem1, q, b);
        Heap::lemma_free_live(pre, mem0, post, mem1, q, b);
        Heap::lemma_free_accounting(pre, mem0, post, mem1, q, b);
        Heap::lemma_free_coalesced(pre, mem0, post, mem1, q, b);
    }

    #[verifier::spinoff_prover]
    #[verifier::rlimit(50)]
    proof fn lemma_free_coalesced(pre: Heap, mem0: Seq<u32>, post: Heap, mem1: Seq<u32>, q: int, b: Block)
        requires
            Heap::free_effect(pre, mem0, post, mem1, q, b),
        ensures
            post.coalesced(),
    {
        Heap::lemma_free_facts(pre, mem0, q, b);
        reveal(Heap::coalesced);
        let fl = pre.free@;
        let mn = pre.merge_next(q, b);
        let mp = pre.merge_prev(q, b);
        let lo = if mp {
            q - 1
        } else {
            q
        };
        let hi = if mn {
            q + 1
        } else {
            q
        };
        let x = if mp {
            (fl[q - 1].0, fl[q - 1].1 + pre.merged(q, b))
        } else {
            (b.0, pre.merged(q, b))
        };
        let nfl = post.free@;
        assert(nfl == splice(fl, lo, hi, x));
        assert(nfl.len() == lo + 1 + fl.len() - hi);
        assert forall|j: int| 0 <= j < nfl.len() implies nfl[j] == if j < lo {
            fl[j]
        } else if j == lo {
            x
        } else {
            fl[j - lo - 1 + hi]
        } by {}
        assert forall|i: int| 0 <= i < nfl.len() - 1 implies (#[trigger] nfl[i]).0 + nfl[i].1
            < nfl[i + 1].0 by {
            if i < lo - 1 {
                assert(fl[i].0 + fl[i].1 < fl[i + 1].0);
            } else if i == lo - 1 {
                if mp {
                    assert(fl[q - 2].0 + fl[q - 2].1 < fl[q - 1].0);
                }
            } else if i == lo {
                if mn && q + 1 < fl.len() {
                    assert(fl[q].0 + fl[q].1 < fl[q + 1].0);
                }
            } else {
                assert(fl[i - lo - 1 + hi].0 + fl[i - lo - 1 + hi].1 < fl[i - lo + hi].0);
            }
        }
    }
}


impl Heap {
    /// Some free block fits `needed` bytes, so a first one does.
    proof fn lemma_first_fit_from(h: Heap, needed: int, n: int) -> (k: int)
        requires
            0 <= n <= h.free@.len(),
            forall|j: int| 0 <= j < n ==> h.free@[j].1 < needed,
            !h.no_fit(needed),
        ensures
            h.first_fit(k, needed),
        decreases h.free@.len() - n,
    {
        if n < h.free@.len() && h.free@[n].1 >= needed {
            n
        } else {
            Heap::lemma_first_fit_from(h, needed, n + 1)
        }
    }

    /// Every address has a slot in a sorted free list.
    proof fn lemma_slot_from(h: Heap, a: int, n: int) -> (q: int)
        requires
            h.sorted(),
            0 <= n <= h.free@.len(),
            forall|j: int| 0 <= j < n ==> h.free@[j].0 < a,
        ensures
            h.slot(q, a),
        decreases h.free@.len() - n,
    {
        if n == h.free@.len() || h.free@[n].0 >= a {
            n
        } else {
            Heap::lemma_slot_from(h, a, n + 1)
        }
    }

    /// A block handed out by [`Heap::allocate`] lies inside the heap,
    /// 8-aligned, holds at least `size` bytes after its header, is live
    /// afterwards, and shares no byte with any block that was already live.
    #[verifier::spinoff_prover]
    #[verifier::rlimit(50)]
    pub proof fn lemma_allocation_fits(pre: Heap, post: Heap, mem: Seq<u32>, size: int, align: int, p: int)
        requires
            pre.wf(mem),
            Heap::allocation(pre, post, size, align, p),
            p != 0,
        ensures
            p % (ALIGN as int) == 0,
            pre.start_spec() + HEADER_SIZE <= p,
            p + size <= pre.end_spec(),
            post.live_blocks().len() == pre.live_blocks().len() + 1,
            post.live_blocks().last().0 == p - HEADER_SIZE,
            post.live_blocks().last().1 >= size + HEADER_SIZE,
            post.is_live(p - HEADER_SIZE),
            forall|i: int|
                0 <= i < pre.live_blocks().len() ==> apart(
                    #[trigger] pre.live_blocks()[i],
                    post.live_blocks().last(),
                ),
    {
        let needed = block_size_for(size);
        let k = Heap::lemma_first_fit_from(pre, needed, 0);
        reveal(Heap::inside);
        reveal(Heap::disjoint);
        let fl = pre.free@;
        let b = fl[k];
        assert(pre.block_ok(b));
        assert(round_up(size) >= size && round_up(round_up(size) + HEADER_SIZE) >= round_up(size)
            + HEADER_SIZE);
        let last = post.live@.len() - 1;
        assert(post.live@[last] == post.live_blocks().last());
        assert forall|i: int| 0 <= i < pre.live_blocks().len() implies apart(
            #[trigger] pre.live_blocks()[i],
            post.live_blocks().last(),
        ) by {
            assert(apart(pre.live@[i], b));
        }
    }

    /// Once every block has been given back, the free list is the whole heap
    /// again, as a single block: freeing everything undoes all fragmentation.
    pub proof fn lemma_all_free_is_whole(h: Heap, mem: Seq<u32>)
        requires
            h.wf(mem),
            h.ready(),
            h.live_blocks().len() == 0,
        ensures
            h.free_blocks() == seq![(h.start_spec(), h.end_spec() - h.start_spec())],
            h.used_spec() == 0,
    {
        reveal(Heap::inside);
        reveal(Heap::coalesced);
        let fl = h.free@;
        assert(total_size(h.live@) == 0);
        if fl.len() == 0 {
            assert(total_size(fl) == 0);
        } else {
            assert forall|i: int| 0 <= i < fl.len() implies #[trigger] fl[i].1 >= 0 by {
                assert(h.block_ok(fl[i]));
            }
            lemma_span(fl);
            assert(h.block_ok(fl[0]));
            assert(h.block_ok(fl[fl.len() - 1]));
            if fl.len() == 1 {
                assert(fl.drop_last() =~= Seq::<Block>::empty());
                assert(total_size(fl) == fl[0].1);
                assert(fl =~= seq![(h.start_spec(), h.end_spec() - h.start_spec())]);
            }
        }
    }

    /// Freeing what was just allocated gives back exactly the bytes it took
    /// and leaves the same blocks live as before.
    #[verifier::spinoff_prover]
    #[verifier::rlimit(50)]
    pub proof fn lemma_release_undoes_allocation(
        pre: Heap,
        mid: Heap,
        post: Heap,
        mem: Seq<u32>,
        size: int,
        align: int,
        p: int,
    )
        requires
            pre.wf(mem),
            Heap::allocation(pre, mid, size, align, p),
            p != 0,
            Heap::release(mid, post, p),
        ensures
            post.used_spec() == pre.used_spec(),
            post.live_blocks() == pre.live_blocks(),
    {
        Heap::lemma_allocation_fits(pre, mid, mem, size, align, p);
        let needed = block_size_for(size);
        let k = Heap::lemma_first_fit_from(pre, needed, 0);
        let i = mid.live@.len() - 1;
        assert(mid.live@[i].0 == p - HEADER_SIZE);
        assert(mid.sorted()) by {
            reveal(Heap::sorted);
            reveal(Heap::inside);
            let fl = pre.free@;
            let nfl = mid.free@;
            assert forall|a: int, c: int| 0 <= a < c < nfl.len() implies (#[trigger] nfl[a]).0
                + nfl[a].1 <= (#[trigger] nfl[c]).0 by {
                if fl[k].1 - needed >= HEADER_SIZE {
                    assert(fl[a].0 + fl[a].1 <= fl[c].0);
                } else {
                    let aa = if a < k {
                        a
                    } else {
                        a + 1
                    };
                    let cc = if c < k {
                        c
                    } else {
                        c + 1
                    };
                    assert(fl[aa].0 + fl[aa].1 <= fl[cc].0);
                }
            }
        }
        let q = Heap::lemma_slot_from(mid, p - HEADER_SIZE, 0);
        assert(mid.live_blocks()[i].0 == p - HEADER_SIZE);
        assert(mid.slot(q, p - HEADER_SIZE));
        assert(mid.live@.remove(i) =~= pre.live@);
    }

    /// Every consistent heap keeps its free list in address order with no
    /// two neighbouring free blocks touching, and counts as used exactly
    /// the bytes of its live blocks, free and used bytes making up the whole
    /// heap.
    pub proof fn lemma_consistent(h: Heap, mem: Seq<u32>)
        requires
            h.wf(mem),
            h.ready(),
        ensures
            forall|i: int|
                0 <= i < h.free_blocks().len() - 1 ==> (#[trigger] h.free_blocks()[i]).0
                    + h.free_blocks()[i].1 < h.free_blocks()[i + 1].0,
            h.used_spec() == total_size(h.live_blocks()),
            total_size(h.live_blocks()) + total_size(h.free_blocks()) == h.end_spec()
                - h.start_spec(),
    {
        reveal(Heap::coalesced);
    }
}


/// What [`init`] claimed for the heap.
#[derive(Clone, Copy)]
pub struct Report {
    start: usize,
    size: usize,
    ready: bool,
    /// The run of frames the claim got from the frame allocator.
    run: Ghost<Option<Frame>>,
}

impl Report {
    pub closed spec fn start_spec(self) -> int {
        self.start as int
    }

    pub closed spec fn size_spec(self) -> int {
        self.size as int
    }

    pub closed spec fn ready_spec(self) -> bool {
        self.ready
    }

    /// The first frame of the run the heap was given, if any.
    pub closed spec fn run(self) -> Option<Frame> {
        self.run@
    }

    /// First byte of the heap, or 0 if init failed.
    pub fn start(self) -> (s: usize)
        ensures
            s == self.start_spec(),
    {
        self.start
    }

    /// Bytes reserved for the heap.
    pub fn size(self) -> (s: usize)
        ensures
            s == self.size_spec(),
    {
        self.size
    }

    /// Exclusive end address.
    pub fn end(self) -> (e: usize)
        ensures
            e == if self.start_spec() + self.size_spec() <= usize::MAX {
                self.start_spec() + self.size_spec()
            } else {
                usize::MAX as int
            },
    {
        self.start.saturating_add(self.size)
    }

    /// Whether the heap has a backing region.
    pub fn ready(self) -> (b: bool)
        ensures
            b == self.ready_spec(),
    {
        self.ready
    }
}

/// Claims [`HEAP_FRAMES`] contiguous frames for the heap. The report names
/// where they start; the caller then hands those bytes to [`Heap::init`].
/// A machine that cannot spare the frames gets a report that is not ready,
/// rather than a kernel that will not boot.
pub fn init(frames: &mut FrameAllocator) -> (rep: Report)
    requires
        old(frames).wf(),
    ensures
        final(frames).wf(),
        FrameAllocator::run_allocation(*old(frames), *final(frames), HEAP_FRAMES as int, rep.run()),
        rep.ready_spec() == rep.run() is Some,
        rep.run() is Some ==> rep.start_spec() == rep.run()->0@ * 4096 && rep.size_spec()
            == HEAP_SIZE,
        rep.run() is None ==> rep.start_spec() == 0 && rep.size_spec() == 0,
{
    let run = frames.allocate_contiguous(HEAP_FRAMES);
    match run {
        Some(first) => Report {
            start: first.start_address() as usize,
            size: HEAP_SIZE,
            ready: true,
            run: Ghost(run),
        },
        None => Report { start: 0, size: 0, ready: false, run: Ghost(run) },
    }
}

} // verus!

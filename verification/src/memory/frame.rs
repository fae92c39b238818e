//! Physical frame allocator: who owns each 4 KiB page of RAM.
//!
//! [`super::map`] says which physical addresses are real, usable RAM. This
//! module turns those regions into a pool of fixed-size *frames* and hands
//! them out one at a time.
//!
//! Two things make "usable RAM" narrower than the BIOS reports: some of it is
//! already occupied (the kernel image, the E820 handoff block, the boot
//! sector), so the allocator carves out an explicit list of [`Reservation`]s;
//! and E820 addresses are 64-bit while this CPU cannot address anything past
//! the 4 GiB line, so that part is dropped. Where the BIOS reports usable
//! regions that overlap, the part of a region an earlier one already covers
//! is left out, so that no frame belongs to two regions.
//!
//! The allocator itself is a bump cursor over the surviving regions plus a
//! last-in, first-out free list for anything handed back.
use vstd::prelude::*;

use crate::memory::map::{MemoryMap, Region, MAX_ENTRIES};

verus! {

/// Size of a physical frame, which is also the page size 32-bit x86 paging
/// uses.
pub const FRAME_SIZE: u32 = 4096;

/// One past the last frame index a 32-bit physical address can name.
pub const MAX_FRAME_INDEX: u32 = 0x10_0000;

/// How many usable regions the allocator can track.
pub const MAX_REGIONS: usize = MAX_ENTRIES;

/// How many ranges [`FrameAllocator::new`] excludes.
pub const MAX_RESERVATIONS: usize = 4;

/// End of the low-memory area the BIOS and the boot sector's handoff block
/// share.
pub const BIOS_LOW_MEMORY_END: u32 = 0x1000;

/// The page the boot sector was loaded into, also its real-mode stack.
pub const BOOT_SECTOR_PAGE: u32 = 0x7000;

/// The legacy video/option-ROM/BIOS window just below 1 MiB.
pub const LEGACY_ROM_START: u32 = 0xa_0000;

pub const LEGACY_ROM_END: u32 = 0x10_0000;

/// How many frames [`self_test`] takes out and puts back.
pub const SELF_TEST_FRAMES: usize = 8;

/// One physical 4 KiB frame, named by its index rather than its address so
/// that the frame just below the 4 GiB line is representable.
#[derive(Clone, Copy, PartialEq, Eq, Debug, Structural)]
pub struct Frame {
    index: u32,
}

impl View for Frame {
    type V = int;

    /// The frame's index.
    closed spec fn view(&self) -> int {
        self.index as int
    }
}

impl Frame {
    #[verifier::type_invariant]
    spec fn inv(self) -> bool {
        self.index < MAX_FRAME_INDEX
    }

    fn from_index(index: u32) -> (f: Frame)
        requires
            index < MAX_FRAME_INDEX,
        ensures
            f@ == index,
    {
        Frame { index }
    }

    /// The frame this physical address falls in.
    pub fn containing_address(address: u32) -> (f: Frame)
        ensures
            f@ == address / FRAME_SIZE,
    {
        assert(address >> 12u32 == address / 4096u32) by (bit_vector);
        Frame { index: address >> 12 }
    }

    /// Index of the frame, i.e. its address divided by [`FRAME_SIZE`].
    pub fn index(self) -> (i: u32)
        ensures
            i == self@,
            i < MAX_FRAME_INDEX,
    {
        proof {
            use_type_invariant(&self);
        }
        self.index
    }

    /// Physical address of the frame's first byte.
    pub fn start_address(self) -> (a: u32)
        ensures
            a == self@ * FRAME_SIZE,
    {
        proof {
            use_type_invariant(&self);
        }
        let i = self.index;
        assert(i < 0x10_0000u32 ==> i << 12u32 == i * 4096) by (bit_vector);
        i << 12
    }
}

/// A half-open run of frames, `start..end` in frame indices.
#[derive(Clone, Copy)]
struct FrameRange {
    start: u32,
    end: u32,
}

/// Index of the frame containing `address`, saturating at the top of the
/// 32-bit address space.
pub open spec fn floor_index(address: u64) -> u32 {
    if address / 4096 < MAX_FRAME_INDEX {
        (address / 4096) as u32
    } else {
        MAX_FRAME_INDEX
    }
}

/// As [`floor_index`], rounded up.
pub open spec fn ceil_index(address: u64) -> u32 {
    floor_index(
        if address + 4095 > u64::MAX {
            u64::MAX
        } else {
            (address + 4095) as u64
        },
    )
}

fn index_floor(address: u64) -> (i: u32)
    ensures
        i == floor_index(address),
{
    assert(address >> 12u64 == address / 4096u64) by (bit_vector);
    let shifted = address >> 12;
    if shifted < MAX_FRAME_INDEX as u64 {
        shifted as u32
    } else {
        MAX_FRAME_INDEX
    }
}

fn index_ceil(address: u64) -> (i: u32)
    ensures
        i == ceil_index(address),
{
    index_floor(address.saturating_add(FRAME_SIZE as u64 - 1))
}

impl FrameRange {
    spec fn has(self, i: int) -> bool {
        self.start <= i < self.end
    }

    /// The frames lying entirely inside a byte range.
    fn inside(start: u64, end: u64) -> (r: FrameRange)
        ensures
            r.start == ceil_index(start),
            r.end == if floor_index(end) < ceil_index(start) {
                ceil_index(start)
            } else {
                floor_index(end)
            },
            r.start <= r.end <= MAX_FRAME_INDEX,
    {
        let (start, end) = (index_ceil(start), index_floor(end));
        FrameRange { start, end: if end < start {
            start
        } else {
            end
        } }
    }

    /// The frames a byte range touches at all.
    fn covering(start: u32, end: u32) -> (r: FrameRange)
        ensures
            r.start == floor_index(start as u64),
            r.end == ceil_index(end as u64),
            r.end <= MAX_FRAME_INDEX,
            start <= end ==> r.start <= r.end,
    {
        FrameRange { start: index_floor(start as u64), end: index_ceil(end as u64) }
    }

    fn contains(&self, index: u32) -> (b: bool)
        ensures
            b == self.has(index as int),
    {
        index >= self.start && index < self.end
    }

    fn len(&self) -> (n: usize)
        requires
            self.start <= self.end,
        ensures
            n == self.end - self.start,
    {
        (self.end - self.start) as usize
    }

    fn is_empty(&self) -> (b: bool)
        ensures
            b == (self.start >= self.end),
    {
        self.start >= self.end
    }
}

/// A range of physical memory the allocator must never hand out, and why.
#[derive(Clone, Copy)]
pub struct Reservation {
    range: FrameRange,
    reason: &'static str,
}

impl Reservation {
    #[verifier::type_invariant]
    spec fn inv(self) -> bool {
        self.range.start <= self.range.end <= MAX_FRAME_INDEX
    }

    /// First reserved frame index.
    pub closed spec fn first(self) -> int {
        self.range.start as int
    }

    /// One past the last reserved frame index.
    pub closed spec fn last(self) -> int {
        self.range.end as int
    }

    /// Address of the first reserved byte.
    pub fn start_address(&self) -> (a: u64)
        ensures
            a == self.first() * FRAME_SIZE,
            0 <= self.first() <= self.last() <= MAX_FRAME_INDEX,
            a <= 0x1_0000_0000,
    {
        proof {
            use_type_invariant(self);
        }
        self.range.start as u64 * FRAME_SIZE as u64
    }

    /// One past the last reserved byte.
    pub fn end_address(&self) -> (a: u64)
        ensures
            a == self.last() * FRAME_SIZE,
            0 <= self.first() <= self.last() <= MAX_FRAME_INDEX,
            a <= 0x1_0000_0000,
    {
        proof {
            use_type_invariant(self);
        }
        self.range.end as u64 * FRAME_SIZE as u64
    }

    /// How many frames the reservation takes out of circulation.
    pub fn frames(&self) -> (n: usize)
        ensures
            n == self.last() - self.first(),
            0 <= self.first() <= self.last() <= MAX_FRAME_INDEX,
    {
        proof {
            use_type_invariant(self);
        }
        self.range.len()
    }

    /// Why the range is excluded.
    pub closed spec fn why(self) -> &'static str {
        self.reason
    }

    /// Why the range is excluded.
    pub fn reason(&self) -> (s: &'static str)
        ensures
            s == self.why(),
    {
        self.reason
    }
}

/// Why a frame could not be given back.
#[derive(Clone, Copy, PartialEq, Eq, Debug, Structural)]
pub enum FreeError {
    /// The frame is not part of the pool - outside every usable region, or
    /// inside a reservation.
    NotManaged,
    /// A frame in the pool, but one the allocator has never handed out.
    NeverAllocated,
    /// Already on the free list: a double free.
    AlreadyFree,
}

/// A bump allocator over the usable regions, with a last-in, first-out free
/// list in front of it.
///
/// The regions share no frame, and the bump cursor only ever moves forward,
/// so "has this frame ever been handed out?" is a comparison against it,
/// less the runs a contiguous allocation passed over; a frame can only reach
/// the free list by having been handed out first.
pub struct FrameAllocator {
    regions: Vec<FrameRange>,
    reservations: Vec<Reservation>,
    /// Region the bump cursor is working through.
    cursor_region: usize,
    /// Next frame index the bump cursor will consider.
    cursor_frame: u32,
    /// Frames given back, most recent last.
    free_list: Vec<u32>,
    /// Runs of pool frames the bump cursor moved past without handing them
    /// out, because a contiguous run did not fit there.
    skips: Vec<FrameRange>,
    /// Frames the pool holds in total, reservations already subtracted.
    total: usize,
    /// Frames currently handed out.
    in_use: usize,
}

/// A bound on the number of distinct `u32`s below `b`.
proof fn lemma_distinct_below(s: Seq<u32>, b: int)
    requires
        s.no_duplicates(),
        forall|k: int| 0 <= k < s.len() ==> s[k] < b,
    ensures
        s.len() <= if b < 0 { 0 } else { b },
    decreases s.len(),
{
    if s.len() > 0 {
        let x = s.last();
        let rest = s.drop_last();
        let f = |y: u32|
            if y > x {
                (y - 1) as u32
            } else {
                y
            };
        let t = rest.map_values(f);
        assert forall|k: int| 0 <= k < t.len() implies t[k] < b - 1 by {
            assert(rest[k] == s[k]);
            assert(s[k] != s[s.len() - 1]);
        }
        assert forall|i: int, j: int| 0 <= i < t.len() && 0 <= j < t.len() && i != j implies t[i]
            != t[j] by {
            assert(rest[i] == s[i] && rest[j] == s[j]);
            assert(s[i] != s[s.len() - 1] && s[j] != s[s.len() - 1]);
        }
        lemma_distinct_below(t, b - 1);
    }
}

impl FrameAllocator {
    // ---- the model -------------------------------------------------------
    /// Number of usable regions the pool spans.
    pub closed spec fn region_count(self) -> int {
        self.regions@.len() as int
    }

    /// First frame index of region `r`.
    pub closed spec fn region_start(self, r: int) -> int {
        self.regions@[r].start as int
    }

    /// One past the last frame index of region `r`.
    pub closed spec fn region_end(self, r: int) -> int {
        self.regions@[r].end as int
    }

    /// Whether frame `i` lies in region `r`.
    pub closed spec fn in_region(self, r: int, i: int) -> bool {
        0 <= r < self.regions@.len() && self.regions@[r].has(i)
    }

    /// The reservations, as `(first, last)` frame-index pairs, in the order
    /// they were made.
    pub closed spec fn reserved_ranges(self) -> Seq<(int, int)> {
        Seq::new(
            self.reservations@.len(),
            |k: int| (self.reservations@[k].range.start as int, self.reservations@[k].range.end as int),
        )
    }

    /// The reservations, in the order they were made.
    pub closed spec fn reservation_list(self) -> Seq<Reservation> {
        self.reservations@
    }

    /// The reservations and their frame ranges are the same list.
    pub proof fn lemma_reservations_listed(self)
        ensures
            self.reservation_list().len() == self.reserved_ranges().len(),
            forall|k: int|
                0 <= k < self.reserved_ranges().len() ==> (#[trigger] self.reserved_ranges()[k]) == (
                self.reservation_list()[k].first(),
                self.reservation_list()[k].last(),
            ),
    {
    }

    /// Whether some reservation covers frame `i`.
    pub closed spec fn reserved(self, i: int) -> bool {
        reserved_in(self.reservations@, i)
    }

    /// The first region holding frame `i`, if any.
    pub closed spec fn region_index(self, i: int) -> Option<int> {
        region_index_upto(self.regions@, i, self.regions@.len() as int)
    }

    /// Whether frame `i` is part of the pool: inside a region and not
    /// reserved.
    pub closed spec fn managed(self, i: int) -> bool {
        self.region_index(i) is Some && !self.reserved(i)
    }

    /// The bump cursor as (region, frame).
    pub closed spec fn cursor(self) -> (int, int) {
        (self.cursor_region as int, self.cursor_frame as int)
    }

    /// Whether frame `i` of region `r` comes at or after the bump cursor.
    pub closed spec fn at_or_after_cursor(self, r: int, i: int) -> bool {
        r > self.cursor_region || (r == self.cursor_region && i >= self.cursor_frame)
    }

    /// Whether the bump cursor has already passed frame `i`.
    pub closed spec fn passed(self, i: int) -> bool {
        match self.region_index(i) {
            Some(r) => r < self.cursor_region || (r == self.cursor_region && i < self.cursor_frame),
            None => false,
        }
    }

    /// Whether frame `i` lies in a run the bump cursor moved past without
    /// handing it out.
    pub closed spec fn skipped(self, i: int) -> bool {
        exists|k: int| 0 <= k < self.skips@.len() && (#[trigger] self.skips@[k]).has(i)
    }

    /// Whether frame `i` was ever handed out: the bump cursor passed it, and
    /// not as a reserved frame or as part of a run it skipped.
    pub closed spec fn handed_out(self, i: int) -> bool {
        self.passed(i) && !self.reserved(i) && !self.skipped(i)
    }

    /// The frames of the pool the bump cursor has yet to reach.
    pub closed spec fn ahead(self) -> Set<int> {
        Set::new(|i: int| self.managed(i) && !self.passed(i))
    }

    /// How many more frames single-frame allocations can hand out: those on
    /// the free list and those the bump cursor has yet to reach.
    pub closed spec fn obtainable(self) -> int {
        (self.free_list@.len() + self.ahead().len()) as int
    }

    /// Frames given back, most recently freed last.
    pub closed spec fn free_frames(self) -> Seq<u32> {
        self.free_list@
    }

    /// Whether frame `i` is on the free list.
    pub closed spec fn on_list(self, i: int) -> bool {
        exists|k: int| 0 <= k < self.free_list@.len() && self.free_list@[k] == i
    }

    /// Whether frame `i` belongs to someone: in the pool, passed by the bump
    /// cursor, and not given back.
    pub closed spec fn live(self, i: int) -> bool {
        self.managed(i) && self.handed_out(i) && !self.on_list(i)
    }

    pub closed spec fn in_use_spec(self) -> int {
        self.in_use as int
    }

    pub closed spec fn total_spec(self) -> int {
        self.total as int
    }

    /// No frame lies in two regions.
    pub closed spec fn disjoint(self) -> bool {
        disjoint_in(self.regions@)
    }

    /// What a call of [`FrameAllocator::allocate`] on `pre` that left `post`
    /// and returned `r` did: the most recently freed frame if there is one,
    /// else the next unreserved frame the bump cursor reaches.
    pub open spec fn allocation(pre: FrameAllocator, post: FrameAllocator, r: Option<Frame>) -> bool {
        &&& post.same_pool(pre)
        &&& forall|i: int|
            post.handed_out(i) == (pre.handed_out(i) || (pre.free_frames().len() == 0 && r is Some
                && i == r->0@))
        &&& pre.free_frames().len() > 0 ==> r is Some && r->0@ == pre.free_frames().last()
            && post.free_frames() == pre.free_frames().drop_last() && post.cursor() == pre.cursor()
            && post.in_use_spec() == pre.in_use_spec() + 1
        &&& pre.free_frames().len() == 0 && r is Some ==> pre.next_bump(post.cursor().0, r->0@)
            && post.cursor().1 == r->0@ + 1 && post.free_frames() == pre.free_frames()
            && post.in_use_spec() == pre.in_use_spec() + 1
        &&& pre.free_frames().len() == 0 && r is None ==> pre.bump_exhausted() && post.cursor().0
            == pre.region_count() && post.free_frames() == pre.free_frames() && post.in_use_spec()
            == pre.in_use_spec()
    }

    /// What a call of [`FrameAllocator::allocate_contiguous`] for `count`
    /// frames did: the first run of `count` unreserved frames within one
    /// region that the bump cursor reaches, the free list untouched.
    pub open spec fn run_allocation(
        pre: FrameAllocator,
        post: FrameAllocator,
        count: int,
        r: Option<Frame>,
    ) -> bool {
        &&& post.same_pool(pre)
        &&& post.free_frames() == pre.free_frames()
        &&& forall|i: int|
            post.handed_out(i) == (pre.handed_out(i) || (r is Some && r->0@ <= i < r->0@ + count))
        &&& count == 0 ==> r is None && post == pre
        &&& count > 0 && r is Some ==> pre.next_run(post.cursor().0, r->0@, count) && post.cursor().1
            == r->0@ + count && post.in_use_spec() == pre.in_use_spec() + count
        &&& count > 0 && r is None ==> pre.runs_exhausted(count) && post.cursor().0
            == pre.region_count() && post.in_use_spec() == pre.in_use_spec()
    }

    /// What a call of [`FrameAllocator::free`] for frame `f` did: it answered
    /// [`FrameAllocator::free_outcome`], and on success pushed the frame on
    /// the free list.
    pub open spec fn freeing(
        pre: FrameAllocator,
        post: FrameAllocator,
        f: int,
        r: Result<(), FreeError>,
    ) -> bool {
        &&& post.same_pool(pre)
        &&& post.cursor() == pre.cursor()
        &&& forall|i: int| post.handed_out(i) == pre.handed_out(i)
        &&& r == pre.free_outcome(f)
        &&& r is Ok ==> post.free_frames() == pre.free_frames().push(f as u32) && post.in_use_spec()
            == if pre.in_use_spec() > 0 {
            pre.in_use_spec() - 1
        } else {
            0
        }
        &&& r is Err ==> post.free_frames() == pre.free_frames() && post.in_use_spec()
            == pre.in_use_spec()
    }

    /// Frame `f` of region `r` is what the bump cursor hands out next: the
    /// first unreserved frame at or after the cursor, in region order.
    pub closed spec fn next_bump(self, r: int, f: int) -> bool {
        &&& self.in_region(r, f)
        &&& !self.reserved(f)
        &&& self.at_or_after_cursor(r, f)
        &&& forall|r2: int, i2: int|
            self.in_region(r2, i2) && self.at_or_after_cursor(r2, i2) && (r2 < r || (r2 == r && i2
                < f)) ==> self.reserved(i2)
    }

    /// Every frame at or after the bump cursor is reserved.
    pub closed spec fn bump_exhausted(self) -> bool {
        forall|r: int, i: int|
            self.in_region(r, i) && self.at_or_after_cursor(r, i) ==> self.reserved(i)
    }

    /// `count` frames starting at `s` all lie in region `r`, none reserved.
    pub closed spec fn fits(self, r: int, s: int, count: int) -> bool {
        fits_in(self.regions@, self.reservations@, r, s, count)
    }

    /// A run of `count` frames starting at frame `s` of region `r` is the
    /// first one the bump cursor can reach.
    pub closed spec fn next_run(self, r: int, s: int, count: int) -> bool {
        &&& self.fits(r, s, count)
        &&& self.at_or_after_cursor(r, s)
        &&& forall|r2: int, s2: int|
            self.in_region(r2, s2) && self.at_or_after_cursor(r2, s2) && (r2 < r || (r2 == r && s2
                < s)) ==> !self.fits(r2, s2, count)
    }

    /// No run of `count` frames can be reached by the bump cursor any more.
    pub closed spec fn runs_exhausted(self, count: int) -> bool {
        forall|r: int, s: int|
            self.in_region(r, s) && self.at_or_after_cursor(r, s) ==> !self.fits(r, s, count)
    }

    /// Whether two allocators agree on everything but the cursor, the free
    /// list and the in-use count.
    pub closed spec fn same_pool(self, other: FrameAllocator) -> bool {
        &&& self.regions@ == other.regions@
        &&& self.reservations@ == other.reservations@
        &&& self.total == other.total
    }

    /// Bounds on the regions and reservations.
    pub closed spec fn shape_ok(self) -> bool {
        shape_ok_in(self.regions@, self.reservations@)
    }

    /// The allocator's internal consistency.
    pub closed spec fn wf(self) -> bool {
        &&& self.shape_ok()
        &&& self.cursor_region <= self.regions@.len()
        &&& self.cursor_frame <= MAX_FRAME_INDEX
        &&& self.cursor_region < self.regions@.len() ==> self.regions@[self.cursor_region as int].start
            <= self.cursor_frame <= self.regions@[self.cursor_region as int].end
        &&& self.free_list@.no_duplicates()
        &&& forall|k: int|
            0 <= k < self.free_list@.len() ==> self.managed(#[trigger] self.free_list@[k] as int)
                && self.handed_out(self.free_list@[k] as int)
        &&& forall|k: int, i: int|
            0 <= k < self.skips@.len() && #[trigger] self.skips@[k].has(i) ==> self.passed(i)
        &&& self.in_use + self.free_list@.len() <= self.cursor_region * MAX_FRAME_INDEX
            + self.cursor_frame + MAX_FRAME_INDEX
        &&& self.total <= MAX_REGIONS * MAX_FRAME_INDEX
    }

    // ---- lemmas about the model -------------------------------------------
    proof fn lemma_region_index_upto(self, i: int, n: int)
        requires
            0 <= n <= self.regions@.len(),
        ensures
            match region_index_upto(self.regions@, i, n) {
                Some(r) => 0 <= r < n && self.regions@[r].has(i) && forall|r2: int|
                    0 <= r2 < r ==> !self.regions@[r2].has(i),
                None => forall|r2: int| 0 <= r2 < n ==> !self.regions@[r2].has(i),
            },
        decreases n,
    {
        if n > 0 {
            self.lemma_region_index_upto(i, n - 1);
        }
    }

    proof fn lemma_region_index(self, i: int)
        ensures
            match self.region_index(i) {
                Some(r) => self.in_region(r, i) && forall|r2: int|
                    0 <= r2 < r ==> !self.in_region(r2, i),
                None => forall|r2: int| !self.in_region(r2, i),
            },
    {
        self.lemma_region_index_upto(i, self.regions@.len() as int);
    }

    /// With disjoint regions, the region a frame is found in is its only
    /// region.
    proof fn lemma_region_unique(self, r: int, i: int)
        requires
            self.disjoint(),
            self.in_region(r, i),
        ensures
            self.region_index(i) == Some(r),
    {
        self.lemma_region_index(i);
        match self.region_index(i) {
            Some(r2) => {
                if r2 < r {
                    assert(self.regions@[r2].has(i) && self.regions@[r].has(i));
                }
            },
            None => {
                assert(!self.in_region(r, i));
            },
        }
    }

    /// A well-formed pool never has a frame in two regions.
    pub proof fn lemma_wf_disjoint(self)
        requires
            self.wf(),
        ensures
            self.disjoint(),
    {
    }

    /// Two states that agree on the pool, the cursor and the skipped runs
    /// agree on which frames were handed out.
    proof fn lemma_same_history(a: FrameAllocator, b: FrameAllocator)
        requires
            b.regions@ == a.regions@,
            b.reservations@ == a.reservations@,
            b.cursor() == a.cursor(),
            b.skips@ == a.skips@,
        ensures
            forall|i: int| b.handed_out(i) == a.handed_out(i),
            forall|i: int| b.passed(i) == a.passed(i),
            forall|i: int| b.managed(i) == a.managed(i),
    {
        assert forall|i: int| b.handed_out(i) == a.handed_out(i) by {
            if b.skipped(i) {
                let k = choose|k: int| 0 <= k < b.skips@.len() && (#[trigger] b.skips@[k]).has(i);
                assert(a.skips@[k] == b.skips@[k]);
            }
            if a.skipped(i) {
                let k = choose|k: int| 0 <= k < a.skips@.len() && (#[trigger] a.skips@[k]).has(i);
                assert(b.skips@[k] == a.skips@[k]);
            }
        }
    }

    /// Moving the bump cursor forward from `a` to `b` past frames that are
    /// reserved, recorded as the skipped run `lo..hi` of region `sr`, or
    /// handed out as `glo..ghi` of region `gr`: exactly `glo..ghi` becomes
    /// handed out, and every skipped run stays behind the cursor.
    #[verifier::spinoff_prover]
    #[verifier::rlimit(50)]
    proof fn lemma_advance(
        a: FrameAllocator,
        b: FrameAllocator,
        sr: int,
        lo: int,
        hi: int,
        gr: int,
        glo: int,
        ghi: int,
    )
        requires
            a.wf(),
            b.regions@ == a.regions@,
            b.reservations@ == a.reservations@,
            FrameAllocator::cursor_le(a.cursor(), b.cursor()),
            lo < hi ==> b.skips@ == a.skips@.push(FrameRange { start: lo as u32, end: hi as u32 })
                && 0 <= lo && hi <= MAX_FRAME_INDEX,
            hi <= lo ==> b.skips@ == a.skips@,
            forall|i: int|
                #![trigger a.in_region(sr, i)]
                lo <= i < hi ==> a.in_region(sr, i) && a.at_or_after_cursor(sr, i)
                    && !b.at_or_after_cursor(sr, i),
            forall|i: int|
                #![trigger a.in_region(gr, i)]
                glo <= i < ghi ==> a.in_region(gr, i) && a.at_or_after_cursor(gr, i)
                    && !b.at_or_after_cursor(gr, i) && !a.reserved(i) && !(lo <= i < hi),
            forall|r: int, i: int|
                #![trigger a.in_region(r, i)]
                a.in_region(r, i) && a.at_or_after_cursor(r, i) && !b.at_or_after_cursor(r, i)
                    ==> a.reserved(i) || (lo <= i < hi) || (glo <= i < ghi),
        ensures
            forall|i: int| b.handed_out(i) == (a.handed_out(i) || (glo <= i < ghi)),
            forall|k: int, i: int|
                0 <= k < b.skips@.len() && #[trigger] b.skips@[k].has(i) ==> b.passed(i),
    {
        a.lemma_wf_disjoint();
        assert forall|i: int| b.skipped(i) == (a.skipped(i) || (lo <= i < hi)) by {
            if b.skipped(i) {
                let k = choose|k: int| 0 <= k < b.skips@.len() && (#[trigger] b.skips@[k]).has(i);
                if k < a.skips@.len() {
                    assert(a.skips@[k] == b.skips@[k]);
                }
            }
            if a.skipped(i) {
                let k = choose|k: int| 0 <= k < a.skips@.len() && (#[trigger] a.skips@[k]).has(i);
                assert(b.skips@[k] == a.skips@[k]);
            }
            if lo <= i < hi {
                assert(b.skips@[a.skips@.len() as int].has(i));
            }
        }
        assert forall|i: int| b.handed_out(i) == (a.handed_out(i) || (glo <= i < ghi)) by {
            a.lemma_region_index(i);
            if lo <= i < hi {
                assert(a.in_region(sr, i));
                a.lemma_region_unique(sr, i);
            }
            if glo <= i < ghi {
                assert(a.in_region(gr, i));
                a.lemma_region_unique(gr, i);
            }
            match a.region_index(i) {
                Some(r) => {
                    assert(b.region_index(i) == Some(r));
                    assert(a.in_region(r, i));
                    if b.passed(i) && !a.passed(i) {
                        assert(a.at_or_after_cursor(r, i) && !b.at_or_after_cursor(r, i));
                    }
                },
                None => {},
            }
        }
        assert forall|k: int, i: int|
            0 <= k < b.skips@.len() && #[trigger] b.skips@[k].has(i) implies b.passed(i) by {
            a.lemma_region_index(i);
            if k < a.skips@.len() {
                assert(a.skips@[k] == b.skips@[k]);
                assert(a.passed(i));
            } else {
                assert(a.in_region(sr, i));
                a.lemma_region_unique(sr, i);
            }
            match a.region_index(i) {
                Some(r) => {
                    assert(b.region_index(i) == Some(r));
                },
                None => {},
            }
        }
    }


    // ---- construction -----------------------------------------------------
    /// What [`FrameAllocator::new`] builds from `map` and the kernel image
    /// `kernel_start..kernel_end`: the four fixed reservations, one region per
    /// usable map region with whole frames in it, the cursor at the first
    /// region's start, nothing handed out, and every unreserved frame counted.
    pub open spec fn built_from(self, map: MemoryMap, kernel_start: u32, kernel_end: u32) -> bool {
        &&& self.reserved_ranges() == seq![
            (0int, 1int),
            (7int, 8int),
            (floor_index(kernel_start as u64) as int, ceil_index(kernel_end as u64) as int),
            (0xa0int, 0x100int),
        ]
        &&& self.region_count() == usable_ranges(map.regions_spec()).len()
        &&& forall|r: int|
            0 <= r < self.region_count() ==> self.region_start(r) == usable_ranges(
                map.regions_spec(),
            )[r].0 && self.region_end(r) == usable_ranges(map.regions_spec())[r].1
        &&& self.cursor() == if self.region_count() > 0 {
            (0int, self.region_start(0))
        } else {
            (0int, 0int)
        }
        &&& self.free_frames().len() == 0
        &&& self.in_use_spec() == 0
        &&& self.total_spec() == self.unreserved_total(self.region_count())
    }

    /// An allocator with no regions and no reservations.
    pub fn empty() -> (a: FrameAllocator)
        ensures
            a.wf(),
            a.region_count() == 0,
            a.reserved_ranges().len() == 0,
            a.free_frames().len() == 0,
            a.in_use_spec() == 0,
            a.total_spec() == 0,
            a.cursor() == (0int, 0int),
    {
        FrameAllocator {
            regions: Vec::new(),
            reservations: Vec::new(),
            cursor_region: 0,
            cursor_frame: 0,
            free_list: Vec::new(),
            skips: Vec::new(),
            total: 0,
            in_use: 0,
        }
    }

    /// Excludes the frames `start..end` (in bytes) touches from the pool.
    /// Ignored once [`MAX_RESERVATIONS`] ranges are already excluded.
    fn reserve(&mut self, start: u32, end: u32, reason: &'static str)
        requires
            old(self).wf(),
            start <= end,
            old(self).region_count() == 0,
            old(self).cursor() == (0int, 0int),
            old(self).free_frames().len() == 0,
            old(self).in_use_spec() == 0,
            old(self).total_spec() == 0,
            old(self).skips@.len() == 0,
        ensures
            final(self).wf(),
            final(self).skips@.len() == 0,
            final(self).region_count() == 0,
            final(self).cursor() == (0int, 0int),
            final(self).free_frames().len() == 0,
            final(self).in_use_spec() == 0,
            final(self).total_spec() == 0,
            final(self).reserved_ranges() == if old(self).reserved_ranges().len()
                == MAX_RESERVATIONS {
                old(self).reserved_ranges()
            } else {
                old(self).reserved_ranges().push(
                    (floor_index(start as u64) as int, ceil_index(end as u64) as int),
                )
            },
    {
        if self.reservations.len() == MAX_RESERVATIONS {
            return ;
        }
        let range = FrameRange::covering(start, end);
        self.reservations.push(Reservation { range, reason });
        assert(self.reserved_ranges() =~= old(self).reserved_ranges().push(
            (floor_index(start as u64) as int, ceil_index(end as u64) as int),
        ));
    }

    /// Builds the pool: every usable region of `map` that this CPU can
    /// address, minus the low BIOS area, the boot sector's page, the kernel
    /// image `kernel_start..kernel_end`, and the legacy ROM window.
    pub fn new(map: &MemoryMap, kernel_start: u32, kernel_end: u32) -> (a: FrameAllocator)
        requires
            kernel_start <= kernel_end,
        ensures
            a.wf(),
            a.built_from(*map, kernel_start, kernel_end),
    {
        let mut allocator = FrameAllocator {
            regions: Vec::new(),
            reservations: Vec::new(),
            cursor_region: 0,
            cursor_frame: 0,
            free_list: Vec::new(),
            skips: Vec::new(),
            total: 0,
            in_use: 0,
        };
        allocator.reserve(0, BIOS_LOW_MEMORY_END, "IVT, BIOS data area, E820 handoff block");
        allocator.reserve(
            BOOT_SECTOR_PAGE,
            BOOT_SECTOR_PAGE + FRAME_SIZE,
            "boot sector image and real-mode stack",
        );
        allocator.reserve(kernel_start, kernel_end, "kernel image, .bss and stack");
        allocator.reserve(LEGACY_ROM_START, LEGACY_ROM_END, "legacy video memory and BIOS ROM");
        proof {
            assert(floor_index(0) == 0);
            assert(ceil_index(BIOS_LOW_MEMORY_END as u64) == 1);
            assert(floor_index(BOOT_SECTOR_PAGE as u64) == 7);
            assert(ceil_index((BOOT_SECTOR_PAGE + FRAME_SIZE) as u64) == 8);
            assert(floor_index(LEGACY_ROM_START as u64) == 0xa0);
            assert(ceil_index(LEGACY_ROM_END as u64) == 0x100);
        }
        let regions = map.regions();
        let ghost rs = regions@;
        let mut n: usize = 0;
        while n < regions.len()
            invariant
                n <= rs.len(),
                rs.len() <= MAX_ENTRIES,
                regions@ == rs,
                allocator.shape_ok(),
                allocator.cursor() == (0int, 0int),
                allocator.free_frames().len() == 0,
                allocator.in_use_spec() == 0,
                allocator.total_spec() == 0,
                allocator.skips@.len() == 0,
                allocator.reserved_ranges() == seq![
                    (0int, 1int),
                    (7int, 8int),
                    (floor_index(kernel_start as u64) as int, ceil_index(kernel_end as u64) as int),
                    (0xa0int, 0x100int),
                ],
                pairs_of(allocator.regions@) == usable_ranges(rs.take(n as int)),
                allocator.regions@.len() <= n,
            ensures
                n == rs.len(),
            decreases rs.len() - n,
        {
            proof {
                assert(rs.take(n + 1).drop_last() =~= rs.take(n as int));
                assert(rs.take(n + 1).last() == rs[n as int]);
            }
            let region = &regions[n];
            if !region.is_usable() {
                n += 1;
                continue;
            }
            if allocator.regions.len() == MAX_REGIONS {
                break;
            }
            let range = FrameRange::inside(region.base, region.end());
            let t = trim_against(&allocator.regions, range);
            if t.is_empty() {
                n += 1;
                continue;
            }
            let ghost before = allocator.regions@;
            allocator.regions.push(t);
            proof {
                assert(pairs_of(allocator.regions@) =~= pairs_of(before).push(
                    (t.start as int, t.end as int),
                ));
                assert forall|r1: int, r2: int|
                    0 <= r1 < r2 < allocator.regions@.len() implies allocator.regions@[r1].end
                    <= allocator.regions@[r2].start || allocator.regions@[r2].end
                    <= allocator.regions@[r1].start by {
                    if r2 == before.len() {
                        assert(before[r1].end <= t.start || t.end <= before[r1].start);
                    } else {
                        assert(disjoint_in(before));
                        assert(before[r1] == allocator.regions@[r1]);
                        assert(before[r2] == allocator.regions@[r2]);
                    }
                }
            }
            n += 1;
        }
        proof {
            assert(rs.take(rs.len() as int) =~= rs);
            let us = usable_ranges(map.regions_spec());
            assert forall|r: int| 0 <= r < allocator.regions@.len() implies allocator.regions@[r].start
                == us[r].0 && allocator.regions@[r].end == us[r].1 by {
                assert(pairs_of(allocator.regions@)[r] == us[r]);
            }
        }
        if allocator.regions.len() > 0 {
            allocator.cursor_frame = allocator.regions[0].start;
        }
        proof {
            allocator.lemma_unreserved_total_bound(allocator.regions@.len() as int);
        }
        let count = allocator.count_allocatable();
        allocator.total = count;
        allocator
    }

    // ---- queries ----------------------------------------------------------
    /// Whether any reservation covers this frame.
    fn is_reserved(&self, index: u32) -> (b: bool)
        ensures
            b == self.reserved(index as int),
    {
        let mut k: usize = 0;
        while k < self.reservations.len()
            invariant
                k <= self.reservations@.len(),
                forall|j: int| 0 <= j < k ==> !(#[trigger] self.reservations@[j]).range.has(index as int),
            decreases self.reservations@.len() - k,
        {
            if self.reservations[k].range.contains(index) {
                assert(self.reservations@[k as int].range.has(index as int));
                return true;
            }
            k += 1;
        }
        false
    }

    /// Which region holds this frame, if any.
    fn region_of(&self, index: u32) -> (r: Option<usize>)
        ensures
            match r {
                Some(k) => self.region_index(index as int) == Some(k as int),
                None => self.region_index(index as int) is None,
            },
    {
        let mut k: usize = 0;
        while k < self.regions.len()
            invariant
                k <= self.regions@.len(),
                region_index_upto(self.regions@, index as int, k as int) is None,
            decreases self.regions@.len() - k,
        {
            if self.regions[k].contains(index) {
                proof {
                    self.lemma_region_index_upto(index as int, self.regions@.len() as int);
                    self.lemma_region_index_upto(index as int, k + 1);
                    self.lemma_first_stays(index as int, k + 1, self.regions@.len() as int);
                }
                return Some(k);
            }
            k += 1;
        }
        None
    }

    proof fn lemma_first_stays(self, i: int, n: int, m: int)
        requires
            0 <= n <= m <= self.regions@.len(),
            region_index_upto(self.regions@, i, n) is Some,
        ensures
            region_index_upto(self.regions@, i, m) == region_index_upto(self.regions@, i, n),
        decreases m - n,
    {
        if m > n {
            self.lemma_first_stays(i, n, m - 1);
        }
    }

    /// Number of unreserved frames in `lo..hi`.
    pub closed spec fn unreserved_between(self, lo: int, hi: int) -> int {
        unreserved_between_in(self.reservations@, lo, hi)
    }

    /// Number of unreserved frames over the first `n` regions, a frame lying
    /// in two regions counted twice.
    pub closed spec fn unreserved_total(self, n: int) -> int {
        unreserved_total_in(self.regions@, self.reservations@, n)
    }

    proof fn lemma_unreserved_between_bound(self, lo: int, hi: int)
        requires
            lo <= hi,
        ensures
            0 <= self.unreserved_between(lo, hi) <= hi - lo,
    {
        lemma_unreserved_between_bound(self.reservations@, lo, hi);
    }

    proof fn lemma_unreserved_total_bound(self, n: int)
        requires
            0 <= n <= self.regions@.len(),
            forall|r: int|
                0 <= r < self.regions@.len() ==> #[trigger] self.regions@[r].start
                    < self.regions@[r].end <= MAX_FRAME_INDEX,
        ensures
            0 <= self.unreserved_total(n) <= n * MAX_FRAME_INDEX,
        decreases n,
    {
        if n > 0 {
            self.lemma_unreserved_total_bound(n - 1);
            assert(self.unreserved_total(n) == self.unreserved_total(n - 1) + self.unreserved_between(
                self.regions@[n - 1].start as int,
                self.regions@[n - 1].end as int,
            ));
            let rg = self.regions@[n - 1];
            assert(rg.start < rg.end <= MAX_FRAME_INDEX);
            self.lemma_unreserved_between_bound(rg.start as int, rg.end as int);
        }
    }

    /// Counts the frames the pool holds: every unreserved frame of every
    /// region.
    fn count_allocatable(&self) -> (count: usize)
        requires
            self.wf(),
        ensures
            count == self.unreserved_total(self.region_count()),
    {
        let mut count: usize = 0;
        let mut r: usize = 0;
        while r < self.regions.len()
            invariant
                self.wf(),
                r <= self.regions@.len(),
                count == self.unreserved_total(r as int),
            decreases self.regions@.len() - r,
        {
            let region = self.regions[r];
            let mut index = region.start;
            proof {
                self.lemma_unreserved_total_bound(r as int);
                assert(region.start < region.end <= MAX_FRAME_INDEX);
            }
            while index < region.end
                invariant
                    self.wf(),
                    r < self.regions@.len(),
                    region == self.regions@[r as int],
                    region.start <= index <= region.end,
                    region.end <= MAX_FRAME_INDEX,
                    count == self.unreserved_total(r as int) + self.unreserved_between(
                        region.start as int,
                        index as int,
                    ),
                    self.unreserved_total(r as int) <= r * MAX_FRAME_INDEX,
                    r < MAX_REGIONS,
                decreases region.end - index,
            {
                proof {
                    self.lemma_unreserved_between_bound(region.start as int, index as int);
                }
                if !self.is_reserved(index) {
                    count += 1;
                }
                index += 1;
            }
            r += 1;
        }
        count
    }

    /// Whether the bump cursor has already passed this frame without
    /// skipping it, i.e. whether it could ever have been given to anyone.
    fn handed_out_exec(&self, index: u32) -> (b: bool)
        ensures
            b == (self.passed(index as int) && !self.skipped(index as int)),
    {
        let passed = match self.region_of(index) {
            Some(region) => {
                if region < self.cursor_region {
                    true
                } else if region == self.cursor_region {
                    index < self.cursor_frame
                } else {
                    false
                }
            },
            None => false,
        };
        if !passed {
            return false;
        }
        let mut k: usize = 0;
        while k < self.skips.len()
            invariant
                k <= self.skips@.len(),
                forall|j: int| 0 <= j < k ==> !(#[trigger] self.skips@[j]).has(index as int),
            decreases self.skips@.len() - k,
        {
            if self.skips[k].contains(index) {
                assert(self.skips@[k as int].has(index as int));
                return false;
            }
            k += 1;
        }
        true
    }

    /// Whether `index` is on the free list.
    fn on_free_list(&self, index: u32) -> (b: bool)
        ensures
            b == self.on_list(index as int),
    {
        let mut k: usize = 0;
        while k < self.free_list.len()
            invariant
                k <= self.free_list@.len(),
                forall|j: int| 0 <= j < k ==> self.free_list@[j] != index,
            decreases self.free_list@.len() - k,
        {
            if self.free_list[k] == index {
                return true;
            }
            k += 1;
        }
        false
    }
}

impl FrameAllocator {
    /// What [`FrameAllocator::free`] answers for frame `i`.
    pub open spec fn free_outcome(self, i: int) -> Result<(), FreeError> {
        if !self.managed(i) {
            Err(FreeError::NotManaged)
        } else if !self.handed_out(i) {
            Err(FreeError::NeverAllocated)
        } else if self.on_list(i) {
            Err(FreeError::AlreadyFree)
        } else {
            Ok(())
        }
    }

    /// Cursor `a` is at or before cursor `b`.
    pub open spec fn cursor_le(a: (int, int), b: (int, int)) -> bool {
        a.0 < b.0 || (a.0 == b.0 && a.1 <= b.1)
    }

    proof fn lemma_managed_bounded(self, i: int)
        requires
            self.shape_ok(),
            self.managed(i),
        ensures
            0 <= i < MAX_FRAME_INDEX,
    {
        self.lemma_region_index(i);
        let r = self.region_index(i)->0;
        assert(self.regions@[r].start < self.regions@[r].end <= MAX_FRAME_INDEX);
    }


    fn pop_free(&mut self) -> (r: Option<Frame>)
        requires
            old(self).wf(),
        ensures
            final(self).wf(),
            final(self).same_pool(*old(self)),
            final(self).cursor() == old(self).cursor(),
            final(self).skips@ == old(self).skips@,
            final(self).in_use == old(self).in_use,
            match r {
                None => old(self).free_list@.len() == 0 && final(self).free_list@
                    == old(self).free_list@,
                Some(f) => old(self).free_list@.len() > 0 && f@ == old(self).free_list@.last()
                    && final(self).free_list@ == old(self).free_list@.drop_last(),
            },
    {
        if self.free_list.len() == 0 {
            return None;
        }
        let index = self.free_list.pop().unwrap();
        proof {
            assert(old(self).free_list@[old(self).free_list@.len() - 1] == index);
            old(self).lemma_managed_bounded(index as int);
            assert(self.free_list@ =~= old(self).free_list@.drop_last());
            assert forall|k: int| 0 <= k < self.free_list@.len() implies self.managed(
                #[trigger] self.free_list@[k] as int,
            ) && self.handed_out(self.free_list@[k] as int) by {
                assert(self.free_list@[k] == old(self).free_list@[k]);
            }
        }
        Some(Frame::from_index(index))
    }

    /// Takes one frame out of the pool: the most recently freed one if there
    /// is any, else the next unreserved frame the bump cursor reaches. `None`
    /// means the pool is exhausted.
    pub fn allocate(&mut self) -> (r: Option<Frame>)
        requires
            old(self).wf(),
        ensures
            final(self).wf(),
            final(self).same_pool(*old(self)),
            FrameAllocator::allocation(*old(self), *final(self), r),
    {
        if let Some(frame) = self.pop_free() {
            self.in_use += 1;
            proof {
                assert(self.in_use + self.free_list@.len() <= self.cursor_region * MAX_FRAME_INDEX
                    + self.cursor_frame + MAX_FRAME_INDEX);
                assert(self.shape_ok());
                assert(self.free_list@.no_duplicates());
                assert(self.total <= MAX_REGIONS * MAX_FRAME_INDEX);
                FrameAllocator::lemma_same_history(*old(self), *self);
            }
            return Some(frame);
        }
        let ghost start_cursor = self.cursor();
        while self.cursor_region < self.regions.len()
            invariant
                self.wf(),
                self.same_pool(*old(self)),
                self.free_list@ == old(self).free_list@,
                self.free_list@.len() == 0,
                self.skips@ == old(self).skips@,
                self.in_use == old(self).in_use,
                FrameAllocator::cursor_le(old(self).cursor(), self.cursor()),
                forall|r: int, i: int|
                    self.in_region(r, i) && old(self).at_or_after_cursor(r, i)
                        && !self.at_or_after_cursor(r, i) ==> self.reserved(i),
                forall|i: int| self.handed_out(i) == old(self).handed_out(i),
            decreases self.regions@.len() - self.cursor_region, MAX_FRAME_INDEX
                - self.cursor_frame,
        {
            let region = self.regions[self.cursor_region];
            let ghost head = *self;
            if self.cursor_frame >= region.end {
                self.cursor_region += 1;
                if self.cursor_region < self.regions.len() {
                    self.cursor_frame = self.regions[self.cursor_region].start;
                }
                proof {
                    FrameAllocator::lemma_advance(head, *self, 0, 0, 0, 0, 0, 0);
                }
                continue;
            }
            let index = self.cursor_frame;
            self.cursor_frame += 1;
            if self.is_reserved(index) {
                proof {
                    FrameAllocator::lemma_advance(head, *self, 0, 0, 0, 0, 0, 0);
                }
                continue;
            }
            self.in_use += 1;
            let f = Frame::from_index(index);
            proof {
                assert(head.in_region(head.cursor_region as int, index as int));
                assert(old(self).next_bump(head.cursor_region as int, index as int));
                FrameAllocator::lemma_advance(
                    head,
                    *self,
                    0,
                    0,
                    0,
                    head.cursor_region as int,
                    index as int,
                    index + 1,
                );
                assert(self.cursor() == (head.cursor_region as int, f@ + 1));
                assert(self.free_frames() == old(self).free_frames());
                assert(self.in_use_spec() == old(self).in_use_spec() + 1);
            }
            return Some(f);
        }
        None
    }

    /// Takes `count` contiguous frames from the bump cursor, never from the
    /// free list. Returns the first frame of the run, or `None` if no such
    /// run is left (or `count` is zero).
    pub fn allocate_contiguous(&mut self, count: usize) -> (r: Option<Frame>)
        requires
            old(self).wf(),
            count <= u32::MAX,
        ensures
            final(self).wf(),
            FrameAllocator::run_allocation(*old(self), *final(self), count as int, r),
    {
        if count == 0 {
            return None;
        }
        let count_u32 = count as u32;
        while self.cursor_region < self.regions.len()
            invariant
                self.wf(),
                self.same_pool(*old(self)),
                self.free_list@ == old(self).free_list@,
                self.in_use == old(self).in_use,
                count_u32 == count,
                count > 0,
                FrameAllocator::cursor_le(old(self).cursor(), self.cursor()),
                forall|r: int, s: int|
                    self.in_region(r, s) && old(self).at_or_after_cursor(r, s)
                        && !self.at_or_after_cursor(r, s) ==> !self.fits(r, s, count as int),
                forall|i: int| self.handed_out(i) == old(self).handed_out(i),
            decreases self.regions@.len() - self.cursor_region, MAX_FRAME_INDEX
                - self.cursor_frame,
        {
            let region = self.regions[self.cursor_region];
            let ghost head = *self;
            if self.cursor_frame >= region.end {
                self.cursor_region += 1;
                if self.cursor_region < self.regions.len() {
                    self.cursor_frame = self.regions[self.cursor_region].start;
                }
                proof {
                    FrameAllocator::lemma_advance(head, *self, 0, 0, 0, 0, 0, 0);
                    assert forall|r: int, s: int|
                        self.in_region(r, s) && old(self).at_or_after_cursor(r, s)
                            && !self.at_or_after_cursor(r, s) implies !self.fits(
                        r,
                        s,
                        count as int,
                    ) by {
                        assert(!head.at_or_after_cursor(r, s));
                    }
                }
                continue;
            }
            if self.is_reserved(self.cursor_frame) {
                self.cursor_frame += 1;
                proof {
                    FrameAllocator::lemma_advance(head, *self, 0, 0, 0, 0, 0, 0);
                    assert forall|r: int, s: int|
                        self.in_region(r, s) && old(self).at_or_after_cursor(r, s)
                            && !self.at_or_after_cursor(r, s) implies !self.fits(
                        r,
                        s,
                        count as int,
                    ) by {
                        if r == head.cursor_region && s == head.cursor_frame {
                            assert(self.reserved(s));
                        } else {
                            assert(!head.at_or_after_cursor(r, s));
                        }
                    }
                }
                continue;
            }
            let start = self.cursor_frame;
            if start.saturating_add(count_u32) > region.end {
                self.skips.push(FrameRange { start, end: region.end });
                self.cursor_region += 1;
                if self.cursor_region < self.regions.len() {
                    self.cursor_frame = self.regions[self.cursor_region].start;
                }
                proof {
                    FrameAllocator::lemma_advance(
                        head,
                        *self,
                        head.cursor_region as int,
                        start as int,
                        region.end as int,
                        0,
                        0,
                        0,
                    );
                    assert forall|r: int, s: int|
                        self.in_region(r, s) && old(self).at_or_after_cursor(r, s)
                            && !self.at_or_after_cursor(r, s) implies !self.fits(
                        r,
                        s,
                        count as int,
                    ) by {
                        if r == head.cursor_region && s >= start {
                            assert(s + count > region.end);
                        } else {
                            assert(!head.at_or_after_cursor(r, s));
                        }
                    }
                }
                continue;
            }
            let mut i = start;
            let mut reserved: Option<u32> = None;
            while i < start + count_u32
                invariant_except_break
                    reserved is None,
                invariant
                    start <= i <= start + count_u32,
                    start + count_u32 <= region.end,
                    forall|j: int| start <= j < i ==> !self.reserved(j),
                ensures
                    match reserved {
                        Some(k) => start <= k < start + count_u32 && self.reserved(k as int),
                        None => forall|j: int| start <= j < start + count_u32 ==> !self.reserved(j),
                    },
                decreases start + count_u32 - i,
            {
                if self.is_reserved(i) {
                    reserved = Some(i);
                    break;
                }
                i += 1;
            }
            if reserved.is_some() {
                let found = reserved.unwrap();
                self.skips.push(FrameRange { start, end: found });
                self.cursor_frame = found + 1;
                proof {
                    FrameAllocator::lemma_advance(
                        head,
                        *self,
                        head.cursor_region as int,
                        start as int,
                        found as int,
                        0,
                        0,
                        0,
                    );
                    assert forall|r: int, s: int|
                        self.in_region(r, s) && old(self).at_or_after_cursor(r, s)
                            && !self.at_or_after_cursor(r, s) implies !self.fits(
                        r,
                        s,
                        count as int,
                    ) by {
                        if r == head.cursor_region && s >= start {
                            assert(s <= found < s + count);
                            assert(self.reserved(found as int));
                        } else {
                            assert(!head.at_or_after_cursor(r, s));
                        }
                    }
                }
                continue;
            }
            proof {
                assert(reserved is None);
                assert(forall|j: int| start <= j < start + count_u32 ==> !self.reserved(j));
                assert(head.cursor_region < head.regions@.len());
                assert(head.regions@[head.cursor_region as int].start <= start);
                assert(start + count <= head.regions@[head.cursor_region as int].end);
                assert forall|j: int| start <= j < start + count implies !reserved_in(
                    old(self).reservations@,
                    j,
                ) by {
                    assert(!self.reserved(j));
                }
                assert(old(self).fits(head.cursor_region as int, start as int, count as int));
                assert(old(self).next_run(head.cursor_region as int, start as int, count as int));
            }
            self.cursor_frame = start + count_u32;
            self.in_use += count;
            proof {
                FrameAllocator::lemma_advance(
                    head,
                    *self,
                    0,
                    0,
                    0,
                    head.cursor_region as int,
                    start as int,
                    start + count,
                );
            }
            return Some(Frame::from_index(start));
        }
        proof {
            assert forall|r: int, s: int|
                old(self).in_region(r, s) && old(self).at_or_after_cursor(r, s) implies !old(
                self).fits(r, s, count as int) by {
                assert(self.in_region(r, s));
                assert(!self.at_or_after_cursor(r, s));
            }
        }
        None
    }

    /// Puts a frame back. Refused, with the reason, when the frame is not in
    /// the pool, was never handed out, or is already free.
    pub fn free(&mut self, frame: Frame) -> (r: Result<(), FreeError>)
        requires
            old(self).wf(),
        ensures
            final(self).wf(),
            FrameAllocator::freeing(*old(self), *final(self), frame@, r),
    {
        let index = frame.index();
        if self.region_of(index).is_none() || self.is_reserved(index) {
            return Err(FreeError::NotManaged);
        }
        if !self.handed_out_exec(index) {
            return Err(FreeError::NeverAllocated);
        }
        if self.on_free_list(index) {
            return Err(FreeError::AlreadyFree);
        }
        self.free_list.push(index);
        self.in_use = self.in_use.saturating_sub(1);
        proof {
            FrameAllocator::lemma_same_history(*old(self), *self);
            assert forall|k: int| 0 <= k < self.free_list@.len() implies self.managed(
                #[trigger] self.free_list@[k] as int,
            ) && self.handed_out(self.free_list@[k] as int) by {
                if k < old(self).free_list@.len() {
                    assert(self.free_list@[k] == old(self).free_list@[k]);
                }
            }
            assert forall|i: int, j: int|
                0 <= i < self.free_list@.len() && 0 <= j < self.free_list@.len() && i
                    != j implies self.free_list@[i] != self.free_list@[j] by {
                if i < old(self).free_list@.len() && j < old(self).free_list@.len() {
                    assert(old(self).free_list@.no_duplicates());
                } else if i < old(self).free_list@.len() {
                    assert(self.free_list@[j] == index);
                    assert(self.free_list@[i] == old(self).free_list@[i]);
                } else {
                    assert(self.free_list@[i] == index);
                    assert(self.free_list@[j] == old(self).free_list@[j]);
                }
            }
            assert forall|k: int| 0 <= k < self.free_list@.len() implies self.free_list@[k]
                < MAX_FRAME_INDEX by {
                self.lemma_managed_bounded(self.free_list@[k] as int);
            }
            lemma_distinct_below(self.free_list@, MAX_FRAME_INDEX as int);
        }
        Ok(())
    }

    /// With disjoint regions, whether the cursor has passed frame `i` of
    /// region `r` is where it stands against the cursor.
    proof fn lemma_passed_at(self, r: int, i: int)
        requires
            self.disjoint(),
            self.in_region(r, i),
        ensures
            self.passed(i) == (r < self.cursor_region || (r == self.cursor_region && i
                < self.cursor_frame)),
            self.managed(i) == !self.reserved(i),
    {
        self.lemma_region_unique(r, i);
    }

    proof fn lemma_listed_handed_out(self, i: int)
        requires
            self.wf(),
            self.on_list(i),
        ensures
            self.managed(i),
            self.handed_out(i),
    {
        let k = choose|k: int| 0 <= k < self.free_list@.len() && self.free_list@[k] == i;
        assert(self.managed(self.free_list@[k] as int));
    }

    /// Two states with the same free list agree on which frames are on it.
    proof fn lemma_same_list(a: FrameAllocator, b: FrameAllocator)
        requires
            a.free_list@ == b.free_list@,
        ensures
            forall|i: int| a.on_list(i) == b.on_list(i),
    {
        assert forall|i: int| a.on_list(i) == b.on_list(i) by {
            if a.on_list(i) {
                let k = choose|k: int| 0 <= k < a.free_list@.len() && a.free_list@[k] == i;
                assert(b.free_list@[k] == i);
            }
            if b.on_list(i) {
                let k = choose|k: int| 0 <= k < b.free_list@.len() && b.free_list@[k] == i;
                assert(a.free_list@[k] == i);
            }
        }
    }

    /// An allocation hands out a frame of the pool that nobody held, and
    /// changes no other frame's ownership: no frame goes to two owners.
    pub proof fn lemma_allocate_fresh(pre: FrameAllocator, post: FrameAllocator, r: Option<Frame>)
        requires
            pre.wf(),
            FrameAllocator::allocation(pre, post, r),
        ensures
            r is Some ==> pre.managed(r->0@) && !pre.live(r->0@) && post.live(r->0@),
            forall|j: int| (r is None || j != r->0@) ==> post.live(j) == pre.live(j),
    {
        pre.lemma_wf_disjoint();
        assert forall|j: int| post.managed(j) == pre.managed(j) by {}
        if pre.free_list@.len() > 0 {
            let f = r->0@;
            let n = pre.free_list@.len();
            assert(pre.free_list@[n - 1] == f);
            assert(pre.on_list(f));
            pre.lemma_listed_handed_out(f);
            assert(!post.on_list(f)) by {
                if post.on_list(f) {
                    let k = choose|k: int| 0 <= k < post.free_list@.len() && post.free_list@[k] == f;
                    assert(pre.free_list@[k] == pre.free_list@[n - 1]);
                }
            }
            assert forall|j: int| j != f implies post.live(j) == pre.live(j) by {
                if pre.on_list(j) {
                    let k = choose|k: int| 0 <= k < pre.free_list@.len() && pre.free_list@[k] == j;
                    assert(k != n - 1);
                    assert(post.free_list@[k] == j);
                }
                if post.on_list(j) {
                    let k = choose|k: int| 0 <= k < post.free_list@.len() && post.free_list@[k] == j;
                    assert(pre.free_list@[k] == j);
                }
            }
        } else {
            FrameAllocator::lemma_same_list(pre, post);
            if r is Some {
                let f = r->0@;
                let rr = post.cursor_region as int;
                assert(pre.next_bump(rr, f));
                pre.lemma_passed_at(rr, f);
                assert(!pre.handed_out(f));
                assert(post.handed_out(f));
                assert(!post.on_list(f));
            }
        }
    }

    /// A free succeeds exactly on a frame somebody holds; it releases that
    /// frame and no other.
    pub proof fn lemma_free_releases(
        pre: FrameAllocator,
        post: FrameAllocator,
        f: int,
        r: Result<(), FreeError>,
    )
        requires
            pre.wf(),
            FrameAllocator::freeing(pre, post, f, r),
        ensures
            (r is Ok) == pre.live(f),
            !post.live(f),
            forall|j: int| j != f ==> post.live(j) == pre.live(j),
    {
        assert forall|j: int| post.managed(j) == pre.managed(j) by {}
        if r is Ok {
            let n = pre.free_list@.len();
            assert(post.free_list@[n as int] == f as u32);
            assert(0 <= f < MAX_FRAME_INDEX) by {
                pre.lemma_managed_bounded(f);
            }
            assert(post.on_list(f));
            assert forall|j: int| j != f implies post.live(j) == pre.live(j) by {
                if pre.on_list(j) {
                    let k = choose|k: int| 0 <= k < pre.free_list@.len() && pre.free_list@[k] == j;
                    assert(post.free_list@[k] == j);
                }
                if post.on_list(j) {
                    let k = choose|k: int| 0 <= k < post.free_list@.len() && post.free_list@[k] == j;
                    assert(k < n);
                    assert(pre.free_list@[k] == j);
                }
            }
        } else {
            FrameAllocator::lemma_same_list(pre, post);
        }
    }

    /// Every allocator is over its own pool.
    pub proof fn lemma_same_pool_reflexive(a: FrameAllocator)
        ensures
            a.same_pool(a),
    {
    }

    /// Two allocators over the same pool agree on which frames they manage
    /// and on whether their regions overlap; being over the same pool is
    /// symmetric and transitive.
    pub proof fn lemma_same_pool(a: FrameAllocator, b: FrameAllocator, c: FrameAllocator)
        requires
            a.same_pool(b),
        ensures
            a.disjoint() == b.disjoint(),
            forall|i: int| a.managed(i) == b.managed(i),
            b.same_pool(a),
            b.same_pool(c) ==> a.same_pool(c),
    {
    }

    /// The free list is last in, first out: right after a frame is given
    /// back, the next allocation hands out that same frame, and the pool is
    /// back where it was before the free.
    pub proof fn lemma_reuse_last_freed(
        pre: FrameAllocator,
        mid: FrameAllocator,
        post: FrameAllocator,
        f: int,
        r: Option<Frame>,
    )
        requires
            pre.wf(),
            FrameAllocator::freeing(pre, mid, f, Ok(())),
            FrameAllocator::allocation(mid, post, r),
        ensures
            r is Some,
            r->0@ == f,
            post.free_frames() == pre.free_frames(),
            post.cursor() == pre.cursor(),
    {
        FrameAllocator::lemma_free_releases(pre, mid, f, Ok(()));
        pre.lemma_managed_bounded(f);
        assert(mid.free_frames().len() > 0);
        assert(mid.free_frames().drop_last() =~= pre.free_frames());
    }

    /// Frames given back come out again newest first: after `a` and then
    /// `b` are freed, the next two allocations hand out `b` and then `a`,
    /// and the free list is back where it was.
    pub proof fn lemma_free_list_stack(
        s0: FrameAllocator,
        s1: FrameAllocator,
        s2: FrameAllocator,
        s3: FrameAllocator,
        s4: FrameAllocator,
        a: int,
        b: int,
        r1: Option<Frame>,
        r2: Option<Frame>,
    )
        requires
            s0.wf(),
            FrameAllocator::freeing(s0, s1, a, Ok(())),
            FrameAllocator::freeing(s1, s2, b, Ok(())),
            FrameAllocator::allocation(s2, s3, r1),
            FrameAllocator::allocation(s3, s4, r2),
        ensures
            r1 is Some && r1->0@ == b,
            r2 is Some && r2->0@ == a,
            s4.free_frames() == s0.free_frames(),
            s4.cursor() == s0.cursor(),
    {
        assert(s2.free_frames().drop_last() =~= s1.free_frames());
        assert(s1.free_frames().drop_last() =~= s0.free_frames());
        assert(s1.free_frames().len() > 0);
        s0.lemma_managed_bounded(a);
        assert(s1.shape_ok());
        s1.lemma_managed_bounded(b);
    }

    /// A second free of a frame that was just given back is refused as
    /// already free, and changes nothing.
    pub proof fn lemma_double_free_refused(
        pre: FrameAllocator,
        mid: FrameAllocator,
        post: FrameAllocator,
        f: int,
        r: Result<(), FreeError>,
    )
        requires
            pre.wf(),
            FrameAllocator::freeing(pre, mid, f, Ok(())),
            FrameAllocator::freeing(mid, post, f, r),
        ensures
            r == Err::<(), FreeError>(FreeError::AlreadyFree),
            post.free_frames() == mid.free_frames(),
            post.in_use_spec() == mid.in_use_spec(),
            post.cursor() == mid.cursor(),
            forall|j: int| post.live(j) == mid.live(j),
    {
        let n = pre.free_list@.len();
        assert(mid.free_list@[n as int] == f as u32);
        pre.lemma_managed_bounded(f);
        assert(mid.on_list(f));
        assert(mid.managed(f) == pre.managed(f));
        FrameAllocator::lemma_same_list(mid, post);
        assert forall|j: int| post.managed(j) == mid.managed(j) by {}
    }

    /// A contiguous allocation hands out `count` frames of the pool that
    /// nobody held, and changes the ownership of no other frame.
    pub proof fn lemma_run_fresh(
        pre: FrameAllocator,
        post: FrameAllocator,
        count: int,
        r: Option<Frame>,
    )
        requires
            pre.wf(),
            0 <= count,
            FrameAllocator::run_allocation(pre, post, count, r),
        ensures
            r is Some ==> forall|i: int|
                r->0@ <= i < r->0@ + count ==> pre.managed(i) && !pre.live(i) && post.live(i),
            forall|j: int|
                (r is None || !(r->0@ <= j < r->0@ + count)) ==> post.live(j) == pre.live(j),
    {
        pre.lemma_wf_disjoint();
        FrameAllocator::lemma_same_list(pre, post);
        assert forall|j: int| post.managed(j) == pre.managed(j) by {}
        if count > 0 && r is Some {
            let s = r->0@;
            let rr = post.cursor_region as int;
            assert(pre.next_run(rr, s, count));
            assert forall|i: int| s <= i < s + count implies pre.managed(i) && !pre.live(i)
                && post.live(i) by {
                assert(pre.in_region(rr, i));
                assert(!pre.reserved(i));
                pre.lemma_passed_at(rr, i);
                assert(!pre.handed_out(i));
                if pre.on_list(i) {
                    pre.lemma_listed_handed_out(i);
                }
            }
        }
    }

    /// A single-frame allocation fails exactly when nothing is obtainable,
    /// and otherwise leaves one frame fewer to obtain.
    pub proof fn lemma_allocate_obtainable(pre: FrameAllocator, post: FrameAllocator, r: Option<Frame>)
        requires
            pre.wf(),
            FrameAllocator::allocation(pre, post, r),
        ensures
            pre.obtainable() >= 0,
            post.obtainable() >= 0,
            (r is None) == (pre.obtainable() == 0),
            r is Some ==> post.obtainable() == pre.obtainable() - 1,
    {
        pre.lemma_wf_disjoint();
        pre.lemma_ahead_finite();
        assert(post.shape_ok());
        post.lemma_ahead_finite();
        if pre.free_list@.len() > 0 {
            assert(post.ahead() =~= pre.ahead());
        } else if r is Some {
            let f = r->0@;
            let rr = post.cursor_region as int;
            assert(pre.next_bump(rr, f));
            pre.lemma_passed_at(rr, f);
            assert(pre.ahead().contains(f));
            assert forall|i: int| post.ahead().contains(i) == pre.ahead().remove(f).contains(i) by {
                pre.lemma_region_index(i);
                match pre.region_index(i) {
                    Some(ri) => {
                        pre.lemma_passed_at(ri, i);
                        post.lemma_passed_at(ri, i);
                        if pre.ahead().contains(i) && i != f && !post.ahead().contains(i) {
                            assert(pre.at_or_after_cursor(ri, i));
                            assert(ri < rr || (ri == rr && i < f));
                            assert(pre.reserved(i));
                        }
                    },
                    None => {},
                }
            }
            assert(post.ahead() =~= pre.ahead().remove(f));
        } else {
            assert forall|i: int| !pre.ahead().contains(i) by {
                pre.lemma_region_index(i);
                match pre.region_index(i) {
                    Some(ri) => {
                        pre.lemma_passed_at(ri, i);
                        if !pre.passed(i) {
                            assert(pre.at_or_after_cursor(ri, i));
                        }
                    },
                    None => {},
                }
            }
            assert(pre.ahead() =~= Set::<int>::empty());
        }
    }

    /// The frames ahead of the cursor are finitely many.
    proof fn lemma_ahead_finite(self)
        requires
            self.shape_ok(),
        ensures
            self.ahead().finite(),
    {
        assert forall|i: int| self.ahead().contains(i) implies vstd::set_lib::set_int_range(
            0,
            MAX_FRAME_INDEX as int,
        ).contains(i) by {
            self.lemma_managed_bounded(i);
        }
        vstd::set_lib::lemma_int_range(0, MAX_FRAME_INDEX as int);
        vstd::set_lib::lemma_len_subset(
            self.ahead(),
            vstd::set_lib::set_int_range(0, MAX_FRAME_INDEX as int),
        );
    }

    /// What the pool currently looks like.
    pub fn report(&self) -> (rep: Report)
        requires
            self.wf(),
        ensures
            rep.total == self.total_spec(),
            rep.total <= MAX_REGIONS * MAX_FRAME_INDEX,
            rep.in_use == self.in_use_spec(),
            rep.regions == self.region_count(),
            rep.reservations_spec() == self.reservation_list(),
    {
        let mut reservations: Vec<Reservation> = Vec::new();
        let mut k: usize = 0;
        while k < self.reservations.len()
            invariant
                k <= self.reservations@.len(),
                reservations@ == self.reservations@.take(k as int),
            decreases self.reservations@.len() - k,
        {
            reservations.push(self.reservations[k]);
            k += 1;
            proof {
                assert(reservations@ =~= self.reservations@.take(k as int));
            }
        }
        proof {
            assert(self.reservations@.take(k as int) =~= self.reservations@);
        }
        Report { total: self.total, in_use: self.in_use, regions: self.regions.len(), reservations }
    }
}

/// What the allocator is made of and how much of it is spoken for.
pub struct Report {
    /// Frames in the pool.
    pub total: usize,
    /// Frames currently handed out.
    pub in_use: usize,
    /// Usable regions the pool spans.
    pub regions: usize,
    /// The ranges excluded from the pool, in the order they were reserved.
    pub reservations: Vec<Reservation>,
}

impl Report {
    pub open spec fn reservations_spec(self) -> Seq<Reservation> {
        self.reservations@
    }

    /// Total size of the pool in bytes.
    pub fn total_bytes(&self) -> (b: u64)
        requires
            self.total * FRAME_SIZE <= u64::MAX,
        ensures
            b == self.total * FRAME_SIZE,
    {
        self.total as u64 * FRAME_SIZE as u64
    }

    /// The ranges excluded from the pool, in the order they were reserved.
    pub fn reservations(&self) -> (r: &[Reservation])
        ensures
            r@ == self.reservations_spec(),
    {
        self.reservations.as_slice()
    }
}

/// The first of the first `n` regions holding frame `i`.
spec fn region_index_upto(regions: Seq<FrameRange>, i: int, n: int) -> Option<int>
    decreases n,
{
    if n <= 0 {
        None
    } else {
        match region_index_upto(regions, i, n - 1) {
            Some(r) => Some(r),
            None => if regions[n - 1].has(i) {
                Some(n - 1)
            } else {
                None
            },
        }
    }
}

/// No two of the regions share a frame.
spec fn disjoint_in(regions: Seq<FrameRange>) -> bool {
    forall|r1: int, r2: int|
        #![trigger regions[r1], regions[r2]]
        0 <= r1 < r2 < regions.len() ==> regions[r1].end <= regions[r2].start || regions[r2].end
            <= regions[r1].start
}

/// Bounds on the regions and reservations, and no frame in two regions.
spec fn shape_ok_in(regions: Seq<FrameRange>, res: Seq<Reservation>) -> bool {
    &&& disjoint_in(regions)
    &&& regions.len() <= MAX_REGIONS
    &&& res.len() <= MAX_RESERVATIONS
    &&& forall|r: int|
        0 <= r < regions.len() ==> #[trigger] regions[r].start < regions[r].end <= MAX_FRAME_INDEX
    &&& forall|k: int|
        0 <= k < res.len() ==> #[trigger] res[k].range.start <= res[k].range.end <= MAX_FRAME_INDEX
}

/// `count` frames starting at `s` all lie in region `r`, none reserved.
spec fn fits_in(regions: Seq<FrameRange>, res: Seq<Reservation>, r: int, s: int, count: int) -> bool {
    &&& 0 <= r < regions.len()
    &&& regions[r].start <= s
    &&& s + count <= regions[r].end
    &&& forall|i: int| s <= i < s + count ==> !reserved_in(res, i)
}

/// Whether some reservation covers frame `i`.
spec fn reserved_in(res: Seq<Reservation>, i: int) -> bool {
    exists|k: int| 0 <= k < res.len() && (#[trigger] res[k]).range.has(i)
}

/// Number of unreserved frames in `lo..hi`.
spec fn unreserved_between_in(res: Seq<Reservation>, lo: int, hi: int) -> int
    decreases hi - lo,
{
    if hi <= lo {
        0
    } else {
        unreserved_between_in(res, lo, hi - 1) + if reserved_in(res, hi - 1) {
            0int
        } else {
            1int
        }
    }
}

/// Number of unreserved frames over the first `n` regions.
spec fn unreserved_total_in(regions: Seq<FrameRange>, res: Seq<Reservation>, n: int) -> int
    decreases n,
{
    if n <= 0 {
        0
    } else {
        unreserved_total_in(regions, res, n - 1) + unreserved_between_in(
            res,
            regions[n - 1].start as int,
            regions[n - 1].end as int,
        )
    }
}

proof fn lemma_unreserved_between_bound(res: Seq<Reservation>, lo: int, hi: int)
    requires
        lo <= hi,
    ensures
        0 <= unreserved_between_in(res, lo, hi) <= hi - lo,
    decreases hi - lo,
{
    if hi > lo {
        lemma_unreserved_between_bound(res, lo, hi - 1);
    }
}

/// A region's frames `(s, e)` as frame indices.
spec fn pairs_of(regions: Seq<FrameRange>) -> Seq<(int, int)> {
    regions.map_values(|g: FrameRange| (g.start as int, g.end as int))
}

/// What is left of the frames `r` once those of region `p` are cut away: a
/// range starting inside `p` now starts where `p` ends, and one running into
/// `p` from below now stops where `p` starts.
pub open spec fn trim_step(p: (int, int), r: (int, int)) -> (int, int) {
    if p.0 <= r.0 && r.0 < p.1 {
        (p.1, r.1)
    } else if r.0 < p.0 && p.0 < r.1 {
        (r.0, p.0)
    } else {
        r
    }
}

/// The frames `s..e` with those of each of `prev` cut away, in order.
pub open spec fn trim(prev: Seq<(int, int)>, s: int, e: int) -> (int, int)
    decreases prev.len(),
{
    if prev.len() == 0 {
        (s, e)
    } else {
        trim_step(prev.last(), trim(prev.drop_last(), s, e))
    }
}

/// The frame ranges [`FrameAllocator::new`] keeps from `rs`, as
/// `(first, end)` frame indices: for each usable region, the frames lying
/// wholly inside it that no region kept before it already holds, where any
/// are left.
pub open spec fn usable_ranges(rs: Seq<Region>) -> Seq<(int, int)>
    decreases rs.len(),
{
    if rs.len() == 0 {
        Seq::empty()
    } else {
        let prev = usable_ranges(rs.drop_last());
        let g = rs.last();
        let s = ceil_index(g.base) as int;
        let e = floor_index(g.end_spec()) as int;
        let t = trim(prev, s, if e < s { s } else { e });
        if g.usable() && t.0 < t.1 {
            prev.push(t)
        } else {
            prev
        }
    }
}

/// `range` with the frames of every region in `regions` cut away: what is
/// left shares no frame with any of them.
fn trim_against(regions: &Vec<FrameRange>, range: FrameRange) -> (t: FrameRange)
    requires
        range.start <= range.end <= MAX_FRAME_INDEX,
        forall|r: int|
            0 <= r < regions@.len() ==> #[trigger] regions@[r].start < regions@[r].end
                <= MAX_FRAME_INDEX,
    ensures
        (t.start as int, t.end as int) == trim(
            pairs_of(regions@),
            range.start as int,
            range.end as int,
        ),
        range.start <= t.start <= MAX_FRAME_INDEX,
        t.end <= range.end,
        t.start < t.end ==> forall|r: int|
            0 <= r < regions@.len() ==> #[trigger] regions@[r].end <= t.start || t.end
                <= regions@[r].start,
{
    let mut t = range;
    let mut k: usize = 0;
    while k < regions.len()
        invariant
            k <= regions@.len(),
            forall|r: int|
                0 <= r < regions@.len() ==> #[trigger] regions@[r].start < regions@[r].end
                    <= MAX_FRAME_INDEX,
            (t.start as int, t.end as int) == trim(
                pairs_of(regions@).take(k as int),
                range.start as int,
                range.end as int,
            ),
            range.start <= t.start <= MAX_FRAME_INDEX,
            t.end <= range.end,
            t.start < t.end ==> forall|r: int|
                0 <= r < k ==> #[trigger] regions@[r].end <= t.start || t.end <= regions@[r].start,
        decreases regions@.len() - k,
    {
        let p = regions[k];
        proof {
            assert(pairs_of(regions@).take(k + 1).drop_last() =~= pairs_of(regions@).take(k as int));
            assert(pairs_of(regions@).take(k + 1).last() == (p.start as int, p.end as int));
        }
        if p.start <= t.start && t.start < p.end {
            t = FrameRange { start: p.end, end: t.end };
        } else if t.start < p.start && p.start < t.end {
            t = FrameRange { start: t.start, end: p.start };
        }
        k += 1;
    }
    proof {
        assert(pairs_of(regions@).take(regions@.len() as int) =~= pairs_of(regions@));
    }
    t
}

} // verus!

verus! {

/// The outcome of [`self_test`], including the frames it was handed, so the
/// boot output can show the actual frames rather than just a verdict.
pub struct SelfTest {
    frames: Vec<Frame>,
    freed: Vec<Frame>,
    reused: Option<Frame>,
    failure: Option<&'static str>,
}

impl SelfTest {
    pub closed spec fn frames_spec(self) -> Seq<Frame> {
        self.frames@
    }

    pub closed spec fn freed_spec(self) -> Seq<Frame> {
        self.freed@
    }

    pub closed spec fn reused_spec(self) -> Option<Frame> {
        self.reused
    }

    pub closed spec fn failure_spec(self) -> Option<&'static str> {
        self.failure
    }

    fn new() -> (t: SelfTest)
        ensures
            t.frames@.len() == 0,
            t.freed@.len() == 0,
            t.reused is None,
            t.failure is None,
    {
        SelfTest { frames: Vec::new(), freed: Vec::new(), reused: None, failure: None }
    }

    /// Records `reason` unless an earlier failure is already recorded.
    fn fail(&mut self, reason: &'static str)
        ensures
            final(self).frames@ == old(self).frames@,
            final(self).freed@ == old(self).freed@,
            final(self).reused == old(self).reused,
            final(self).failure == if old(self).failure is None {
                Some(reason)
            } else {
                old(self).failure
            },
    {
        if self.failure.is_none() {
            self.failure = Some(reason);
        }
    }

    /// The frames the test was handed, in the order it got them.
    pub fn frames(&self) -> (f: &[Frame])
        ensures
            f@ == self.frames_spec(),
    {
        self.frames.as_slice()
    }

    /// The frames it gave back before asking for one more.
    pub fn freed(&self) -> (f: &[Frame])
        ensures
            f@ == self.freed_spec(),
    {
        self.freed.as_slice()
    }

    /// The frame the allocator handed out again after those frees.
    pub fn reused(&self) -> (f: Option<Frame>)
        ensures
            f == self.reused_spec(),
    {
        self.reused
    }

    /// Why the test failed, or `None` when it passed.
    pub fn failure(&self) -> (f: Option<&'static str>)
        ensures
            f == self.failure_spec(),
    {
        self.failure
    }
}

/// Exercises the allocator: takes [`SELF_TEST_FRAMES`] frames, checks they
/// are real and distinct, gives the last two back, checks the next
/// allocation reuses the most recently freed one, checks a double free is
/// refused, and returns everything.
///
/// It fails exactly when fewer than [`SELF_TEST_FRAMES`] frames can be
/// obtained, and then gives back the frames it did get. Either way every
/// frame it took is back, nobody else's frame changed hands, and the in-use
/// count is where it started.
pub fn self_test(allocator: &mut FrameAllocator) -> (test: SelfTest)
    requires
        old(allocator).wf(),
    ensures
        final(allocator).wf(),
        final(allocator).same_pool(*old(allocator)),
        final(allocator).in_use_spec() == old(allocator).in_use_spec(),
        forall|j: int| final(allocator).live(j) == old(allocator).live(j),
        test.frames_spec().len() <= SELF_TEST_FRAMES,
        forall|m: int|
            0 <= m < test.frames_spec().len() ==> old(allocator).managed(
                #[trigger] test.frames_spec()[m]@,
            ) && !old(allocator).live(test.frames_spec()[m]@),
        forall|m1: int, m2: int|
            0 <= m1 < m2 < test.frames_spec().len() ==> (#[trigger] test.frames_spec()[m1])@
                != (#[trigger] test.frames_spec()[m2])@,
        (test.failure_spec() is None) == (old(allocator).obtainable() >= SELF_TEST_FRAMES),
        test.failure_spec() is Some ==> {
            &&& test.failure_spec() == Some("allocator ran out of frames")
            &&& test.frames_spec().len() == old(allocator).obtainable()
            &&& test.freed_spec().len() == 0
            &&& test.reused_spec() is None
        },
        test.failure_spec() is None ==> {
            let f = test.frames_spec();
            &&& f.len() == SELF_TEST_FRAMES
            &&& test.freed_spec() == seq![f[7], f[6]]
            &&& test.reused_spec() == Some(f[6])
        },
{
    let ghost a0 = *allocator;
    assert(a0 == *old(allocator));
    proof {
        FrameAllocator::lemma_same_pool_reflexive(a0);
    }
    let mut test = SelfTest::new();
    let in_use_before = allocator.report().in_use;
    let mut n: usize = 0;
    while n < SELF_TEST_FRAMES
        invariant
            allocator.wf(),
            a0 == *old(allocator),
            allocator.same_pool(a0),
            a0.wf(),
            n <= SELF_TEST_FRAMES,
            test.frames@.len() == n,
            test.freed@.len() == 0,
            test.reused is None,
            test.failure is None,
            allocator.in_use_spec() == a0.in_use_spec() + n,
            allocator.obtainable() == a0.obtainable() - n,
            in_use_before == a0.in_use_spec(),
            forall|m: int|
                0 <= m < n ==> allocator.live(#[trigger] test.frames@[m]@) && a0.managed(
                    test.frames@[m]@,
                ) && !a0.live(test.frames@[m]@),
            forall|j: int|
                (forall|m: int| 0 <= m < n ==> (#[trigger] test.frames@[m])@ != j)
                    ==> allocator.live(j) == a0.live(j),
            forall|m1: int, m2: int|
                0 <= m1 < m2 < n ==> (#[trigger] test.frames@[m1])@ != (#[trigger] test.frames@[m2])@,
        decreases SELF_TEST_FRAMES - n,
    {
        let ghost pre = *allocator;
        let got = allocator.allocate();
        proof {
            FrameAllocator::lemma_allocate_fresh(pre, *allocator, got);
            FrameAllocator::lemma_allocate_obtainable(pre, *allocator, got);
            FrameAllocator::lemma_same_pool(*allocator, pre, a0);
            FrameAllocator::lemma_same_pool(pre, a0, a0);
        }
        match got {
            Some(frame) => {
                let ghost before = test.frames@;
                test.frames.push(frame);
                n += 1;
                proof {
                    assert forall|j: int|
                        (forall|m: int| 0 <= m < n ==> (#[trigger] test.frames@[m])@ != j)
                            implies allocator.live(j) == a0.live(j) by {
                        assert forall|m: int| 0 <= m < n - 1 implies (#[trigger] before[m])@ != j by {
                            assert(test.frames@[m] == before[m]);
                        }
                        assert(test.frames@[n - 1]@ != j);
                    }
                    assert forall|m: int| 0 <= m < n implies allocator.live(
                        #[trigger] test.frames@[m]@,
                    ) && a0.managed(test.frames@[m]@) && !a0.live(test.frames@[m]@) by {
                        if m < n - 1 {
                            assert(test.frames@[m] == before[m]);
                        } else {
                            assert forall|m2: int| 0 <= m2 < n - 1 implies (#[trigger] before[m2])@
                                != frame@ by {
                                assert(pre.live(before[m2]@));
                            }
                        }
                    }
                }
            },
            None => {
                let mut k: usize = 0;
                while k < n
                    invariant
                        allocator.wf(),
                        a0 == *old(allocator),
                        allocator.same_pool(a0),
                        a0.wf(),
                        k <= n,
                        n < SELF_TEST_FRAMES,
                        test.frames@.len() == n,
                        test.freed@.len() == 0,
                        test.reused is None,
                        test.failure is None,
                        n == a0.obtainable(),
                        allocator.in_use_spec() == a0.in_use_spec() + n - k,
                        forall|m: int| k <= m < n ==> allocator.live(#[trigger] test.frames@[m]@),
                        forall|m: int|
                            0 <= m < n ==> a0.managed(#[trigger] test.frames@[m]@) && !a0.live(
                                test.frames@[m]@,
                            ),
                        forall|j: int|
                            (forall|m: int| k <= m < n ==> (#[trigger] test.frames@[m])@ != j)
                                ==> allocator.live(j) == a0.live(j),
                        forall|m1: int, m2: int|
                            0 <= m1 < m2 < n ==> (#[trigger] test.frames@[m1])@
                                != (#[trigger] test.frames@[m2])@,
                    decreases n - k,
                {
                    let frame = test.frames[k];
                    let ghost pre_free = *allocator;
                    let r = allocator.free(frame);
                    proof {
                        FrameAllocator::lemma_free_releases(pre_free, *allocator, frame@, r);
                        FrameAllocator::lemma_same_pool(*allocator, pre_free, a0);
                        assert(pre_free.live(test.frames@[k as int]@));
                        assert forall|j: int|
                            (forall|m: int| k + 1 <= m < n ==> (#[trigger] test.frames@[m])@ != j)
                                implies allocator.live(j) == a0.live(j) by {
                            if j != frame@ {
                                assert forall|m: int| k <= m < n implies (#[trigger] test.frames@[m])@
                                    != j by {
                                    if m == k {
                                        assert(test.frames@[m] == frame);
                                    }
                                }
                            } else {
                                assert(!a0.live(test.frames@[k as int]@));
                            }
                        }
                        assert forall|m: int| k + 1 <= m < n implies allocator.live(
                            #[trigger] test.frames@[m]@,
                        ) by {
                            assert(pre_free.live(test.frames@[m]@));
                            assert(test.frames@[m]@ != test.frames@[k as int]@);
                        }
                    }
                    k += 1;
                }
                test.fail("allocator ran out of frames");
                proof {
                    assert forall|j: int| allocator.live(j) == a0.live(j) by {
                        assert(forall|m: int| n <= m < n ==> (#[trigger] test.frames@[m])@ != j);
                    }
                }
                return test;
            },
        }
    }
    let frames = test.frames.clone();
    proof {
        assert(frames@ =~= test.frames@);
    }
    let mut position: usize = 0;
    while position < n
        invariant
            allocator.wf(),
            a0 == *old(allocator),
            n == SELF_TEST_FRAMES,
            frames@.len() == n,
            frames@ == test.frames@,
            test.failure is None,
            test.freed@.len() == 0,
            test.reused is None,
            position <= n,
            allocator.same_pool(a0),
            forall|m: int| 0 <= m < n ==> allocator.live(#[trigger] test.frames@[m]@),
            forall|m1: int, m2: int|
                0 <= m1 < m2 < n ==> (#[trigger] test.frames@[m1])@ != (#[trigger] test.frames@[m2])@,
        decreases n - position,
    {
        let frame = frames[position];
        proof {
            assert(allocator.live(test.frames@[position as int]@));
            allocator.lemma_region_index(frame@);
        }
        if allocator.region_of(frame.index()).is_none() {
            test.fail("handed out a frame outside usable RAM");
        }
        if allocator.is_reserved(frame.index()) {
            test.fail("handed out a reserved frame");
        }
        let mut earlier: usize = 0;
        let mut seen = false;
        while earlier < position
            invariant
                earlier <= position < n,
                frames@.len() == n,
                !seen,
                forall|m1: int, m2: int|
                    0 <= m1 < m2 < n ==> (#[trigger] frames@[m1])@ != (#[trigger] frames@[m2])@,
                frame == frames@[position as int],
            decreases position - earlier,
        {
            if frames[earlier] == frame {
                seen = true;
            }
            earlier += 1;
        }
        if seen {
            test.fail("handed out the same frame twice");
        }
        position += 1;
    }
    let ghost a1 = *allocator;
    let mut offset: usize = 1;
    while offset <= 2
        invariant
            allocator.wf(),
            a0 == *old(allocator),
            allocator.same_pool(a0),
            a0.wf(),
            1 <= offset <= 3,
            n == SELF_TEST_FRAMES,
            frames@.len() == n,
            frames@ == test.frames@,
            test.freed@.len() == offset - 1,
            forall|m: int| 0 <= m < offset - 1 ==> test.freed@[m] == frames@[n - 1 - m],
            test.reused is None,
            test.failure is None,
            in_use_before == a0.in_use_spec(),
            allocator.in_use_spec() == a0.in_use_spec() + n - (offset - 1),
            offset == 1 ==> allocator.free_frames() == a1.free_frames(),
            offset == 2 ==> allocator.free_frames() == a1.free_frames().push(frames@[7]@ as u32),
            offset == 3 ==> allocator.free_frames() == a1.free_frames().push(
                frames@[7]@ as u32,
            ).push(frames@[6]@ as u32),
            forall|m: int| 0 <= m < n - (offset - 1) ==> allocator.live(#[trigger] test.frames@[m]@),
            forall|m: int| n - (offset - 1) <= m < n ==> !allocator.live(#[trigger] test.frames@[m]@),
            forall|m: int| 0 <= m < n ==> a0.managed(#[trigger] test.frames@[m]@) && !a0.live(
                test.frames@[m]@,
            ),
            forall|j: int|
                (forall|m: int| 0 <= m < n ==> (#[trigger] test.frames@[m])@ != j) ==> allocator.live(j)
                    == a0.live(j),
            forall|m1: int, m2: int|
                0 <= m1 < m2 < n ==> (#[trigger] test.frames@[m1])@ != (#[trigger] test.frames@[m2])@,
        decreases 3 - offset,
    {
        let frame = frames[n - offset];
        let ghost pre = *allocator;
        let r = allocator.free(frame);
        proof {
            FrameAllocator::lemma_free_releases(pre, *allocator, frame@, r);
            FrameAllocator::lemma_same_pool(*allocator, pre, a0);
            assert(pre.live(test.frames@[n - offset]@));
            assert forall|m: int| 0 <= m < n - offset implies allocator.live(
                #[trigger] test.frames@[m]@,
            ) by {
                assert(pre.live(test.frames@[m]@));
                assert(test.frames@[m]@ != test.frames@[n - offset]@);
            }
            assert forall|m: int| n - offset <= m < n implies !allocator.live(
                #[trigger] test.frames@[m]@,
            ) by {
                if m > n - offset {
                    assert(!pre.live(test.frames@[m]@));
                    assert(test.frames@[m]@ != test.frames@[n - offset]@);
                }
            }
        }
        if r.is_err() {
            test.fail("refused to take back a frame it had handed out");
            return test;
        }
        let ghost t_before = test;
        test.freed.push(frame);
        offset += 1;
        proof {
            assert(test.frames@ == t_before.frames@);
            assert forall|j: int|
                (forall|m: int| 0 <= m < n ==> (#[trigger] test.frames@[m])@ != j) implies allocator.live(j)
                == a0.live(j) by {
                assert(test.frames@[n - (offset - 1)]@ != j);
                assert forall|m: int| 0 <= m < n implies (#[trigger] t_before.frames@[m])@ != j by {
                    assert(t_before.frames@[m] == test.frames@[m]);
                }
                assert(pre.live(j) == a0.live(j));
            }
        }
    }
    let last_freed = test.freed[1];
    let still_free = test.freed[0];
    let ghost pre_reuse = *allocator;
    let got = allocator.allocate();
    proof {
        FrameAllocator::lemma_allocate_fresh(pre_reuse, *allocator, got);
        FrameAllocator::lemma_same_pool(*allocator, pre_reuse, a0);
        assert(pre_reuse.free_frames().len() > 0);
        assert(got is Some);
        assert(got->0@ == frames@[6]@);
        assert(got->0 == frames@[6]);
        assert(last_freed == frames@[6]);
        assert(still_free == frames@[7]);
    }
    match got {
        Some(frame) => {
            test.reused = Some(frame);
            if frame != last_freed {
                test.fail("did not reuse the most recently freed frame");
            }
        },
        None => test.fail("had nothing to allocate after two frames were freed"),
    }
    let ghost pre_double = *allocator;
    let double = allocator.free(still_free);
    proof {
        FrameAllocator::lemma_free_releases(pre_double, *allocator, still_free@, double);
        FrameAllocator::lemma_same_pool(*allocator, pre_double, a0);
        let k = pre_double.free_list@.len() - 1;
        assert(pre_double.free_list@ == a1.free_list@.push(frames@[7]@ as u32));
        assert(pre_double.free_list@[k] == frames@[7]@);
        assert(pre_double.on_list(still_free@));
        pre_double.lemma_listed_handed_out(still_free@);
        assert(double == Err::<(), FreeError>(FreeError::AlreadyFree));
    }
    match double {
        Err(FreeError::AlreadyFree) => {},
        _ => test.fail("accepted a double free"),
    }
    let mut m: usize = 0;
    while m < n
        invariant
            allocator.wf(),
            a0 == *old(allocator),
            allocator.same_pool(a0),
            m <= n,
            n == SELF_TEST_FRAMES,
            frames@.len() == n,
            frames@ == test.frames@,
            test.freed@ == seq![frames@[7], frames@[6]],
            still_free == frames@[7],
            test.failure is None,
            test.reused == Some(frames@[6]),
            in_use_before == a0.in_use_spec(),
            allocator.in_use_spec() == a0.in_use_spec() + (if m <= 7 {
                7 - m
            } else {
                0
            }),
            forall|k: int| m <= k < n && k != 7 ==> allocator.live(#[trigger] frames@[k]@),
            forall|k: int| (0 <= k < m || k == 7) && k < n ==> !allocator.live(#[trigger] frames@[k]@),
            forall|k: int| 0 <= k < n ==> !a0.live(#[trigger] frames@[k]@),
            forall|j: int|
                (forall|k: int| 0 <= k < n ==> (#[trigger] frames@[k])@ != j) ==> allocator.live(j)
                    == a0.live(j),
            forall|m1: int, m2: int|
                0 <= m1 < m2 < n ==> (#[trigger] frames@[m1])@ != (#[trigger] frames@[m2])@,
        decreases n - m,
    {
        let frame = frames[m];
        if frame == still_free {
            m += 1;
            continue;
        }
        let ghost pre = *allocator;
        let r = allocator.free(frame);
        proof {
            FrameAllocator::lemma_free_releases(pre, *allocator, frame@, r);
            FrameAllocator::lemma_same_pool(*allocator, pre, a0);
            assert(m != 7);
            assert(pre.live(frames@[m as int]@));
            assert forall|k: int| m + 1 <= k < n && k != 7 implies allocator.live(
                #[trigger] frames@[k]@,
            ) by {
                assert(pre.live(frames@[k]@));
                assert(frames@[k]@ != frames@[m as int]@);
            }
            assert forall|k: int| (0 <= k < m + 1 || k == 7) && k < n implies !allocator.live(
                #[trigger] frames@[k]@,
            ) by {
                if k != m {
                    assert(!pre.live(frames@[k]@));
                    assert(frames@[k]@ != frames@[m as int]@);
                }
            }
            assert forall|j: int|
                (forall|k: int| 0 <= k < n ==> (#[trigger] frames@[k])@ != j) implies allocator.live(j)
                == a0.live(j) by {
                assert(frames@[m as int]@ != j);
            }
        }
        if r.is_err() {
            test.fail("refused to take back a frame it had handed out");
        }
        m += 1;
    }
    proof {
        assert forall|j: int| allocator.live(j) == a0.live(j) by {
            if exists|k: int| 0 <= k < n && (#[trigger] frames@[k])@ == j {
                let k = choose|k: int| 0 <= k < n && (#[trigger] frames@[k])@ == j;
                assert(!allocator.live(frames@[k]@));
            }
        }
    }
    if allocator.report().in_use != in_use_before {
        test.fail("frames went missing: the in-use count did not return to where it started");
    }
    test
}

} // verus!

verus! {

/// Builds the frame pool from the BIOS memory map and the kernel image's
/// extent into `allocator`, replacing whatever it held, and reports on it.
pub fn init(allocator: &mut FrameAllocator, map: &MemoryMap, kernel_start: u32, kernel_end: u32) -> (rep: Report)
    requires
        kernel_start <= kernel_end,
    ensures
        final(allocator).wf(),
        final(allocator).built_from(*map, kernel_start, kernel_end),
        rep.total == final(allocator).total_spec(),
        rep.total <= MAX_REGIONS * MAX_FRAME_INDEX,
        rep.in_use == 0,
        rep.regions == final(allocator).region_count(),
        rep.reservations_spec() == final(allocator).reservation_list(),
{
    *allocator = FrameAllocator::new(map, kernel_start, kernel_end);
    allocator.report()
}

/// Takes one frame out of the pool. `None` means it is exhausted.
pub fn allocate(allocator: &mut FrameAllocator) -> (r: Option<Frame>)
    requires
        old(allocator).wf(),
    ensures
        final(allocator).wf(),
        FrameAllocator::allocation(*old(allocator), *final(allocator), r),
{
    allocator.allocate()
}

/// Takes `count` contiguous frames out of the pool, from the bump cursor
/// only. Returns the first frame of the run, or `None`.
pub fn allocate_contiguous(allocator: &mut FrameAllocator, count: usize) -> (r: Option<Frame>)
    requires
        old(allocator).wf(),
        count <= u32::MAX,
    ensures
        final(allocator).wf(),
        FrameAllocator::run_allocation(*old(allocator), *final(allocator), count as int, r),
{
    allocator.allocate_contiguous(count)
}

/// Puts a frame back; the errors are the caller's bookkeeping mistakes.
pub fn free(allocator: &mut FrameAllocator, frame: Frame) -> (r: Result<(), FreeError>)
    requires
        old(allocator).wf(),
    ensures
        final(allocator).wf(),
        FrameAllocator::freeing(*old(allocator), *final(allocator), frame@, r),
{
    allocator.free(frame)
}

/// What the pool currently looks like.
pub fn report(allocator: &FrameAllocator) -> (rep: Report)
    requires
        allocator.wf(),
    ensures
        rep.total == allocator.total_spec(),
        rep.total <= MAX_REGIONS * MAX_FRAME_INDEX,
        rep.in_use == allocator.in_use_spec(),
        rep.regions == allocator.region_count(),
        rep.reservations_spec() == allocator.reservation_list(),
{
    allocator.report()
}

} // verus!

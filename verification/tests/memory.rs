use goatos::memory::frame::{self, Frame, FrameAllocator, FreeError, FRAME_SIZE};
use goatos::memory::heap::{self, Heap, HEAP_SIZE};
use goatos::memory::layout::{self, Range};
use goatos::memory::map::{MemoryMap, RegionKind, HANDOFF_LEN, SIGNATURE};
use goatos::memory::paging;

fn put_u32(b: &mut [u8], off: usize, v: u32) {
    b[off..off + 4].copy_from_slice(&v.to_le_bytes());
}

fn put_u64(b: &mut [u8], off: usize, v: u64) {
    b[off..off + 8].copy_from_slice(&v.to_le_bytes());
}

/// A signed handoff block holding `entries` as (base, length, kind, attributes).
fn block(entries: &[(u64, u64, u32, u32)]) -> Vec<u8> {
    let mut b = vec![0u8; HANDOFF_LEN];
    put_u32(&mut b, 0, SIGNATURE);
    put_u32(&mut b, 4, entries.len() as u32);
    for (i, e) in entries.iter().enumerate() {
        let off = 8 + i * 24;
        put_u64(&mut b, off, e.0);
        put_u64(&mut b, off + 8, e.1);
        put_u32(&mut b, off + 16, e.2);
        put_u32(&mut b, off + 20, e.3);
    }
    b
}

fn two_region_map() -> MemoryMap {
    goatos::memory::map::load(&block(&[
        (0, 0x9f000, 1, 1),
        (0x10_0000, 0x1f0_0000, 1, 1),
        (0xfffc_0000, 0x4_0000, 2, 1),
    ]))
}

#[test]
fn map_parses_signed_block() {
    let m = two_region_map();
    assert!(m.available());
    assert!(!m.truncated());
    assert_eq!(m.regions().len(), 3);
    assert_eq!(m.regions()[1].base, 0x10_0000);
    assert_eq!(m.regions()[1].end(), 0x200_0000);
    assert!(m.regions()[1].is_usable());
    assert_eq!(m.regions()[2].kind, RegionKind::Reserved);
    assert_eq!(m.total_usable(), 0x9f000 + 0x1f0_0000);
    assert_eq!(m.highest_address(), 0x1_0000_0000);
}

#[test]
fn map_without_signature_is_empty() {
    let b = vec![0u8; HANDOFF_LEN];
    let m = goatos::memory::map::load(&b);
    assert!(!m.available());
    assert_eq!(m.regions().len(), 0);
    assert_eq!(m.total_usable(), 0);
    assert_eq!(m.highest_address(), 0);
}

#[test]
fn map_drops_empty_and_ignored_entries() {
    let m = goatos::memory::map::load(&block(&[(0x1000, 0, 1, 1), (0x2000, 0x1000, 1, 0), (0x3000, 0x1000, 7, 1)]));
    assert_eq!(m.regions().len(), 1);
    assert_eq!(m.regions()[0].kind, RegionKind::Unknown(7));
    assert!(!m.regions()[0].is_usable());
}

#[test]
fn map_reports_truncation() {
    let mut b = block(&[(0x1000, 0x1000, 1, 1)]);
    put_u32(&mut b, 4, 40);
    let m = goatos::memory::map::load(&b);
    assert!(m.truncated());
    assert_eq!(RegionKind::from_raw(3), RegionKind::AcpiReclaimable);
}

#[test]
fn region_end_saturates() {
    let m = goatos::memory::map::load(&block(&[(u64::MAX - 10, 100, 1, 1)]));
    assert_eq!(m.regions()[0].end(), u64::MAX);
}

fn allocator() -> FrameAllocator {
    let m = two_region_map();
    FrameAllocator::new(&m, 0x10_0000, 0x18_0000)
}

#[test]
fn frame_addresses() {
    let f = Frame::containing_address(0x12345);
    assert_eq!(f.index(), 0x12);
    assert_eq!(f.start_address(), 0x12000);
    assert_eq!(FRAME_SIZE, 4096);
}

#[test]
fn frames_skip_reservations_and_bump_forward() {
    let mut a = allocator();
    let first = a.allocate().unwrap();
    assert_eq!(first.start_address(), 0x1000);
    let rep = a.report();
    assert_eq!(rep.in_use, 1);
    assert_eq!(rep.regions, 2);
    assert!(rep.reservations().len() >= 3);
    assert_eq!(rep.reservations()[0].start_address(), 0);
    assert_eq!(rep.reservations()[0].end_address(), 0x1000);
    assert_eq!(rep.reservations()[0].frames(), 1);
}

#[test]
fn freed_frame_is_reused_first() {
    let mut a = allocator();
    let _f1 = a.allocate().unwrap();
    let f2 = a.allocate().unwrap();
    let f3 = a.allocate().unwrap();
    assert_eq!(a.free(f2), Ok(()));
    assert_eq!(a.free(f3), Ok(()));
    assert_eq!(a.allocate(), Some(f3));
    assert_eq!(a.allocate(), Some(f2));
}

#[test]
fn double_free_is_refused() {
    let mut a = allocator();
    let f = a.allocate().unwrap();
    assert_eq!(a.free(f), Ok(()));
    let in_use = a.report().in_use;
    assert_eq!(a.free(f), Err(FreeError::AlreadyFree));
    assert_eq!(a.report().in_use, in_use);
    assert_eq!(a.allocate(), Some(f));
}

#[test]
fn free_of_unallocated_or_unmanaged_is_refused() {
    let mut a = allocator();
    let _ = a.allocate().unwrap();
    assert_eq!(a.free(Frame::containing_address(0x180_0000)), Err(FreeError::NeverAllocated));
    assert_eq!(a.free(Frame::containing_address(0xfffc_0000)), Err(FreeError::NotManaged));
    assert_eq!(a.free(Frame::containing_address(0x10_0000)), Err(FreeError::NotManaged));
}

#[test]
fn contiguous_run_is_consecutive() {
    let mut a = allocator();
    let start = a.allocate_contiguous(4).unwrap();
    let next = a.allocate_contiguous(4).unwrap();
    assert_eq!(start.index(), 1);
    // frames 5 and 6 are free but 7 is the reserved boot sector page
    assert_eq!(next.index(), 8);
    assert_eq!(a.report().in_use, 8);
    assert_eq!(a.allocate_contiguous(0), None);
    assert_eq!(a.allocate_contiguous(100_000), None);
}

#[test]
fn empty_allocator_has_nothing() {
    let mut a = FrameAllocator::empty();
    assert_eq!(a.allocate(), None);
    assert_eq!(a.report().total, 0);
}

#[test]
fn frame_self_test_passes_and_restores() {
    let mut a = allocator();
    let before = a.report().in_use;
    let t = frame::self_test(&mut a);
    assert_eq!(t.failure(), None);
    assert_eq!(t.frames().len(), frame::SELF_TEST_FRAMES);
    assert_eq!(t.freed(), &[t.frames()[7], t.frames()[6]]);
    assert_eq!(t.reused(), Some(t.frames()[6]));
    assert_eq!(a.report().in_use, before);
}

#[test]
fn frame_module_functions() {
    let m = two_region_map();
    let mut a = FrameAllocator::empty();
    let rep = frame::init(&mut a, &m, 0x10_0000, 0x18_0000);
    assert!(rep.total > 0);
    assert_eq!(rep.total_bytes(), rep.total as u64 * 4096);
    let f = frame::allocate(&mut a).unwrap();
    assert_eq!(frame::free(&mut a, f), Ok(()));
    assert!(frame::allocate_contiguous(&mut a, 2).is_some());
    assert_eq!(frame::report(&a).in_use, 2);
}

fn fresh_heap(words: usize) -> (Heap, Vec<u32>) {
    let mut mem = vec![0u32; words];
    let mut h = Heap::empty();
    h.init(&mut mem, 0x1000);
    (h, mem)
}

#[test]
fn heap_empty_refuses_everything() {
    let mut h = Heap::empty();
    let mut mem: Vec<u32> = Vec::new();
    assert!(!h.is_ready());
    assert_eq!(h.allocate(&mut mem, 16, 8), 0);
}

#[test]
fn heap_first_fit_and_split() {
    let (mut h, mut mem) = fresh_heap(1024);
    assert!(h.is_ready());
    let a = h.allocate(&mut mem, 16, 8);
    assert_eq!(a, 0x1008);
    assert_eq!(h.used(), 24);
    let b = h.allocate(&mut mem, 32, 4);
    assert_eq!(b, 0x1020);
    assert_eq!(h.used(), 64);
    assert_eq!(a % 8, 0);
    assert_eq!(b % 8, 0);
}

#[test]
fn heap_refuses_zero_size_and_strict_alignment() {
    let (mut h, mut mem) = fresh_heap(1024);
    assert_eq!(h.allocate(&mut mem, 0, 8), 0);
    assert_eq!(h.allocate(&mut mem, 16, 16), 0);
    assert_eq!(h.allocate(&mut mem, 8192, 8), 0);
    assert_eq!(h.used(), 0);
}

#[test]
fn heap_free_reuses_and_restores_used() {
    let (mut h, mut mem) = fresh_heap(1024);
    let a = h.allocate(&mut mem, 16, 8);
    let b = h.allocate(&mut mem, 100, 8);
    let used = h.used();
    h.deallocate(&mut mem, a);
    assert_eq!(h.used(), used - 24);
    let c = h.allocate(&mut mem, 10, 8);
    assert_eq!(c, a);
    h.deallocate(&mut mem, c);
    h.deallocate(&mut mem, b);
    assert_eq!(h.used(), 0);
    h.deallocate(&mut mem, 0);
    assert_eq!(h.used(), 0);
}

#[test]
fn heap_coalesces_back_to_one_block() {
    let (mut h, mut mem) = fresh_heap(1024);
    let a = h.allocate(&mut mem, 100, 8);
    let b = h.allocate(&mut mem, 200, 8);
    let c = h.allocate(&mut mem, 300, 8);
    h.deallocate(&mut mem, b);
    h.deallocate(&mut mem, a);
    h.deallocate(&mut mem, c);
    assert_eq!(h.used(), 0);
    // the whole heap is one free block again
    assert_eq!(h.allocate(&mut mem, 4096 - 8, 8), 0x1008);
    assert_eq!(h.used(), 4096);
    assert_eq!(h.allocate(&mut mem, 1, 1), 0);
}

#[test]
fn heap_small_tail_stays_with_the_block() {
    let (mut h, mut mem) = fresh_heap(8);
    // 32 bytes: a 24-byte request leaves an 8-byte tail, exactly a header
    let a = h.allocate(&mut mem, 16, 8);
    assert_eq!(a, 0x1008);
    assert_eq!(h.used(), 24);
    let b = h.allocate(&mut mem, 1, 8);
    assert_eq!(b, 0);
    h.deallocate(&mut mem, a);
    // 28 bytes is too much for what is left after a 16-byte block
    let c = h.allocate(&mut mem, 20, 8);
    assert_eq!(c, 0x1008);
    assert_eq!(h.used(), 32);
}

#[test]
fn heap_init_claims_contiguous_frames() {
    let mut a = allocator();
    let rep = heap::init(&mut a);
    assert!(rep.ready());
    assert_eq!(rep.size(), HEAP_SIZE);
    assert_eq!(rep.start() % 4096, 0);
    assert_eq!(rep.end(), rep.start() + HEAP_SIZE);
    assert_eq!(a.report().in_use, heap::HEAP_FRAMES);
}

#[test]
fn heap_init_without_frames_is_not_ready() {
    let mut a = FrameAllocator::empty();
    let rep = heap::init(&mut a);
    assert!(!rep.ready());
    assert_eq!(rep.start(), 0);
    assert_eq!(rep.size(), 0);
    assert_eq!(rep.end(), 0);
}

#[test]
fn range_basics() {
    let r = Range::new(0x1000, 0x3000);
    assert_eq!(r.len(), 0x2000);
    assert!(!r.is_empty());
    assert!(Range::new(5, 3).is_empty());
    assert_eq!(Range::new(5, 3).len(), 0);
    assert!(r.overlaps(Range::new(0x2fff, 0x4000)));
    assert!(!r.overlaps(Range::new(0x3000, 0x4000)));
    assert!(!r.overlaps(Range::new(0x2000, 0x2000)));
    assert!(r.contains_range(Range::new(0x1000, 0x3000)));
    assert!(r.contains_range(Range::new(0x1000, 0x1000)));
    assert!(r.contains_range(Range::new(0x9000, 0x8000)));
    assert!(!r.contains_range(Range::new(0x0fff, 0x2000)));
}

fn good_heap_report() -> heap::Report {
    let mut a = allocator();
    heap::init(&mut a)
}

fn layout_check(heap: heap::Report, guard_mapped: bool) -> layout::Report {
    // image 0x100000..0x180000: DF stack | guard | kernel stack inside it
    layout::check(
        heap,
        Range::new(0x10_0000, 0x18_0000),
        Range::new(0x16_2000, 0x17_2000),
        0x16_1000,
        Range::new(0x16_0000, 0x16_1000),
        guard_mapped,
    )
}

#[test]
fn layout_ok() {
    let heap = good_heap_report();
    let rep = layout_check(heap, false);
    assert_eq!(rep.failure(), None);
    assert!(rep.ok());
    assert_eq!(rep.guard_page, Range::new(0x16_1000, 0x16_2000));
    assert_eq!(rep.heap, Range::new(heap.start(), heap.end()));
}

#[test]
fn layout_flags_mapped_guard() {
    let rep = layout_check(good_heap_report(), true);
    assert_eq!(rep.failure(), Some("stack guard page is still mapped"));
    assert!(!rep.ok());
}

#[test]
fn layout_flags_wrong_stack_size() {
    let rep = layout::check(
        good_heap_report(),
        Range::new(0x10_0000, 0x18_0000),
        Range::new(0x16_2000, 0x17_0000),
        0x16_1000,
        Range::new(0x16_0000, 0x16_1000),
        false,
    );
    assert_eq!(rep.failure(), Some("kernel stack size does not match KERNEL_STACK_SIZE"));
}

#[test]
fn layout_flags_stack_outside_image() {
    let rep = layout::check(
        good_heap_report(),
        Range::new(0x10_0000, 0x17_0000),
        Range::new(0x16_2000, 0x17_2000),
        0x16_1000,
        Range::new(0x16_0000, 0x16_1000),
        false,
    );
    assert_eq!(rep.failure(), Some("kernel stack is outside the kernel image"));
}

#[test]
fn layout_flags_misplaced_guard() {
    let rep = layout::check(
        good_heap_report(),
        Range::new(0x10_0000, 0x18_0000),
        Range::new(0x16_3000, 0x17_3000),
        0x16_1000,
        Range::new(0x16_0000, 0x16_1000),
        false,
    );
    assert_eq!(rep.failure(), Some("guard page is not immediately below the kernel stack"));
}

#[test]
fn layout_flags_heap_in_image() {
    let mut heap_alloc = FrameAllocator::new(
        &goatos::memory::map::load(&block(&[(0x10_0000, 0x1f0_0000, 1, 1)])),
        0x200_0000,
        0x200_1000,
    );
    let heap = heap::init(&mut heap_alloc);
    assert!(heap.ready());
    let rep = layout::check(
        heap,
        Range::new(0x10_0000, 0x30_0000),
        Range::new(0x16_2000, 0x17_2000),
        0x16_1000,
        Range::new(0x16_0000, 0x16_1000),
        false,
    );
    assert_eq!(rep.failure(), Some("heap overlaps the kernel image (and therefore a stack)"));
}

#[test]
fn layout_without_heap_checks_only_stacks() {
    let mut a = FrameAllocator::empty();
    let heap = heap::init(&mut a);
    let rep = layout_check(heap, false);
    assert_eq!(rep.failure(), None);
    assert_eq!(rep.heap, Range::new(0, 0));
}

#[test]
fn identity_map_end_rounds_up_to_4mib() {
    let m = two_region_map();
    assert_eq!(paging::identity_map_end(&m), 0x200_0000);
    let m = goatos::memory::map::load(&block(&[(0x10_0000, 0x10_0001, 1, 1)]));
    assert_eq!(paging::identity_map_end(&m), 0x40_0000);
    let m = goatos::memory::map::load(&block(&[(0x10_0000, 0x1_0000_0000, 1, 1)]));
    assert_eq!(paging::identity_map_end(&m), 0xffc0_0000);
    let m = goatos::memory::map::load(&block(&[(0x10_0000, 0x1000, 2, 1)]));
    assert_eq!(paging::identity_map_end(&m), 0);
}

#[test]
fn paging_entries() {
    assert_eq!(paging::page_entry(0, 1, 0x5000), Some(0x1003));
    assert_eq!(paging::page_entry(1, 2, 0x5000), Some(0x40_2003));
    assert_eq!(paging::page_entry(0, 5, 0x5000), None);
    assert_eq!(paging::directory_entry(Frame::containing_address(0x7000)), 0x7003);
    assert_eq!(paging::entry_indices(0x40_3123), (1, 3));
    assert!(paging::entry_present(0x1003));
    assert!(!paging::entry_present(0x1002));
    assert_eq!(paging::entry_frame(0x7003).start_address(), 0x7000);
    assert!(paging::paging_bit(0x8000_0011));
    assert!(!paging::paging_bit(0x11));
}

#[test]
fn paging_plan_and_finish() {
    let m = two_region_map();
    let mut a = allocator();
    let plan = paging::plan(&mut a, &m, 0x16_1000).unwrap();
    assert_eq!(plan.mapped_end(), 0x200_0000);
    assert_eq!(plan.tables().len(), 8);
    assert_eq!(plan.stack_guard(), 0x16_1000);
    let cr3 = plan.directory().start_address();
    let rep = paging::finish(&plan, cr3, true, false);
    assert!(rep.paging_enabled());
    assert_eq!(rep.cr3(), cr3);
    assert_eq!(rep.mapped_end(), 0x200_0000);
    assert_eq!(rep.page_tables(), 8);
    assert_eq!(rep.stack_guard(), 0x16_1000);
    let bad = paging::finish(&plan, cr3, true, true);
    assert!(!bad.paging_enabled());
    assert_eq!(bad.stack_guard(), 0);
    let failed = paging::Report::failed();
    assert_eq!(failed.cr3(), 0);
}

#[test]
fn paging_plan_without_memory_fails() {
    let m = MemoryMap::empty();
    let mut a = allocator();
    assert!(paging::plan(&mut a, &m, 0x16_1000).is_none());
}

#[test]
fn heap_allocation_keeps_live_data() {
    let (mut h, mut mem) = fresh_heap(1024);
    let a = h.allocate(&mut mem, 16, 8);
    let word = (a - 0x1000) / 4;
    mem[word] = 0xdead_beef;
    mem[word + 1] = 0x1234_5678;
    let b = h.allocate(&mut mem, 64, 8);
    let c = h.allocate(&mut mem, 8, 8);
    h.deallocate(&mut mem, b);
    h.deallocate(&mut mem, c);
    assert_eq!(mem[word], 0xdead_beef);
    assert_eq!(mem[word + 1], 0x1234_5678);
}

#[test]
fn frames_skipped_by_a_run_were_never_allocated() {
    let mut a = allocator();
    assert_eq!(a.allocate_contiguous(4).unwrap().index(), 1);
    assert_eq!(a.allocate_contiguous(4).unwrap().index(), 8);
    // frames 5 and 6 were passed over to keep the run clear of frame 7
    assert_eq!(a.free(Frame::containing_address(0x5000)), Err(FreeError::NeverAllocated));
    assert_eq!(a.free(Frame::containing_address(0x6000)), Err(FreeError::NeverAllocated));
    assert_eq!(a.free(Frame::containing_address(0x8000)), Ok(()));
    assert_eq!(a.allocate_contiguous(100_000), None);
    assert_eq!(a.free(Frame::containing_address(0x20_0000)), Err(FreeError::NeverAllocated));
    assert_eq!(a.report().in_use, 7);
}

#[test]
fn overlapping_regions_share_no_frame() {
    let m = goatos::memory::map::load(&block(&[
        (0x1000, 0x9000, 1, 1),
        (0x5000, 0x8000, 1, 1),
        (0x2000, 0x1000, 1, 1),
    ]));
    let mut a = FrameAllocator::new(&m, 0x10_0000, 0x18_0000);
    let rep = a.report();
    assert_eq!(rep.regions, 2);
    // frames 1..=12 less the boot sector page
    assert_eq!(rep.total, 11);
    let mut seen: Vec<u32> = Vec::new();
    while let Some(f) = a.allocate() {
        assert!(!seen.contains(&f.index()));
        seen.push(f.index());
    }
    assert_eq!(seen.len(), 11);
    assert_eq!(seen, vec![1, 2, 3, 4, 5, 6, 8, 9, 10, 11, 12]);
}

#[test]
fn frame_self_test_on_a_small_pool_gives_everything_back() {
    let m = goatos::memory::map::load(&block(&[(0x1000, 0x3000, 1, 1)]));
    let mut a = FrameAllocator::new(&m, 0x10_0000, 0x18_0000);
    assert_eq!(a.report().total, 3);
    let t = frame::self_test(&mut a);
    assert_eq!(t.failure(), Some("allocator ran out of frames"));
    assert_eq!(t.frames().len(), 3);
    assert_eq!(t.freed().len(), 0);
    assert_eq!(a.report().in_use, 0);
    // the frames it took are free again
    assert!(a.allocate().is_some());
    assert!(a.allocate().is_some());
    assert!(a.allocate().is_some());
    assert_eq!(a.allocate(), None);
}

#[test]
fn paging_plan_fails_when_frames_run_out() {
    let m = goatos::memory::map::load(&block(&[(0x1000, 0x1000, 1, 1)]));
    let mut a = FrameAllocator::new(&m, 0x10_0000, 0x18_0000);
    assert_eq!(a.report().total, 1);
    assert!(paging::plan(&mut a, &m, 0x16_1000).is_none());
}

#[test]
fn reservation_reaching_the_4_gib_line() {
    let m = two_region_map();
    let a = FrameAllocator::new(&m, 0x10_0000, u32::MAX);
    let rep = a.report();
    let kernel = rep.reservations()[2];
    assert_eq!(kernel.start_address(), 0x10_0000);
    assert_eq!(kernel.end_address(), 0x1_0000_0000);
    assert_eq!(kernel.frames(), 0x10_0000 - 0x100);
}

#[test]
fn heap_counts_successful_allocations() {
    let (mut h, mut mem) = fresh_heap(1024);
    assert_eq!(h.allocations(), 0);
    let a = h.allocate(&mut mem, 8, 8);
    assert_eq!(a, 0x1008);
    assert_eq!(h.allocate(&mut mem, 8, 8), 0x1018);
    assert_eq!(h.used(), 32);
    assert_eq!(h.allocations(), 2);
    assert_eq!(h.allocate(&mut mem, 0, 8), 0);
    assert_eq!(h.allocations(), 2);
    h.deallocate(&mut mem, a);
    assert_eq!(h.allocations(), 2);
}

//! Where the kernel's stacks, stack guard page, and heap live, and the check
//! that keeps them from silently colliding as either side grows.
//!
//! Identity-mapped address map:
//!
//! ```text
//! [kernel_start, kernel_end)       whole loaded image, reserved from the
//!                                  frame allocator; the stacks and guard
//!                                  live in its .bss:
//!   [df_stack_bottom, df_stack_top)  4 KiB  double-fault handler stack
//!   [stack_guard,     stack_bottom)  4 KiB  unmapped
//!   [stack_bottom,    stack_top)    64 KiB  ordinary kernel stack
//! [heap_start, heap_end)           1 MiB contiguous frames outside the image
//! ```
//!
//! [`check`] takes the ranges as measured at boot and names the first
//! invariant that no longer holds.
use vstd::prelude::*;

use super::heap;

verus! {

/// Bytes reserved for the ordinary kernel stack.
pub const KERNEL_STACK_SIZE: usize = 64 * 1024;

/// Bytes reserved for the double-fault handler's private stack.
pub const DOUBLE_FAULT_STACK_SIZE: usize = 4096;

/// Bytes left unmapped immediately below the kernel stack.
pub const GUARD_PAGE_SIZE: usize = 4096;

/// A half-open byte range `[start, end)`.
#[derive(Clone, Copy, Debug, PartialEq, Eq, Structural)]
pub struct Range {
    pub start: usize,
    pub end: usize,
}

impl Range {
    /// Whether the range holds no byte.
    pub open spec fn empty(self) -> bool {
        self.end <= self.start
    }

    /// Whether `b` is one of the range's bytes.
    pub open spec fn has(self, b: int) -> bool {
        self.start <= b < self.end
    }

    /// Whether the two ranges share a byte.
    pub open spec fn meets(self, other: Range) -> bool {
        !self.empty() && !other.empty() && self.start < other.end && other.start < self.end
    }

    /// Whether every byte of `other` lies inside `self` (an empty `other` always does).
    pub open spec fn holds(self, other: Range) -> bool {
        other.empty() || (other.start >= self.start && other.end <= self.end)
    }

    /// Number of bytes in the range.
    pub open spec fn size(self) -> int {
        if self.end <= self.start {
            0
        } else {
            self.end - self.start
        }
    }

    pub fn new(start: usize, end: usize) -> (r: Range)
        ensures
            r == (Range { start, end }),
    {
        Range { start, end }
    }

    pub fn len(self) -> (n: usize)
        ensures
            n == self.size(),
    {
        self.end.saturating_sub(self.start)
    }

    pub fn is_empty(self) -> (b: bool)
        ensures
            b == self.empty(),
    {
        self.end <= self.start
    }

    /// Whether `self` and `other` share any byte. Empty ranges never overlap.
    pub fn overlaps(self, other: Range) -> (b: bool)
        ensures
            b == self.meets(other),
            b <==> exists|x: int| self.has(x) && other.has(x),
    {
        if self.is_empty() || other.is_empty() {
            return false;
        }
        let r = self.start < other.end && other.start < self.end;
        proof {
            if r {
                let x = if self.start < other.start {
                    other.start as int
                } else {
                    self.start as int
                };
                assert(self.has(x) && other.has(x));
            }
        }
        r
    }

    /// Whether every byte of `other` lies inside `self`.
    pub fn contains_range(self, other: Range) -> (b: bool)
        ensures
            b == self.holds(other),
            b <==> forall|x: int| other.has(x) ==> self.has(x),
    {
        let b = other.is_empty() || (other.start >= self.start && other.end <= self.end);
        proof {
            if !b {
                let x = if other.start < self.start {
                    other.start as int
                } else if other.start >= self.end {
                    other.start as int
                } else {
                    self.end as int
                };
                assert(other.has(x) && !self.has(x));
            }
        }
        b
    }
}

/// The live ranges [`check`] measured, plus whether they are still disjoint.
pub struct Report {
    pub kernel_image: Range,
    pub kernel_stack: Range,
    pub double_fault_stack: Range,
    pub guard_page: Range,
    pub heap: Range,
    failure: Option<&'static str>,
}

impl View for Report {
    /// The measured image, kernel stack, double-fault stack, guard page and
    /// heap ranges, in that order.
    type V = (Range, Range, Range, Range, Range);

    closed spec fn view(&self) -> Self::V {
        (self.kernel_image, self.kernel_stack, self.double_fault_stack, self.guard_page, self.heap)
    }
}

impl Report {
    pub closed spec fn failure_spec(&self) -> Option<&'static str> {
        self.failure
    }

    /// `None` when every named range is where it should be.
    pub fn failure(&self) -> (f: Option<&'static str>)
        ensures
            f == self.failure_spec(),
    {
        self.failure
    }

    pub fn ok(&self) -> (b: bool)
        ensures
            b == (self.failure_spec() is None),
    {
        self.failure.is_none()
    }
}

/// The range the heap report names, or the empty range at 0 when the heap
/// could not be set up.
pub open spec fn heap_range(heap: heap::Report) -> Range {
    if heap.ready_spec() {
        Range {
            start: heap.start_spec() as usize,
            end: if heap.start_spec() + heap.size_spec() <= usize::MAX {
                (heap.start_spec() + heap.size_spec()) as usize
            } else {
                usize::MAX
            },
        }
    } else {
        Range { start: 0, end: 0 }
    }
}

/// The first layout invariant that the measured ranges break, in the order
/// [`check`] tests them, or `None`.
pub open spec fn layout_failure(
    kernel_image: Range,
    kernel_stack: Range,
    double_fault_stack: Range,
    guard_page: Range,
    guard_mapped: bool,
    heap_ready: bool,
    heap: Range,
) -> Option<&'static str> {
    if kernel_stack.size() != KERNEL_STACK_SIZE {
        Some("kernel stack size does not match KERNEL_STACK_SIZE")
    } else if double_fault_stack.size() != DOUBLE_FAULT_STACK_SIZE {
        Some("double-fault stack size does not match DOUBLE_FAULT_STACK_SIZE")
    } else if guard_page.size() != GUARD_PAGE_SIZE {
        Some("guard page size does not match GUARD_PAGE_SIZE")
    } else if !kernel_image.holds(kernel_stack) {
        Some("kernel stack is outside the kernel image")
    } else if !kernel_image.holds(double_fault_stack) {
        Some("double-fault stack is outside the kernel image")
    } else if !kernel_image.holds(guard_page) {
        Some("guard page is outside the kernel image")
    } else if double_fault_stack.end != guard_page.start {
        Some("double-fault stack is not immediately below the guard page")
    } else if guard_page.end != kernel_stack.start {
        Some("guard page is not immediately below the kernel stack")
    } else if kernel_stack.meets(double_fault_stack) {
        Some("kernel stack and double-fault stack overlap")
    } else if kernel_stack.meets(guard_page) || double_fault_stack.meets(guard_page) {
        Some("guard page overlaps a stack")
    } else if guard_mapped {
        Some("stack guard page is still mapped")
    } else if !heap_ready {
        None
    } else if heap.size() != heap::HEAP_SIZE {
        Some("heap size does not match HEAP_SIZE")
    } else if kernel_image.meets(heap) {
        Some("heap overlaps the kernel image (and therefore a stack)")
    } else if kernel_stack.meets(heap) {
        Some("kernel stack and heap overlap")
    } else if double_fault_stack.meets(heap) {
        Some("double-fault stack and heap overlap")
    } else if guard_page.meets(heap) {
        Some("guard page and heap overlap")
    } else {
        None
    }
}

/// Checks the stack/guard/heap/image ranges measured at boot against the
/// invariants this module documents: `kernel_image`, `kernel_stack` and
/// `double_fault_stack` as the linker and the TSS place them, the guard page
/// starting at `guard_start`, whether the page tables still map it, and the
/// heap as [`heap::init`] reported it.
pub fn check(
    heap: heap::Report,
    kernel_image: Range,
    kernel_stack: Range,
    guard_start: usize,
    double_fault_stack: Range,
    guard_mapped: bool,
) -> (report: Report)
    requires
        guard_start + GUARD_PAGE_SIZE <= usize::MAX,
    ensures
        report@ == (
            kernel_image,
            kernel_stack,
            double_fault_stack,
            Range { start: guard_start, end: (guard_start + GUARD_PAGE_SIZE) as usize },
            heap_range(heap),
        ),
        report.failure_spec() == layout_failure(
            kernel_image,
            kernel_stack,
            double_fault_stack,
            report@.3,
            guard_mapped,
            heap.ready_spec(),
            report@.4,
        ),
        report.failure_spec() is None ==> !kernel_stack.meets(double_fault_stack)
            && !kernel_stack.meets(report@.3) && !double_fault_stack.meets(report@.3) && (
        heap.ready_spec() ==> !kernel_image.meets(report@.4) && !kernel_stack.meets(report@.4)
            && !double_fault_stack.meets(report@.4) && !report@.3.meets(report@.4)),
{
    let guard_page = Range::new(guard_start, guard_start + GUARD_PAGE_SIZE);
    let heap_range = if heap.ready() {
        Range::new(heap.start(), heap.end())
    } else {
        Range::new(0, 0)
    };
    let mut report = Report {
        kernel_image,
        kernel_stack,
        double_fault_stack,
        guard_page,
        heap: heap_range,
        failure: None,
    };
    if kernel_stack.len() != KERNEL_STACK_SIZE {
        report.failure = Some("kernel stack size does not match KERNEL_STACK_SIZE");
        return report;
    }
    if double_fault_stack.len() != DOUBLE_FAULT_STACK_SIZE {
        report.failure = Some("double-fault stack size does not match DOUBLE_FAULT_STACK_SIZE");
        return report;
    }
    if guard_page.len() != GUARD_PAGE_SIZE {
        report.failure = Some("guard page size does not match GUARD_PAGE_SIZE");
        return report;
    }
    if !kernel_image.contains_range(kernel_stack) {
        report.failure = Some("kernel stack is outside the kernel image");
        return report;
    }
    if !kernel_image.contains_range(double_fault_stack) {
        report.failure = Some("double-fault stack is outside the kernel image");
        return report;
    }
    if !kernel_image.contains_range(guard_page) {
        report.failure = Some("guard page is outside the kernel image");
        return report;
    }
    if double_fault_stack.end != guard_page.start {
        report.failure = Some("double-fault stack is not immediately below the guard page");
        return report;
    }
    if guard_page.end != kernel_stack.start {
        report.failure = Some("guard page is not immediately below the kernel stack");
        return report;
    }
    if kernel_stack.overlaps(double_fault_stack) {
        report.failure = Some("kernel stack and double-fault stack overlap");
        return report;
    }
    if kernel_stack.overlaps(guard_page) || double_fault_stack.overlaps(guard_page) {
        report.failure = Some("guard page overlaps a stack");
        return report;
    }
    if guard_mapped {
        report.failure = Some("stack guard page is still mapped");
        return report;
    }
    if !heap.ready() {
        return report;
    }
    if heap_range.len() != heap::HEAP_SIZE {
        report.failure = Some("heap size does not match HEAP_SIZE");
        return report;
    }
    if kernel_image.overlaps(heap_range) {
        report.failure = Some("heap overlaps the kernel image (and therefore a stack)");
        return report;
    }
    if kernel_stack.overlaps(heap_range) {
        report.failure = Some("kernel stack and heap overlap");
        return report;
    }
    if double_fault_stack.overlaps(heap_range) {
        report.failure = Some("double-fault stack and heap overlap");
        return report;
    }
    if guard_page.overlaps(heap_range) {
        report.failure = Some("guard page and heap overlap");
        return report;
    }
    report
}

} // verus!

//! Turning interrupt delivery on safely, and catching the vectors nothing
//! owns yet.
//!
//! A not-present vector raises a general protection fault whose own delivery
//! counts as a second exception, so one stray interrupt would escalate to a
//! double fault. [`init`] therefore fills every gap in the table with a
//! catch-all before interrupts are enabled, and [`dispatch`] decides what the
//! catch-all reports and whether the kernel can carry on: a stray IRQ or a
//! software `int` is reported and resumed, an unhandled CPU exception halts
//! (returning would re-execute the faulting instruction forever). Each vector
//! is reported once; a line firing continuously would otherwise scroll the
//! first, useful report off the screen.
use vstd::prelude::*;

use super::idt;

verus! {

/// EFLAGS bit 9, the interrupt flag.
pub const EFLAGS_INTERRUPT_ENABLE: u32 = 0x200;

/// Vectors 0-31 are the CPU's own exceptions.
pub const EXCEPTION_VECTOR_COUNT: u8 = 32;

/// Whether `eflags` has maskable interrupts enabled.
pub fn interrupt_flag(eflags: u32) -> (b: bool)
    ensures
        b == ((eflags / 0x200) % 2 == 1),
{
    assert(eflags & 0x200u32 != 0 <==> (eflags / 0x200) % 2 == 1) by (bit_vector);
    eflags & EFLAGS_INTERRUPT_ENABLE != 0
}

/// Intel's name for exception `vector`; the reserved vectors are named as
/// such, which itself says "this should not be possible".
pub open spec fn exception_name_spec(vector: u8) -> &'static str {
    if vector == 0 {
        "divide error"
    } else if vector == 1 {
        "debug"
    } else if vector == 2 {
        "non-maskable interrupt"
    } else if vector == 3 {
        "breakpoint"
    } else if vector == 4 {
        "overflow"
    } else if vector == 5 {
        "bound range exceeded"
    } else if vector == 6 {
        "invalid opcode"
    } else if vector == 7 {
        "device not available"
    } else if vector == 8 {
        "double fault"
    } else if vector == 9 {
        "coprocessor segment overrun"
    } else if vector == 10 {
        "invalid TSS"
    } else if vector == 11 {
        "segment not present"
    } else if vector == 12 {
        "stack-segment fault"
    } else if vector == 13 {
        "general protection fault"
    } else if vector == 14 {
        "page fault"
    } else if vector == 16 {
        "x87 floating-point error"
    } else if vector == 17 {
        "alignment check"
    } else if vector == 18 {
        "machine check"
    } else if vector == 19 {
        "SIMD floating-point exception"
    } else if vector == 20 {
        "virtualization exception"
    } else if vector == 21 {
        "control protection exception"
    } else if vector == 28 {
        "hypervisor injection exception"
    } else if vector == 29 {
        "VMM communication exception"
    } else if vector == 30 {
        "security exception"
    } else {
        "reserved exception"
    }
}

/// Intel's name for exception `vector`.
pub fn exception_name(vector: u8) -> (name: &'static str)
    ensures
        name == exception_name_spec(vector),
{
    match vector {
        0 => "divide error",
        1 => "debug",
        2 => "non-maskable interrupt",
        3 => "breakpoint",
        4 => "overflow",
        5 => "bound range exceeded",
        6 => "invalid opcode",
        7 => "device not available",
        8 => "double fault",
        9 => "coprocessor segment overrun",
        10 => "invalid TSS",
        11 => "segment not present",
        12 => "stack-segment fault",
        13 => "general protection fault",
        14 => "page fault",
        16 => "x87 floating-point error",
        17 => "alignment check",
        18 => "machine check",
        19 => "SIMD floating-point exception",
        20 => "virtualization exception",
        21 => "control protection exception",
        28 => "hypervisor injection exception",
        29 => "VMM communication exception",
        30 => "security exception",
        _ => "reserved exception",
    }
}

/// The vectors the CPU enters with an error code pushed.
pub open spec fn pushes_error_code(vector: u8) -> bool {
    vector == 8 || (10 <= vector <= 14) || vector == 17 || vector == 21 || vector == 29 || vector
        == 30
}

/// Whether the catch-all for `vector` must take an error code. A handler of
/// the wrong shape reads the error code where it expects `eip` and returns
/// to a garbage address.
pub fn has_error_code(vector: u8) -> (b: bool)
    ensures
        b == pushes_error_code(vector),
{
    match vector {
        8 | 10 | 11 | 12 | 13 | 14 | 17 | 21 | 29 | 30 => true,
        _ => false,
    }
}

/// Row and column of `vector`'s catch-all in a table of sixteen rows of
/// sixteen entry points.
pub fn stub_slot(vector: u8) -> (rc: (usize, usize))
    ensures
        rc.0 == vector / 16,
        rc.1 == vector % 16,
        rc.0 * 16 + rc.1 == vector,
{
    assert(vector >> 4u8 == vector / 16 && vector & 0x0fu8 == vector % 16) by (bit_vector);
    ((vector >> 4) as usize, (vector & 0x0f) as usize)
}

/// Bit `i` of `x`.
pub open spec fn bit(x: u32, i: u32) -> bool {
    (x >> i) & 1 == 1
}

proof fn lemma_set_bit(x: u32, a: u32)
    requires
        a < 32,
    ensures
        forall|b: u32| b < 32 ==> #[trigger] bit(x | (1u32 << a), b) == (b == a || bit(x, b)),
        (x & (1u32 << a) != 0) == bit(x, a),
{
    assert(forall|b: u32| b < 32 ==> ((((x | (1u32 << a)) >> b) & 1 == 1) == (b == a || ((x >> b)
        & 1 == 1)))) by (bit_vector)
        requires
            a < 32,
    ;
    assert((x & (1u32 << a) != 0) == ((x >> a) & 1 == 1)) by (bit_vector)
        requires
            a < 32,
    ;
}

/// What the catch-all remembers: how many interrupts reached it, and which
/// vectors have been reported already.
pub struct Catchall {
    total: u32,
    reported: [u32; 8],
}

impl Catchall {
    /// Whether `vector` has been reported.
    pub closed spec fn reported(self, vector: u8) -> bool {
        bit(self.reported@[(vector / 32) as int], (vector % 32) as u32)
    }

    pub closed spec fn total(self) -> u32 {
        self.total
    }

    /// Nothing has arrived and nothing is reported.
    pub fn new() -> (c: Catchall)
        ensures
            c.total() == 0,
            forall|v: u8| !(#[trigger] c.reported(v)),
    {
        let c = Catchall { total: 0, reported: [0u32; 8] };
        assert forall|v: u8| !(#[trigger] c.reported(v)) by {
            let w = c.reported@[(v / 32) as int];
            assert(w == 0);
            let i = (v % 32) as u32;
            assert((0u32 >> i) & 1 != 1) by (bit_vector);
        }
        c
    }

    /// How many interrupts have hit the catch-all so far.
    pub fn unhandled_count(&self) -> (n: u32)
        ensures
            n == self.total(),
    {
        self.total
    }

    /// Records that `vector` has been reported, returning whether it already
    /// had been.
    pub fn mark_reported(&mut self, vector: u8) -> (was: bool)
        ensures
            was == old(self).reported(vector),
            final(self).reported(vector),
            forall|v: u8| v != vector ==> #[trigger] final(self).reported(v) == old(self).reported(v),
            final(self).total() == old(self).total(),
    {
        let word = (vector / 32) as usize;
        let shift = (vector % 32) as u32;
        let bit_mask = 1u32 << shift;
        let old_word = self.reported[word];
        proof {
            lemma_set_bit(old_word, shift);
        }
        self.reported[word] = old_word | bit_mask;
        proof {
            assert forall|v: u8| v != vector implies #[trigger] self.reported(v) == old(self).reported(
                v,
            ) by {
                if v / 32 == vector / 32 {
                    assert(((v % 32) as u32) != shift);
                }
            }
        }
        old_word & bit_mask != 0
    }
}

/// What the catch-all's report says the interrupt was.
#[derive(Clone, Copy, Debug)]
pub enum Heading {
    /// A spurious IRQ on this line: the PIC got no EOI.
    SpuriousIrq(u8),
    /// A real IRQ on a line with no driver; acknowledged and dropped.
    IrqNoDriver(u8),
    /// A CPU exception nothing handles, by Intel's name.
    Exception(&'static str),
    /// A vector only a software `int` can raise.
    NoHandler,
}

/// What happens after the report.
#[derive(Clone, Copy, PartialEq, Eq, Debug, Structural)]
pub enum Outcome {
    /// An unhandled CPU exception cannot be resumed.
    Halt,
    /// Spurious, so the PIC got no EOI.
    ResumeSpurious,
    /// The IRQ was acknowledged and dropped.
    ResumeAcknowledged,
    /// Nothing can raise this vector but the kernel.
    ResumeSoftware,
}

/// The catch-all's decision for one interrupt: what to report (nothing if
/// the vector was reported before) and whether to carry on.
pub struct Verdict {
    pub heading: Option<Heading>,
    pub outcome: Outcome,
}

/// What the report says vector `vector` was, given the IRQ line it maps to
/// and whether the controller found that IRQ spurious.
pub open spec fn heading_for(vector: u8, irq: Option<u8>, spurious: Option<bool>) -> Heading {
    match irq {
        Some(line) => if spurious == Some(true) {
            Heading::SpuriousIrq(line)
        } else {
            Heading::IrqNoDriver(line)
        },
        None => if vector < EXCEPTION_VECTOR_COUNT {
            Heading::Exception(exception_name_spec(vector))
        } else {
            Heading::NoHandler
        },
    }
}

/// Whether and how the kernel carries on after vector `vector`.
pub open spec fn outcome_for(vector: u8, irq: Option<u8>, spurious: Option<bool>) -> Outcome {
    if vector < EXCEPTION_VECTOR_COUNT {
        Outcome::Halt
    } else if spurious == Some(true) {
        Outcome::ResumeSpurious
    } else if irq is Some {
        Outcome::ResumeAcknowledged
    } else {
        Outcome::ResumeSoftware
    }
}

/// Counts an interrupt nothing is registered for and decides what to
/// report and whether the kernel can carry on. `irq` is the IRQ line the
/// vector maps to, and `spurious` what acknowledging that line found.
pub fn dispatch(state: &mut Catchall, vector: u8, irq: Option<u8>, spurious: Option<bool>) -> (v:
    Verdict)
    ensures
        dispatched(*old(state), *final(state)),
        final(state).reported(vector),
        forall|w: u8| w != vector ==> #[trigger] final(state).reported(w) == old(state).reported(w),
        v.heading == if old(state).reported(vector) {
            None
        } else {
            Some(heading_for(vector, irq, spurious))
        },
        v.outcome == outcome_for(vector, irq, spurious),
{
    state.total = state.total.wrapping_add(1);
    let already_reported = state.mark_reported(vector);
    let heading = if already_reported {
        None
    } else {
        Some(
            match irq {
                Some(line) => if spurious == Some(true) {
                    Heading::SpuriousIrq(line)
                } else {
                    Heading::IrqNoDriver(line)
                },
                None => if vector < EXCEPTION_VECTOR_COUNT {
                    Heading::Exception(exception_name(vector))
                } else {
                    Heading::NoHandler
                },
            },
        )
    };
    let outcome = if vector < EXCEPTION_VECTOR_COUNT {
        Outcome::Halt
    } else if spurious == Some(true) {
        Outcome::ResumeSpurious
    } else if irq.is_some() {
        Outcome::ResumeAcknowledged
    } else {
        Outcome::ResumeSoftware
    };
    Verdict { heading, outcome }
}

/// Going from `pre` to `post` is one [`dispatch`]: one more interrupt
/// counted, wrapping.
pub open spec fn dispatched(pre: Catchall, post: Catchall) -> bool {
    post.total() == (pre.total() + 1) % 0x1_0000_0000
}

/// After `k` dispatches on a fresh catch-all, its count is `k` modulo 2^32:
/// `states[k]` is the catch-all after the first `k` of them.
pub proof fn lemma_catchall_counts(states: Seq<Catchall>)
    requires
        states.len() > 0,
        states[0].total() == 0,
        forall|k: int| 0 <= k < states.len() - 1 ==> dispatched(#[trigger] states[k], states[k + 1]),
    ensures
        forall|k: int| 0 <= k < states.len() ==> #[trigger] states[k].total() == k % 0x1_0000_0000,
    decreases states.len(),
{
    if states.len() > 1 {
        let s2 = states.drop_last();
        assert forall|k: int| 0 <= k < s2.len() - 1 implies dispatched(#[trigger] s2[k], s2[k + 1]) by {
            assert(dispatched(states[k], states[k + 1]));
        }
        lemma_catchall_counts(s2);
        let n = states.len() - 1;
        assert(s2[n - 1] == states[n - 1]);
        assert(dispatched(states[n - 1], states[n]));
        vstd::arithmetic::div_mod::lemma_add_mod_noop(n - 1, 1, 0x1_0000_0000);
        assert forall|k: int| 0 <= k < states.len() implies #[trigger] states[k].total() == k
            % 0x1_0000_0000 by {
            if k < n {
                assert(s2[k] == states[k]);
            }
        }
    }
}

/// Installs the catch-all entry point `stubs[v]`, through the kernel code
/// segment, on every vector `v` that has no handler of its own, and says how
/// many that was. A registered handler is never replaced.
pub fn init(table: &mut idt::Table, stubs: &[u32]) -> (installed: usize)
    requires
        stubs@.len() == idt::ENTRY_COUNT,
    ensures
        final(table)@.len() == idt::ENTRY_COUNT,
        installed + idt::present_count(old(table)@, idt::ENTRY_COUNT as int) == idt::ENTRY_COUNT,
        forall|v: int|
            0 <= v < idt::ENTRY_COUNT ==> (#[trigger] final(table)@[v]).present() && (
            old(table)@[v].present() ==> final(table)@[v] == old(table)@[v]) && (
            !old(table)@[v].present() ==> final(table)@[v].offset() == stubs@[v]
                && final(table)@[v].type_attr == idt::INTERRUPT_GATE_ATTR
                && final(table)@[v].selector == crate::gdt::KERNEL_CODE_SELECTOR),
{
    let ghost t0 = table@;
    let mut installed: usize = 0;
    let mut v: usize = 0;
    let _ = table.gate(0);
    while v < idt::ENTRY_COUNT
        invariant
            v <= idt::ENTRY_COUNT,
            stubs@.len() == idt::ENTRY_COUNT,
            t0.len() == idt::ENTRY_COUNT,
            table@.len() == idt::ENTRY_COUNT,
            installed + idt::present_count(t0, v as int) == v,
            installed <= v,
            forall|w: int| v <= w < idt::ENTRY_COUNT ==> table@[w] == t0[w],
            forall|w: int|
                0 <= w < v ==> (#[trigger] table@[w]).present() && (t0[w].present() ==> table@[w]
                    == t0[w]) && (!t0[w].present() ==> table@[w].offset() == stubs@[w]
                    && table@[w].type_attr == idt::INTERRUPT_GATE_ATTR
                    && table@[w].selector == crate::gdt::KERNEL_CODE_SELECTOR),
        decreases idt::ENTRY_COUNT - v,
    {
        let vector = v as u8;
        if !table.has_handler(vector) {
            table.set_handler(vector, stubs[v]);
            installed += 1;
        }
        v += 1;
    }
    installed
}

} // verus!

use goatos::gdt::{self, Descriptor};
use goatos::idt::{self, Gate, Table};
use goatos::interrupts::{self, Catchall, Heading, Outcome};
use goatos::pic;
use goatos::pit::{self, Timer};
use goatos::task::{self, Scheduler};
use goatos::tss::{self, TaskStateSegment};

#[test]
fn gdt_flat_segments_encode_as_expected() {
    assert_eq!(Descriptor::flat(gdt::ACCESS_KERNEL_CODE).0, 0x00cf_9a00_0000_ffff);
    assert_eq!(Descriptor::flat(gdt::ACCESS_KERNEL_DATA).0, 0x00cf_9200_0000_ffff);
    assert_eq!(Descriptor::null().0, 0);
}

#[test]
fn gdt_tss_descriptor_scatters_base_and_limit() {
    let loc = tss::location(0x1234_5678);
    assert_eq!(loc.limit, 103);
    let d = Descriptor::tss(&loc);
    assert_eq!(d.0, 0x1200_8934_5678_0067);
    let t = gdt::descriptors(&loc, &tss::location(0x0010_2000));
    assert_eq!(t.len(), gdt::ENTRY_COUNT);
    assert_eq!(t[gdt::MAIN_TSS_INDEX].0, d.0);
    assert_eq!(t[gdt::DOUBLE_FAULT_TSS_INDEX].0, 0x0000_8910_2000_0067);
    assert_eq!(gdt::KERNEL_CODE_SELECTOR, 0x08);
    assert_eq!(gdt::DOUBLE_FAULT_TSS_SELECTOR, 0x20);
}

#[test]
fn idt_interrupt_entry_encoding() {
    let g = Gate::interrupt(0x0010_2345, gdt::KERNEL_CODE_SELECTOR);
    assert_eq!(g.offset_low, 0x2345);
    assert_eq!(g.offset_high, 0x0010);
    assert_eq!(g.type_attr, 0x8e);
    assert!(g.is_present());
    assert_eq!(g.to_bits(), 0x0010_8e00_0008_2345);
    let t = Gate::task(0x20);
    assert_eq!(t.to_bits(), 0x0000_8500_0020_0000);
    assert!(!Gate::missing().is_present());
}

#[test]
fn idt_table_registration() {
    let mut t = Table::new();
    assert_eq!(t.handlers(), 0);
    t.set_handler(0, 0x1000);
    t.set_task_gate(8, gdt::DOUBLE_FAULT_TSS_SELECTOR);
    assert!(t.has_handler(0));
    assert!(t.has_handler(8));
    assert!(!t.has_handler(1));
    assert_eq!(t.handlers(), 2);
    t.clear_handler(0);
    assert!(!t.has_handler(0));
    assert_eq!(t.handlers(), 1);
    let loaded = idt::Loaded { base: 0x2000, limit: idt::TABLE_LIMIT, handlers: 1 };
    assert_eq!(loaded.entries(), 256);
}

#[test]
fn interrupts_fill_only_the_gaps() {
    let mut t = Table::new();
    t.set_handler(0, 0xdead_0000);
    t.set_task_gate(8, 0x20);
    let stubs: Vec<u32> = (0..256u32).map(|v| 0x1000 + v * 16).collect();
    let installed = interrupts::init(&mut t, &stubs);
    assert_eq!(installed, 254);
    assert_eq!(t.handlers(), 256);
    assert_eq!(t.gate(0).offset_low, 0);
    assert_eq!(t.gate(0).offset_high, 0xdead);
    assert_eq!(t.gate(8).to_bits(), Gate::task(0x20).to_bits());
    assert_eq!(t.gate(0x60).offset_low, 0x1600);
}

#[test]
fn exception_names() {
    assert_eq!(interrupts::exception_name(0), "divide error");
    assert_eq!(interrupts::exception_name(13), "general protection fault");
    assert_eq!(interrupts::exception_name(14), "page fault");
    assert_eq!(interrupts::exception_name(15), "reserved exception");
    assert_eq!(interrupts::exception_name(30), "security exception");
    assert_eq!(interrupts::exception_name(31), "reserved exception");
}

#[test]
fn error_code_vectors() {
    let with: Vec<u8> = (0..=255u8).filter(|v| interrupts::has_error_code(*v)).collect();
    assert_eq!(with, vec![8, 10, 11, 12, 13, 14, 17, 21, 29, 30]);
    assert_eq!(interrupts::stub_slot(0x6b), (6, 11));
}

#[test]
fn catchall_reports_each_vector_once() {
    let mut c = Catchall::new();
    assert!(!c.mark_reported(40));
    assert!(c.mark_reported(40));
    assert!(!c.mark_reported(41));
    assert!(!c.mark_reported(255));
    assert!(c.mark_reported(255));
    assert_eq!(c.unhandled_count(), 0);
}

#[test]
fn dispatch_decisions() {
    let mut c = Catchall::new();
    let v = interrupts::dispatch(&mut c, 6, None, None);
    assert!(matches!(v.heading, Some(Heading::Exception("invalid opcode"))));
    assert_eq!(v.outcome, Outcome::Halt);
    let v = interrupts::dispatch(&mut c, 39, Some(7), Some(true));
    assert!(matches!(v.heading, Some(Heading::SpuriousIrq(7))));
    assert_eq!(v.outcome, Outcome::ResumeSpurious);
    let v = interrupts::dispatch(&mut c, 39, Some(7), Some(false));
    assert!(v.heading.is_none());
    assert_eq!(v.outcome, Outcome::ResumeAcknowledged);
    let v = interrupts::dispatch(&mut c, 33, Some(1), Some(false));
    assert!(matches!(v.heading, Some(Heading::IrqNoDriver(1))));
    let v = interrupts::dispatch(&mut c, 0x60, None, None);
    assert!(matches!(v.heading, Some(Heading::NoHandler)));
    assert_eq!(v.outcome, Outcome::ResumeSoftware);
    assert_eq!(c.unhandled_count(), 5);
}

#[test]
fn interrupt_flag_bit() {
    assert!(interrupts::interrupt_flag(0x202));
    assert!(!interrupts::interrupt_flag(0x002));
}

#[test]
fn pic_state_and_vectors() {
    let s = pic::state(0xff, 0xff);
    assert!(s.all_masked());
    assert_eq!(s.vector_base, 32);
    assert_eq!(s.vector_last, 47);
    assert!(!pic::state(0xfe, 0xff).all_masked());
    assert_eq!(pic::irq_of_vector(32), Some(0));
    assert_eq!(pic::irq_of_vector(47), Some(15));
    assert_eq!(pic::irq_of_vector(48), None);
    assert_eq!(pic::irq_of_vector(31), None);
}

#[test]
fn pit_counts_seconds() {
    let mut t = Timer::new();
    for _ in 0..250 {
        t.tick();
    }
    assert_eq!(t.ticks(), 250);
    assert_eq!(t.seconds(), 2);
    assert_eq!(pit::DIVISOR as u32, pit::PIT_OSCILLATOR_HZ / pit::FREQUENCY_HZ);
    assert_eq!(pit::divisor_bytes(pit::DIVISOR), (0x9b, 0x2e));
    assert_eq!(pit::VECTOR, 32);
}

#[test]
fn tss_images() {
    let t = tss::double_fault_task_image(0x0010_4000, 0x0016_1000);
    assert_eq!(t.eip, 0x0010_4000);
    assert_eq!(t.esp, 0x0016_1000);
    assert_eq!(t.ebp, 0x0016_1000);
    assert_eq!(t.cs, gdt::KERNEL_CODE_SELECTOR);
    assert_eq!(t.ss, gdt::KERNEL_DATA_SELECTOR);
    assert_eq!(t.eflags, 2);
    assert_eq!(t.iomap_base, 104);
    let mut main = TaskStateSegment::empty();
    let mut df = t;
    tss::set_page_directory(&mut main, &mut df, 0x5000);
    assert_eq!(main.cr3, 0x5000);
    assert_eq!(df.cr3, 0x5000);
    main.eip = 0x1234;
    df.previous_task_link = 0x18;
    let s = tss::interrupted_state(&main, &df);
    assert_eq!(s.eip, 0x1234);
    assert_eq!(s.previous_task_link, 0x18);
}

#[test]
fn scheduler_round_robin() {
    let mut s = Scheduler::new();
    assert_eq!(s.count(), 1);
    assert_eq!(s.yield_now(), None);
    assert_eq!(s.spawn(), Some(1));
    assert_eq!(s.spawn(), Some(2));
    assert_eq!(s.count(), 3);
    assert_eq!(s.yield_now(), Some((0, 1)));
    assert_eq!(s.yield_now(), Some((1, 2)));
    assert_eq!(s.yield_now(), Some((2, 0)));
    assert_eq!(s.spawn(), Some(3));
    assert_eq!(s.spawn(), None);
    assert_eq!(s.count(), 4);
    assert_eq!(s.current(), 0);
}

#[test]
fn next_task_wraps() {
    assert_eq!(task::next_task(&[true, false, false, true], 3), Some(0));
    assert_eq!(task::next_task(&[false, false, true, false], 2), Some(2));
    assert_eq!(task::next_task(&[false, false, false, false], 1), None);
}

#[test]
fn new_task_stack_frame() {
    let top = task::stack_top(0x1_0003, task::STACK_SIZE);
    assert_eq!(top, 0x1_2000);
    let (esp, words) = task::initial_frame(top, 0xaaaa, 0xbbbb);
    assert_eq!(esp, top - 24);
    assert_eq!(words[0], (top - 4, 0xaaaa));
    assert_eq!(words[1], (top - 8, 0xbbbb));
    assert_eq!(words[5], (top - 24, 0));
    assert_eq!(words.len(), task::INITIAL_FRAME_WORDS);
}

#[test]
fn every_task_runs_within_three_yields() {
    let mut s = Scheduler::new();
    assert_eq!(s.spawn(), Some(1));
    assert_eq!(s.spawn(), Some(2));
    assert_eq!(s.spawn(), Some(3));
    assert_eq!(s.spawn(), None);
    assert_eq!(s.count(), 4);
    let mut seen = [false; 4];
    seen[s.current()] = true;
    for _ in 0..3 {
        s.yield_now();
        seen[s.current()] = true;
    }
    assert_eq!(seen, [true; 4]);
}

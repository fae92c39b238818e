# goatos

The logic of GOATos, a from-scratch 32-bit x86 kernel, as a library proved
with Verus against its contracts:

- `memory`: the E820 memory map (`map`), the physical frame allocator
  (`frame`), the first-fit coalescing kernel heap (`heap`), the identity map
  plan (`paging`), and the stack/guard/heap layout check (`layout`).
- `gdt`, `idt`, `tss`: the descriptor tables and task-state segments.
- `pic`, `interrupts`, `pit`: the interrupt controllers' remap, the
  catch-all for unowned vectors, and the timer.
- `keyboard`, `input`, `shell`, `vga`, `framebuffer`: scancode decoding, the
  key-event queue, the line editor, and the text and graphics screens.
- `ata`, `fs`: ATA PIO decisions and the GOATFS on-disk format.
- `task`: the cooperative round-robin scheduler.

`app/` is the kernel around it: boot sequence, port I/O, control registers,
interrupt entry stubs, the global allocator, and the print macros.

//! GOATos kernel logic: memory management, CPU tables, interrupt handling,
//! device decoding, the line shell and the on-disk file system, each proved
//! against its contract. Port I/O, control registers and the boot glue live
//! with the caller.
pub mod memory;
pub mod pic;
pub mod idt;
pub mod gdt;
pub mod tss;
pub mod interrupts;
pub mod pit;
pub mod keyboard;
pub mod input;
pub mod shell;
pub mod vga;
pub mod ata;
pub mod fs;
pub mod task;
pub mod framebuffer;
pub mod graphics;

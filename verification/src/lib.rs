//! Logic of a small x86_64 kernel: memory, tasks, preemption, clocks and boot.
//!
//! Nothing here touches hardware. Functions take what was read from it and say
//! what is to be written to it.

pub mod apic;
pub mod boot;
pub mod config;
pub mod gdt;
pub mod idt;
pub mod interrupts;
pub mod memory;
pub mod preempt;
pub mod serial;
pub mod syscall;
pub mod task;
pub mod timer;
pub mod xtask;

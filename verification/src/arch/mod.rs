//! The processor and the chips next to it.

pub mod apic;
pub mod gdt;
pub mod idt;
pub mod percpu;
pub mod rtc;

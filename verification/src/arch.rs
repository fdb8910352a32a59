pub mod apic;
pub mod context;
pub mod cpu;
pub mod gdt;
pub mod idt;
pub mod percpu;
pub mod smp;
pub mod syscall;
pub mod pic;

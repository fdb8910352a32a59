pub mod address_space;
pub mod elf;
pub mod pid;
pub mod signal;
pub mod task;
pub mod exec;

pub mod arch;
pub mod bytes;
pub mod drivers;
pub mod entropy;
pub mod errno;
pub mod fault;
pub mod fs;
pub mod ipc;
pub mod log;
pub mod memory;
pub mod process;
pub mod sched;
pub mod shell;
pub mod sync;
pub mod text;

pub mod addr;
pub mod cow;
pub mod heap;
pub mod paging;
pub mod pmm;
pub mod oom;
pub mod slab;
pub mod vmm;

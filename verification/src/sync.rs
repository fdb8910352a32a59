pub mod rwlock;
pub mod spinlock;
pub mod waitqueue;

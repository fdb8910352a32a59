pub mod pipe;
pub mod shm;

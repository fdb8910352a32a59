pub mod devfs;
pub mod ext2;
pub mod block_cache;
pub mod fd;
pub mod names;
pub mod namespace;
pub mod path;
pub mod procfs;
pub mod tmpfs;
pub mod vfs;

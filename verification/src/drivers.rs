pub mod framebuffer;
pub mod keyboard;
pub mod pci;
pub mod serial;
pub mod ahci;
pub mod virtio;

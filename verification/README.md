# kernel

The logic of a small x86_64 kernel, written in Verus and proved against its
contracts: physical and virtual memory (frame allocator, page tables, address
spaces with copy-on-write fork, slab and linked-list heaps), processes (ELF loading,
PIDs, signals, the scheduler), file systems (tmpfs, devfs, procfs, ext2, the mount
namespace, file descriptors, the block cache), IPC (pipes, shared memory), locks,
the CSPRNG, and the register-level logic of the serial, keyboard, framebuffer, PCI,
VirtIO and AHCI drivers.

Layout:

- `src/` — the verified library. Hardware access never happens here: functions
  take the values read from devices and return the port or memory writes to make.
  Physical memory is modelled as a sequence of 64-bit words (`PhysMem`).
- `tests/` — tests that run the library on concrete inputs.
- `app/` — the kernel binary around the library: the bootloader requests, port and
  CPU instructions, and the shell loop.

Verify with `verus` on `src/lib.rs`; the tests run with `cargo test`.

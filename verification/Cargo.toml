[package]
name = "kernel"
version = "0.1.0"
edition = "2021"
publish = false

[dependencies]
bitflags = "=2.13.2"
spin = "=0.12.3"
limine = "=0.5.0"

[package]
name = "hurricane"
version = "0.1.0"
edition = "2021"
publish = false

[dependencies]
spin = "0.9"
lazy_static = "1"
riscv = "0.10"
clap = "4"
simple_endian = "0.3"
async-trait = "0.1"
log = "0.4"
bitflags = "1"
buddy_system_allocator = "0.9"

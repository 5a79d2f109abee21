[package]
name = "tos"
version = "0.1.0"
edition = "2021"
publish = false

[dependencies]
riscv = "*"
spin = "*"
lazy_static = "*"
buddy_system_allocator = "*"

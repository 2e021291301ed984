[package]
name = "rcore_kernel"
version = "0.1.0"
edition = "2021"
publish = false

[dependencies]
riscv = "*"
lazy_static = { version = "*", features = ["spin_no_std"] }
spin = "*"
bitflags = "*"

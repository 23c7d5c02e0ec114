[package]
name = "rustyriscy"
version = "0.1.0"
edition = "2021"
publish = false

[dependencies]
lazy_static = { version = "1.5", features = ["spin_no_std"] }
qemu-exit = "*"
spin = "0.9"

[package]
name = "xnu_rs"
version = "0.1.0"
edition = "2021"
publish = false

[dependencies]
clap = { version = "=4.6.7", features = ["derive"] }
fatfs = "=0.3.6"
goblin = "=0.10.7"
gpt = "=4.1.0"
log = "=0.4.35"
lz4_flex = "=0.14.0"
object = { version = "=0.37.3", default-features = false, features = ["read", "std"] }
spin = "=0.12.3"
uefi = { version = "=0.41.0", features = ["alloc"] }

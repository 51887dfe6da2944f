[package]
name = "deepcis_os"
version = "0.1.0"
edition = "2021"
publish = false

[dependencies]
arrayvec = { version = "0.7", default-features = false }
bit_field = "0.10"
x86_64 = { version = "0.14", default-features = false, features = ["instructions"] }
spin = "0.9"
conquer-once = { version = "0.3", default-features = false }
bootloader = "0.10"

[package]
name = "rustycore"
version = "0.2.0"
edition = "2021"
publish = false

[dependencies]
anyhow = "1"
bootloader = { version = "0.11", default-features = false }
bootloader_api = "0.11"
lazy_static = "1"
linked_list_allocator = "0.10"
pic8259 = { version = "0.11", default-features = false }
spin = "0.9"
x86_64 = { version = "0.15", default-features = false, features = ["instructions"] }

[package]
name = "compositor"
version = "0.1.0"
edition = "2021"
publish = false

[dependencies]
crossbeam-queue = "=0.3.14"
bootloader_api = "=0.11.17"
conquer-once = "=0.4.0"
spin = "=0.12.3"
x86_64 = { version = "=0.15.5", default-features = false, features = ["instructions"] }
pic8259 = "=0.11.0"
linked_list_allocator = "=0.10.6"

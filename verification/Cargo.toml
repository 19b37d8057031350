[package]
name = "coral_os"
version = "0.1.0"
edition = "2021"
publish = false

[dependencies]
x86_64 = { version = "0.14", default-features = false, features = ["instructions"] }
bootloader = { version = "0.9", features = ["map_physical_memory"] }
lazy_static = { version = "1", features = ["spin_no_std"] }

[package]
name = "kernel"
version = "0.1.0"
edition = "2021"
publish = false

[dependencies]
x86_64 = { version = "=0.14.13", default-features = false, features = ["instructions"] }
bootloader_api = "=0.11.17"
elf = { version = "=0.7.4", default-features = false }
cpio_reader = "=0.1.2"
pc-keyboard = "=0.9.0"
pic8259 = "=0.10.4"
spin = "=0.9.9"
lazy_static = { version = "=1.5.1", features = ["spin_no_std"] }
acpi = { version = "=5.2.0", default-features = false }

[package]
name = "boot_core"
version = "0.1.0"
edition = "2021"
publish = false

[dependencies]
aml = "=0.12.0"
acpi = "=4.1.1"
uefi = "=0.41.0"
x86_64 = { version = "=0.15.5", default-features = false, features = ["instructions"] }
multiboot2 = "=0.28.0"
log = "=0.4.34"
linked_list_allocator = "=0.10.6"
spinning_top = "=0.3.0"

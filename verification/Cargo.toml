[package]
name = "molecule"
version = "0.1.0"
edition = "2021"
publish = false

[dependencies]
bit_field = "0.10"
bitflags = "2"
byteorder = { version = "1", default-features = false }
limine = "0.5"
linked_list_allocator = "0.10"
log = "0.4"
raw-cpuid = "11"
spin = "0.9"

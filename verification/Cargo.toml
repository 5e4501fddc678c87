[package]
name = "vmm"
version = "0.1.0"
edition = "2021"
publish = false

[dependencies]
displaydoc = "=0.2.7"
event-manager = "=0.4.2"
kvm-ioctls = "=0.25.1"
libc = "=0.2.191"
lz4_flex = { version = "=0.11.6", features = ["frame"] }
thiserror = "=2.0.21"
userfaultfd = "=0.9.0"
vmm-sys-util = "=0.15.0"
xxhash-rust = { version = "=0.8.19", features = ["xxh3"] }

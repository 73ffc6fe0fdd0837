[package]
name = "enlil-core"
version = "0.1.0"
edition = "2021"
publish = false

[dependencies]
anyhow = "1"
kvm-bindings = { version = "0.10", features = ["fam-wrappers"] }
kvm-ioctls = "0.19"
libc = "0.2"
log = "0.4"
thiserror = "1"
vmm-sys-util = "0.12"

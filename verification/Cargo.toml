[package]
name = "lox_bytecode_vm"
version = "0.1.0"
edition = "2021"
publish = false

[dependencies]
slab = "0.4"
rustc-hash = "2"
thiserror = "2"

[package]
name = "clif_interp"
version = "0.1.0"
edition = "2021"
publish = false

[dependencies]
cranelift-codegen = "=0.132.3"
cranelift-entity = "=0.132.3"
cranelift-native = "=0.132.3"
memmap = "=0.7.0"
log = "=0.4.34"
thiserror = "=2.0.21"

[package]
name = "tier2"
version = "0.1.0"
edition = "2021"
publish = false

[dependencies]
cranelift-codegen = "0.119"
cranelift-frontend = "0.119"
cranelift-native = "0.119"

[dev-dependencies]
cranelift-interpreter = "0.119"

[package]
name = "struct_abi"
version = "0.1.0"
edition = "2021"
publish = false

[dependencies]
cranelift = "=0.131.3"
cranelift-jit = "=0.131.3"
cranelift-module = "=0.131.3"
cranelift-native = "=0.131.3"

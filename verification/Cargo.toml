[package]
name = "npu_kernels"
version = "0.1.0"
edition = "2021"
publish = false

[dependencies]
furiosa-opt-std = "=0.5.1"

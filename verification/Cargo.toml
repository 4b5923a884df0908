[package]
name = "miden_kit"
version = "0.1.0"
edition = "2021"
publish = false

[dependencies]
p3-symmetric = "=0.8.0"
thiserror = "=2.0.21"

[package]
name = "mlgraph"
version = "0.1.3"
edition = "2021"
publish = false

[dependencies]
thiserror = "*"

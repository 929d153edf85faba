[package]
name = "classicube-relay"
version = "0.1.0"
edition = "2021"
publish = false

[dependencies]
byteorder = "1.5.0"
lazy_static = "1.5.1"
thiserror = "2.0.21"
tracing = "0.1.44"

[package]
name = "svirpti"
version = "0.1.0"
edition = "2021"
publish = false

[dependencies]
rsmt2 = "*"
thiserror = "1"

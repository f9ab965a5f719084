[package]
name = "n3proof"
version = "0.1.0"
edition = "2021"
publish = false

[dependencies]
anyhow = "*"
oxiri = "*"
oxrdf = "*"
thiserror = "*"

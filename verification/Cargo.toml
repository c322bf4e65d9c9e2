[package]
name = "oxyscheme"
version = "0.1.0"
edition = "2021"
publish = false

[dependencies]
anyhow = "1"
thiserror = "1"

[dev-dependencies]
nom = "7"

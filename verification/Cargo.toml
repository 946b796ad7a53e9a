[package]
name = "projkit"
version = "0.1.0"
edition = "2021"
publish = false

[dependencies]
license = "*"
miette = "*"
serde = { version = "1", features = ["derive"] }
spdx = "*"
thiserror = "*"
toml = "*"
which = "*"

[package]
name = "emphasize"
version = "0.1.0"
edition = "2021"
publish = false

[dependencies]
clap = { version = "3", features = ["derive"] }
clytia = "*"
eyre = "0.6"
git2 = { version = "*", default-features = false }
tokio = { version = "1", features = ["rt-multi-thread", "macros"] }

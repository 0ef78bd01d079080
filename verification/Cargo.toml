[package]
name = "rm8"
version = "0.1.0"
edition = "2021"
publish = false

[dependencies]
anyhow = "*"
clap = { version = "*", features = ["derive"] }
log = "*"
redis = "*"
serde = { version = "*", features = ["derive"] }
stderrlog = "*"
thiserror = "*"

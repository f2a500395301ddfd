[package]
name = "cove_optimizer"
version = "0.1.0"
edition = "2021"
publish = false

[dependencies]
lzma-rs = "*"
sevenz-rust2 = { version = "0.22.2", default-features = false }
serde = { version = "1", features = ["derive"] }
serde_json = "1"
directories = "*"
thiserror = "*"

[package]
name = "qoiparser"
version = "0.1.0"
edition = "2021"

[dependencies]
anyhow = "1"
byteorder = "1"
clap = { version = "4", features = ["derive"] }
thiserror = "1"

[dev-dependencies]
image = { version = "0.24", default-features = false, features = ["qoi"] }

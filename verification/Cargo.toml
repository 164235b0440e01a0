[package]
name = "wasmfxtime"
version = "0.1.0"
edition = "2021"
publish = false

[dependencies]
rustix = { version = "0.38", features = ["mm", "param"] }
thiserror = "1"

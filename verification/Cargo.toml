[package]
name = "deposit_calc"
version = "0.1.0"
edition = "2021"
publish = false

[dependencies]
anyhow = "*"
async-channel = "*"
futures = { version = "*", features = ["thread-pool"] }
rayon = "*"
rust_decimal = "*"
serde = { version = "*", features = ["derive"] }
time = "*"

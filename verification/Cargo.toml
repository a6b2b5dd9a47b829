[package]
name = "record"
version = "0.1.0"
edition = "2021"
publish = false

[dependencies]
anyhow = "1"
rand = "=0.8.8"
serde = { version = "1", features = ["derive"] }
serde_json = "1"
snarkvm-algorithms = { version = "=0.8.0", default-features = false, features = ["full"] }
snarkvm-curves = { version = "=0.8.0", default-features = false }
snarkvm-fields = { version = "=0.8.0", default-features = false }
snarkvm-utilities = "=0.8.0"

[dev-dependencies]
bincode = "1.3"

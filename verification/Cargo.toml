[package]
name = "zeppelin_core"
version = "0.1.0"
edition = "2021"
publish = false

[dependencies]
sha3 = "0.10"
argon2 = "0.5"
rand = "0.8"
rand_chacha = "0.3"
serde = { version = "1", features = ["derive"] }
serde_json = "1"
zip = { version = "0.6", default-features = false, features = ["deflate"] }
console = "0.15"

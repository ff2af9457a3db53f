[package]
name = "disco_save"
version = "0.1.0"
edition = "2021"
publish = false

[dependencies]
byteorder = "1"
dirs = "5"
serde = { version = "1", features = ["derive"] }
serde_json = "1"
zip = { version = "2", default-features = false, features = ["deflate"] }

[dev-dependencies]
regex = "1"

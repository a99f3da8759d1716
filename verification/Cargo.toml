[package]
name = "mycel"
version = "0.1.0"
edition = "2021"
publish = false

[dependencies]
anyhow = "1"
chrono = "0.4"
clap = { version = "4", features = ["derive"] }
colored = "2"
flate2 = "1"
hex = "0.4"
indicatif = "0.17"
reqwest = { version = "0.12", default-features = false, features = ["blocking", "rustls-tls"] }
serde = { version = "1", features = ["derive"] }
sha2 = "0.10"
tar = "0.4"
toml = "0.8"
toml_edit = "0.22"
zip = { version = "2", default-features = false, features = ["deflate"] }
zstd = "0.13"

[package]
name = "rust_sdt"
version = "0.1.0"
edition = "2021"
publish = false

[dependencies]
anyhow = "1"
burn-ir = "0.21"
clap = { version = "4", features = ["derive"] }
hashbrown = "0.16"
ndarray = "0.16"
rand = "0.8"
rand_distr = "0.4"
reqwest = { version = "0.12", default-features = false, features = ["blocking", "json", "rustls-tls"] }
serde = { version = "1", features = ["derive"] }
serde_json = "1"
smallvec = "1"
spin = "0.9"
zip = { version = "0.6", default-features = false, features = ["deflate"] }

[package]
name = "updatekit"
version = "0.1.0"
edition = "2021"
publish = false

[dependencies]
clap = { version = "*", features = ["derive"] }
indicatif = "*"
reqwest = { version = "*", default-features = false, features = ["blocking", "json", "rustls-tls"] }
serde = { version = "*", features = ["derive"] }
zip = { version = "*", default-features = false, features = ["deflate"] }

[dev-dependencies]
semver = "*"

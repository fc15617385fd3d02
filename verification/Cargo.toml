[package]
name = "borneo"
version = "0.1.0"
edition = "2021"
publish = false

[dependencies]
anyhow = "1"
backoff = { version = "0.4", features = ["tokio"] }
bytes = "1"
camino = "1"
clap = { version = "4", features = ["derive"] }
dashmap = "6"
futures-util = "0.3"
globset = "0.4"
hex = "0.4"
indicatif = "*"
kdl = "6"
md-5 = "0.10"
miette = { version = "7", features = ["fancy"] }
quick-xml = { version = "*", features = ["serialize"] }
regex = "1"
reqwest = { version = "0.12", default-features = false, features = ["rustls-tls"] }
serde = { version = "1", features = ["derive"] }
sha1 = "0.10"
sha2 = "0.10"
thiserror = "2"
tokio = { version = "1", features = ["full"] }
walkdir = "2"
zip = { version = "*", default-features = false }

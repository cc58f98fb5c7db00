[package]
name = "spritecollab"
version = "0.1.0"
edition = "2021"
publish = false

[dependencies]
anyhow = "1"
chrono = "0.4"
csv = "1"
dotenv = "0.15"
fred = "*"
fuzzy-matcher = "0.3"
git2 = { version = "*", default-features = false }
hyper = { version = "0.14", features = ["full"] }
image = { version = "0.24", default-features = false, features = ["png"] }
indexmap = "2"
log = "0.4"
pretty_env_logger = "0.5"
regex = "1"
route-recognizer = "0.3"
serde = { version = "1", features = ["derive"] }
serde_json = "1"
serde-xml-rs = "0.6"
tokio = { version = "1", features = ["full"] }
zip = { version = "2", default-features = false, features = ["deflate"] }

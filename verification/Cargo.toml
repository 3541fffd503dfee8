[package]
name = "securum_exire"
version = "0.1.0"
edition = "2021"
publish = false

[dependencies]
aho-corasick = "0.7"
ring = "0.16"
md5 = "0.7"
regex = "1"
serde = { version = "1", features = ["derive"] }
serde_derive = "1"
serde_json = "1"
toml = "0.5"
actix-web = "4"
redis = { version = "0.23", features = ["tokio-comp"] }
tokio = { version = "1", features = ["full"] }
futures = "0.3"
futures-util = "0.3"
reqwest = { version = "0.11", default-features = false, features = ["json"] }
hotwatch = "0.4"
colour = "*"
env_logger = "0.9"
clap = "3"
simple-error = "0.2"

[dev-dependencies]
data-encoding = "2"

[package]
name = "pathfinder"
version = "0.1.0"
edition = "2021"
publish = false

[dependencies]
config = { version = "0.14", default-features = false, features = ["toml", "yaml", "json", "json5", "ini"] }
glob = "0.3"
libc = "0.2"
pathfinding = "=4.16.0"
prometheus-client = "0.22"
rand = "0.8"
rand_chacha = "0.3"
rand_distr = "0.4"
reqwest = { version = "0.11", default-features = false, features = ["blocking", "json", "rustls-tls"] }
serde = { version = "1", features = ["derive"] }
serde_json = "1"
thiserror = "1"
tiny_http = "0.12"
tokio = { version = "1", features = ["rt-multi-thread"] }

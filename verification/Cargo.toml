[package]
name = "pasta_p2p"
version = "0.1.0"
edition = "2021"
publish = false

[dependencies]
arboard = { version = "3", default-features = false }
base64 = "0.22"
bincode = "1.3"
chrono = "0.4"
crossterm = "0.27"
get_if_addrs = "0.5"
laminar = "0.5"
quinn = { version = "0.11", default-features = false, features = ["runtime-tokio"] }
ratatui = "0.26"
rfd = { version = "0.14", default-features = false, features = ["xdg-portal", "tokio"] }
serde = { version = "1", features = ["derive"] }
serde_json = "1"
stunclient = "0.4"
tokio = { version = "1", features = ["full"] }

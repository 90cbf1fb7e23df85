[package]
name = "gh_board"
version = "0.1.0"
edition = "2021"
publish = false

[dependencies]
chrono = { version = "*", default-features = false, features = ["std"] }
clap = { version = "*", features = ["derive", "env"] }
color-eyre = "*"
reqwest = { version = "*", default-features = false, features = ["blocking", "rustls-tls"] }
serde_json = "*"
tl = "*"

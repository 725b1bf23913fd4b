[package]
name = "mayday"
version = "0.1.0"
edition = "2021"
publish = false

[dependencies]
hashicorp_vault = "*"
reqwest = { version = "0.11", features = ["blocking", "json"] }
serde = { version = "1", features = ["derive"] }
slog = "2"
structopt = "0.3"

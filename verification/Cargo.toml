[package]
name = "league_director"
version = "0.6.0"
edition = "2021"
publish = false

[dependencies]
directories = "5"
serde = { version = "1", features = ["derive"] }
serde_json = "1"
thiserror = "1"
reqwest = { version = "0.12", default-features = false, features = ["blocking", "json", "rustls-tls"] }
image = { version = "0.25", default-features = false, features = ["png"] }

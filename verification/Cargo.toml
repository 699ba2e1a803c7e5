[package]
name = "aether_kernel"
version = "0.3.0"
edition = "2021"
publish = false

[dependencies]
serde = { version = "1", features = ["derive"] }
serde_json = "1"
tokio = { version = "1", features = ["full"] }
reqwest = { version = "0.12", default-features = false, features = ["json", "rustls-tls"] }
chrono = "0.4"
uuid = { version = "1", features = ["v4"] }
pest = "2"
pest_derive = "2"
axum = "0.7"
tower-http = { version = "0.5", features = ["cors"] }

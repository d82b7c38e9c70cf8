[package]
name = "crowdsec_map"
version = "0.5.0"
edition = "2021"
publish = false

[dependencies]
chrono = "0.4"
regex = "1"
serde = { version = "1", features = ["derive"] }
serde_json = "1"
tokio = { version = "1", features = ["full"] }
axum = "0.8"
tower-http = { version = "0.6", features = ["fs"] }
reqwest = { version = "0.12", default-features = false, features = ["json", "rustls-tls"] }
bollard = "*"
futures-util = "0.3"
rusqlite = { version = "*", features = ["bundled"] }
maxminddb = "*"
flate2 = "1"
glob = "0.3"
lettre = { version = "0.11", default-features = false, features = ["builder", "smtp-transport", "tokio1", "tokio1-rustls-tls", "hostname"] }
askama = "*"
tracing = "0.1"
tracing-subscriber = { version = "0.3", features = ["env-filter"] }

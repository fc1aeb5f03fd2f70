[package]
name = "grepolis_diff"
version = "0.1.0"
edition = "2021"
publish = false

[dependencies]
anyhow = "1"
axum = "0.6"
chrono = { version = "0.4", features = ["serde"] }
form_urlencoded = "1"
postcard = { version = "1", features = ["alloc"] }
reqwest = { version = "0.11", default-features = false, features = ["blocking", "gzip", "deflate", "rustls-tls"] }
rusqlite = { version = "0.31", features = ["bundled", "chrono"] }
serde = { version = "1", features = ["derive"] }
tokio = { version = "1", features = ["rt-multi-thread"] }
tracing = "0.1"
tracing-subscriber = { version = "0.3", features = ["env-filter"] }

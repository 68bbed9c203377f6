[package]
name = "dna_store"
version = "0.1.0"
edition = "2021"
publish = false

[dependencies]
base64 = "*"
ring = "*"
uuid = { version = "*", features = ["v4"] }
serde = { version = "*", features = ["derive"] }
serde_json = "*"
actix-web = "*"
tokio = { version = "*", features = ["macros", "rt-multi-thread", "time"] }
reqwest = { version = "*", default-features = false, features = ["json", "rustls-tls"] }
tracing = "*"
tracing-subscriber = { version = "*", features = ["env-filter", "fmt"] }

[package]
name = "hypergraphsql"
version = "0.1.0"
edition = "2021"
publish = false

[dependencies]
sqlx = { version = "*", default-features = false, features = ["sqlite", "runtime-tokio"] }
serde = { version = "*", features = ["derive"] }
serde_json = "*"
chrono = { version = "*", default-features = false, features = ["clock", "serde"] }

[dev-dependencies]
tokio = { version = "*", features = ["rt", "time"] }

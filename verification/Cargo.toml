[package]
name = "event_ledger"
version = "0.1.0"
edition = "2021"
publish = false

[dependencies]
actix-cors = "0.6"
actix-files = "0.6"
actix-session = { version = "0.7", features = ["redis-rs-session"] }
actix-web = "4"
chrono = { version = "0.4", features = ["serde"] }
diesel = { version = "2", features = ["postgres", "r2d2", "uuid", "chrono"] }
dotenvy = "0.15"
env_logger = "0.10"
jsonwebtoken-google = "*"
serde = { version = "1", features = ["derive"] }
uuid = { version = "1", features = ["serde"] }

[package]
name = "whois_president"
version = "0.1.0"
edition = "2021"
publish = false

[dependencies]
chrono = { version = "0.4", features = ["serde"] }
regex = "1"
unidecode = "0.3"
serde = { version = "1", features = ["derive"] }
mongodb = "2"
tokio = { version = "1", features = ["macros", "rt-multi-thread"] }
futures-util = "0.3"
actix-web = "4"
whois-rust = "1"
env_logger = "0.10"
log = "0.4"

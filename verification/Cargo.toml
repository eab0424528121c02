[package]
name = "rsground"
version = "0.1.0"
edition = "2021"
publish = false

[dependencies]
cola-crdt = "=0.1.1"
uuid = { version = "=1.29.0", features = ["v4", "serde"] }
serde = { version = "=1.0.229", features = ["derive"] }
serde_json = "=1.0.154"
jsonwebtoken = "=9.3.1"
actix = "=0.13.5"
actix-web = { version = "=4.18.1", default-features = false, features = ["macros", "ws"] }
actix-web-actors = "=4.3.1"
chrono = "=0.4.45"
dotenv = "=0.15.0"
env_logger = "=0.11.11"
futures = "=0.3.34"
log = "=0.4.35"
oauth2 = { version = "=4.4.2", default-features = false, features = ["reqwest", "rustls-tls"] }
reqwest = { version = "=0.11.27", default-features = false, features = ["json", "rustls-tls"] }
hakoniwa = { version = "=1.8.0", default-features = false }
thiserror = "=1.0.69"
tokio = { version = "=1.54.1", features = ["macros", "rt-multi-thread"] }

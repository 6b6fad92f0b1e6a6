[package]
name = "qpackt"
version = "0.1.0"
edition = "2021"
publish = false

[dependencies]
acme-lib = "=0.9.1"
actix-files = "=0.6.10"
actix-multipart = "=0.6.2"
actix-web = { version = "=4.15.0", default-features = false, features = ["cookies", "macros", "rustls-0_21"] }
arc-swap = "=1.9.2"
awc = { version = "=3.8.2", default-features = false, features = ["cookies"] }
chrono = { version = "=0.4.45", default-features = false, features = ["clock", "serde", "std"] }
env_logger = { version = "=0.10.2", default-features = false }
futures = "=0.3.34"
futures-util = { version = "=0.3.34", default-features = false }
log = "=0.4.34"
rand = "=0.8.8"
rustls = "=0.21.12"
scrypt = "=0.11.0"
serde = { version = "=1.0.229", features = ["derive"] }
serde_json = "=1.0.151"
sqlx = { version = "=0.7.4", default-features = false, features = ["runtime-tokio", "sqlite", "migrate"] }
tokio = { version = "=1.53.2", features = ["macros", "rt-multi-thread", "signal", "sync", "time", "fs"] }
url = "=2.5.8"
zip = { version = "=0.6.6", default-features = false, features = ["deflate"] }

[package]
name = "create_woragis_api"
version = "1.0.0"
edition = "2021"
publish = false

[dependencies]
actix-web = { version = "4", default-features = false }
bcrypt = "*"
clap = { version = "4", features = ["derive"] }
deadpool-redis = "*"
jsonwebtoken = "9"
log = "0.4"
openssl = "0.10"
serde = { version = "1", features = ["derive"] }
serde_json = "1"
tokio = { version = "1", features = ["rt-multi-thread", "macros", "sync"] }
tokio-postgres = "0.7"
uuid = "1"

[package]
name = "mundus-animarum"
version = "0.1.1"
edition = "2021"
publish = false

[dependencies]
axum = { version = "=0.8.9", default-features = false, features = ["tokio", "http1"] }
clap = { version = "=4.6.7", features = ["derive"] }
dotenv = "=0.15.0"
envconfig = "=0.11.1"
futures = "=0.3.34"
http = "=1.5.0"
objectiveai-sdk = { version = "=2.2.16", default-features = false, features = ["cli", "lockfile"] }
rmcp = { version = "1.7", features = ["server", "macros", "transport-streamable-http-server"] }
serde = { version = "=1.0.229", features = ["derive"] }
serde_json = "=1.0.154"
sqlx = { version = "=0.8.6", default-features = false, features = ["postgres", "runtime-tokio"] }
thiserror = "=2.0.21"
tokio = { version = "=1.54.1", features = ["macros", "rt-multi-thread", "sync", "net"] }
tokio-util = { version = "=0.7.20", default-features = false }

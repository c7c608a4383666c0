[package]
name = "deepseek_pool"
version = "0.1.0"
edition = "2021"
publish = false

[dependencies]
uuid = { version = "=1.27.0", features = ["v4"] }
rand = "=0.10.3"
regex = "*"
chrono = "=0.4.45"
base64 = "=0.23.1"
serde = { version = "*", features = ["derive"] }
serde_json = "*"
thiserror = "*"
anyhow = "*"
axum = "*"
reqwest = { version = "*", default-features = false, features = ["json", "cookies"] }
tokio = { version = "*", features = ["rt-multi-thread", "macros", "sync", "time", "net"] }
tokio-stream = "*"
futures-util = "*"
tower = "*"
tower-http = { version = "*", features = ["cors", "trace"] }
tracing = "*"
tracing-subscriber = { version = "*", features = ["env-filter", "fmt"] }
parking_lot = "*"
dotenv = "*"
colored = "*"

[package]
name = "fms_dispatch"
version = "0.1.0"
edition = "2021"
publish = false

[dependencies]
chrono = { version = "0.4", default-features = false, features = ["std", "clock"] }
sha2 = "0.10"
hex = "0.4"
ulid = "1"
serde_json = "1"
thiserror = "1"
tracing = "0.1"
tokio = { version = "1", default-features = false, features = ["rt", "time"] }

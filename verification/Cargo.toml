[package]
name = "control_plane"
version = "0.1.0"
edition = "2021"
publish = false

[dependencies]
arrow-array = "58"
arrow-schema = "58"
arrow-select = "58"
async-trait = "0.1"
bytes = "1"
futures = "0.3"
hex = "0.4"
hmac = "0.12"
iceberg = { version = "0.10", default-features = false }
object_store = { version = "0.13", features = ["aws"] }
parking_lot = "0.12"
parquet = { version = "58", default-features = false, features = ["arrow"] }
reqwest = { version = "0.12", default-features = false }
serde = { version = "1", features = ["derive"] }
serde_json = "1"
sha2 = "0.10"
sqlx = { version = "0.9", default-features = false, features = ["runtime-tokio", "postgres", "uuid", "time", "json"] }
tempfile = "3"
thiserror = "2"
time = { version = "0.3", features = ["formatting"] }
tokio = { version = "1", features = ["sync", "time", "rt"] }
tracing = "0.1"
typetag = "0.2"
uuid = { version = "1", features = ["v4"] }

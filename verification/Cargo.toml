[package]
name = "vfs-storage-hub"
version = "0.1.0"
edition = "2021"
publish = false

[dependencies]
aes = "=0.8.4"
anyhow = "1"
async-trait = "0.1"
base64 = "=0.22.1"
bytes = "1"
chrono = { version = "0.4", features = ["serde"] }
ctr = "=0.9.2"
dashmap = "=6.2.1"
futures = "0.3"
hex = "=0.4.3"
hmac = "=0.12.1"
once_cell = "1"
opendal = { version = "0.55", default-features = false, features = ["services-fs", "services-memory"] }
percent-encoding = "=2.3.2"
rand = "=0.8.8"
rayon = "1"
sea-orm = { version = "1", default-features = false, features = ["macros", "with-chrono", "with-uuid", "with-json"] }
serde = { version = "1", features = ["derive"] }
serde_json = "1"
sha2 = "=0.10.9"
thiserror = "2"
tokio = { version = "1", features = ["fs", "io-util", "macros", "rt", "rt-multi-thread", "sync", "time"] }
tokio-util = { version = "0.7", features = ["io", "compat"] }
uuid = { version = "=1.29.0", features = ["v4", "v7", "serde"] }

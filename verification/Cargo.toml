[package]
name = "room_sync"
version = "0.1.0"
edition = "2021"
publish = false

[dependencies]
async-rx = "=0.2.1"
async-stream = "=0.3.6"
async_cell = "=0.2.3"
eyeball = "=0.8.8"
eyeball-im = "=0.9.1"
eyeball-im-util = "=0.11.0"
futures-core = "=0.3.34"
futures-util = "=0.3.34"
imbl = "=7.0.2"
indexmap = "=2.14.2"
ruma = { version = "=0.17.2", features = ["client-api-c", "events", "unstable-msc4186"] }
serde = { version = "=1.0.229", features = ["derive"] }
serde_json = "=1.0.154"
thiserror = "=2.0.21"
tokio = { version = "=1.54.1", features = ["sync", "time", "rt", "macros"] }
tracing = "=0.1.44"

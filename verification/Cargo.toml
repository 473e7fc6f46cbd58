[package]
name = "kxen_core"
version = "0.1.0"
edition = "2021"
publish = false

[dependencies]
dirs = "*"
futures = "*"
globset = "*"
reqwest = { version = "0.12", default-features = false, features = ["json", "stream"] }
serde = { version = "1", features = ["derive"] }
serde_json = "1"
sha2 = "0.10"
time = { version = "0.3", features = ["formatting", "parsing", "macros"] }
tokio = { version = "1", features = ["sync", "time", "macros", "rt"] }
tracing = "0.1"
trash = "*"
uuid = { version = "1", features = ["v4"] }

[package]
name = "sshllm"
version = "0.1.0"
edition = "2021"
publish = false

[dependencies]
anyhow = "=1.0.104"
chrono = "=0.4.45"
clap = { version = "=4.6.7", features = ["derive", "env"] }
hex = "=0.4.3"
rand = "=0.10.3"
reqwest = { version = "=0.13.5", default-features = false, features = ["json"] }
russh = "=0.64.1"
serde = { version = "=1.0.229", features = ["derive"] }
serde_json = "=1.0.151"
sha2 = "=0.11.0"
tokio = { version = "=1.53.2", features = ["rt-multi-thread", "macros", "sync", "io-util", "net", "time"] }
tracing = "=0.1.44"
tracing-subscriber = { version = "=0.3.23", features = ["env-filter", "fmt"] }

[package]
name = "agentenv"
version = "0.1.0"
edition = "2021"
publish = false

[dependencies]
anyhow = "1"
async-trait = "0.1"
base64 = "0.22"
bytes = "1"
confique = { version = "0.4", default-features = false }
console-subscriber = { version = "0.5", default-features = false }
futures = { version = "0.3", default-features = false, features = ["std"] }
iroh = { version = "1", default-features = false, features = ["tls-ring"] }
libc = "0.2"
nix = { version = "0.30", features = ["user", "sched"] }
rustix = { version = "1", features = ["event", "process"] }
serde = { version = "1", features = ["derive"] }
serde_json = "1"
time = { version = "0.3", features = ["formatting"] }
tokio = { version = "1", features = ["fs", "io-util", "macros", "net", "rt-multi-thread", "sync", "time"] }
tokio-metrics = { version = "0.4", features = ["rt"] }
tracing = "0.1"
tracing-flame = { version = "0.2", default-features = false }
tracing-subscriber = { version = "0.3", default-features = false, features = ["std", "registry", "env-filter"] }

[package]
name = "central"
version = "0.1.0"
edition = "2021"
publish = false

[dependencies]
serde_json = "=1.0.151"
urlencoding = "=2.1.3"
serde = { version = "=1.0.228", features = ["derive"] }
clap = { version = "=4.6.7", features = ["derive", "env"] }
reqwest = { version = "=0.13.5", default-features = false }
tokio = { version = "=1.53.2", features = ["macros", "rt-multi-thread", "time", "signal"] }
warp = { version = "=0.4.3", features = ["server"] }
chrono = "=0.4.45"
whoami = "=2.1.3"

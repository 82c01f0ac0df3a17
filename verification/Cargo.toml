[package]
name = "diskmon_mail"
version = "0.3.0"
edition = "2021"
publish = false

[dependencies]
backoff = "0.4"
chrono = { version = "0.4", features = ["serde"] }
clap = { version = "4", features = ["derive"] }
colored = "2"
env_logger = "0.11"
hostname = "0.4"
lettre = "0.11"
log = "0.4"
serde = { version = "1", features = ["derive"] }
serde_json = "1"
serde_yaml = "0.9"
sysinfo = "0.30"
tokio = { version = "1", features = ["macros", "rt-multi-thread", "time"] }

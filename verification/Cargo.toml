[package]
name = "qywx_dumper"
version = "0.1.0"
edition = "2021"
publish = false

[dependencies]
anyhow = "=1.0.104"
clap = { version = "=4.6.7", features = ["derive", "env"] }
clap-verbosity-flag = "=3.0.4"
log = "=0.4.34"
pretty_env_logger = "=0.5.0"
reqwest = { version = "=0.13.5", default-features = false, features = ["json", "query", "socks"] }
serde = { version = "=1.0.229", features = ["derive"] }
serde_json = "=1.0.151"
tokio = { version = "=1.53.2", features = ["rt-multi-thread", "macros", "time"] }

[package]
name = "rosenpass_control"
version = "0.1.0"
edition = "2021"
publish = false

[dependencies]
anyhow = "1"
clap = { version = "4", features = ["derive"] }
clap_complete = "4"
clap_mangen = "0.2"
env_logger = "0.11"
libc = "0.2"
log = "0.4"
mio = { version = "1", features = ["os-poll", "net"] }
thiserror = "1"
tokio = { version = "1", features = ["rt-multi-thread", "macros", "net", "io-util", "process", "sync"] }

[package]
name = "regmsg"
version = "0.1.0"
edition = "2021"
publish = false

[dependencies]
chrono = "*"
toml = "*"
serde = { version = "*", features = ["derive"] }
serde_json = "*"
swayipc = "*"
drm = "*"
zeromq = { version = "*", default-features = false, features = ["async-std-runtime", "all-transport"] }
async-std = { version = "*", features = ["attributes"] }
futures = "*"
signal-hook = "*"
signal-hook-async-std = "*"
log = "*"
env_logger = "*"
simplelog = "*"
clap = { version = "*", features = ["derive"] }
tracing = "*"
tracing-subscriber = { version = "*", features = ["env-filter"] }
tracing-appender = "*"
hostname = "*"
zmq = "*"
thiserror = "*"

[package]
name = "restkv"
version = "0.1.0"
edition = "2021"
publish = false

[dependencies]
bytes = "1"
kv = "*"
lazy_static = "1"
log = "0.4"
pretty_env_logger = "*"
rand = "0.8"
regex = "1"
tokio = { version = "1", features = ["macros", "rt-multi-thread"] }
warp = "0.3"

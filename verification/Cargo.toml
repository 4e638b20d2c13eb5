[package]
name = "netflow"
version = "0.1.0"
edition = "2021"
publish = false

[dependencies]
chrono = "*"
log = "*"
env_logger = "*"
dotenvy = "*"
futures-util = "*"
tokio = { version = "*", features = ["rt-multi-thread", "macros"] }
sqlx = { version = "*", default-features = false, features = ["sqlite", "runtime-tokio"] }
ethers-core = "*"
ethers-providers = { version = "*", default-features = false, features = ["ws"] }

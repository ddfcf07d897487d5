[package]
name = "horcrust"
version = "0.1.0"
edition = "2021"
publish = false

[dependencies]
aes-gcm = "=0.10.3"
anyhow = "=1.0.104"
clap = { version = "=4.6.7", features = ["derive"] }
env_logger = "=0.10.2"
log = "=0.4.34"
num-bigint = "=0.4.8"
num-traits = "=0.2.19"
rand = "=0.8.8"

[dev-dependencies]
prost = "=0.12.6"

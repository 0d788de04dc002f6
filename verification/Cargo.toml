[package]
name = "unitman"
version = "0.1.0"
edition = "2021"
publish = false

[dependencies]
sysinfo = "0.29"
users = "0.11"
humantime = "2"
toml = "0.8"
serde = { version = "1", features = ["derive"] }
argparse = "0.2"
env_logger = "0.10"
log = "0.4"
process_control = "4"
tabled = "0.14"

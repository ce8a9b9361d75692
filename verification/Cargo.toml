[package]
name = "prip"
version = "0.1.0"
edition = "2021"
publish = false

[dependencies]
anyhow = "1"
clap = { version = "4", features = ["derive"] }
clap-verbosity-flag = "2"
ctrlc = "3"
env_logger = "0.11"
gphoto2 = "3"
indicatif = "0.17"
inquire = "0.7"
log = "0.4"

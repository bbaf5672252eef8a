[package]
name = "blispr"
version = "0.1.0"
edition = "2021"
publish = false

[dependencies]
hashbrown = "0.14"
clap = { version = "3", features = ["derive"] }
rustyline = "9"
log = "0.4"
pretty_env_logger = "0.4"

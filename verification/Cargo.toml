[package]
name = "osiris"
version = "0.1.0"
edition = "2021"
publish = false

[dependencies]
clap = { version = "4", features = ["derive"] }
flexi_logger = "*"
log = "0.4"
rand = "0.8"
tokio = { version = "1", features = ["macros", "net", "rt-multi-thread", "sync", "time"] }

[dev-dependencies]
bincode = "1.3"
fake = "*"

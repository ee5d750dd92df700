[package]
name = "giveaway"
version = "0.1.0"
edition = "2021"
publish = false

[dependencies]
itertools = "0.9"
rand = "0.7"
regex = "1"
clap = "2.33"
log = "0.4"
simple_logger = "1"
reqwest = { version = "0.10", features = ["json"] }
serde = { version = "1", features = ["derive"] }
tokio = { version = "0.2", features = ["macros", "rt-threaded"] }
winapi = { version = "0.3", features = ["shellapi", "winuser"] }

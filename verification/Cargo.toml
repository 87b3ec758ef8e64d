[package]
name = "ninebynine"
version = "0.1.0"
edition = "2021"
publish = false

[dependencies]
chrono = { version = "*", features = ["serde"] }
serde = { version = "*", features = ["derive"] }
reqwest = { version = "*", default-features = false, features = ["json"] }
tokio = { version = "*", features = ["macros", "rt-multi-thread"] }
clap = { version = "*", features = ["derive"] }
requestty = "*"
indicatif = "*"
rand = "*"
async-std = "*"

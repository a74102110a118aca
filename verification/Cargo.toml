[package]
name = "puc"
version = "0.1.0"
edition = "2021"
publish = false

[dependencies]
evalexpr = "*"
clap = { version = "4", features = ["derive"] }
serde = { version = "1", features = ["derive"] }
serde_json = "1"
chrono = "*"
lazy_static = "*"
csv = "*"
num-rational = "*"
strum = { version = "*", features = ["derive"] }
rust-i18n = "*"
rmcp = { version = "*", features = ["server", "transport-io", "macros"] }
tokio = { version = "1", features = ["rt-multi-thread", "macros", "io-std"] }

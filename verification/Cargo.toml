[package]
name = "monzo_finops"
version = "0.1.0"
edition = "2021"
publish = false

[dependencies]
itertools = "=0.15.0"
monzo-lib = "=0.4.6"
tokio = { version = "=1.54.1", features = ["macros", "rt-multi-thread", "time"] }
clap = { version = "=4.6.7", features = ["derive", "env"] }
serde = { version = "=1.0.229", features = ["derive"] }
chrono = "=0.4.45"
csv = "=1.4.0"
toml = "=1.1.8"
thiserror = "=2.0.21"

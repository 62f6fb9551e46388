[package]
name = "rusted_feelings"
version = "0.1.0"
edition = "2021"
publish = false

[dependencies]
anyhow = "=1.0.104"
charming = "=0.6.0"
chrono = "=0.4.45"
clap = { version = "=4.6.7", features = ["derive"] }
color-eyre = "=0.6.5"
indexmap = "=2.14.2"
log = "=0.4.34"
log4rs = "=1.4.0"
rusqlite = { version = "=0.40.2", features = ["chrono", "fallible_uint"] }
rust_decimal = "=1.43.0"
tabled = "=0.22.0"
thiserror = "=1.0.69"

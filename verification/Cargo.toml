[package]
name = "limabean_booking"
version = "0.1.0"
edition = "2021"
publish = false

[dependencies]
rust_decimal = "=1.43.0"
hashbrown = "=0.17.1"
time = "=0.3.55"
beancount-parser-lima = "=0.16.3"
clap = { version = "=4.6.7", features = ["derive"] }
tracing = "=0.1.44"
tracing-subscriber = { version = "=0.3.23", features = ["env-filter"] }
tabulator = { version = "=0.6.0", features = ["json"] }
serde_json = "=1.0.154"

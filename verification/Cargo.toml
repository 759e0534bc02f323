[package]
name = "quic_lab"
version = "0.1.0"
edition = "2021"
publish = false

[dependencies]
anyhow = "1"
flate2 = "1"
governor = "*"
indicatif = "*"
log = { version = "0.4", features = ["serde"] }
mio = { version = "1", features = ["net", "os-poll"] }
rayon = "1"
serde = { version = "1", features = ["derive"] }
serde_json = "1"
toml = "*"
tquic = "*"
tracing-appender = "*"
tracing-log = "*"
tracing-subscriber = { version = "*", features = ["env-filter", "fmt", "time"] }

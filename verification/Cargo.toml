[package]
name = "librojo"
version = "0.1.0"
edition = "2021"
publish = false

[dependencies]
sha1 = "=0.10.7"
clap = { version = "=4.6.7", features = ["derive"] }
log = "=0.4.35"
termcolor = "=1.4.1"
anyhow = "=1.0.104"
json5 = "=0.4.1"
serde_json = "=1.0.154"
flate2 = "=1.1.10"
walkdir = "=2.5.0"
tracing = "0.1"
tracing-subscriber = { version = "0.3", features = ["env-filter", "time"] }
tracing-appender = "0.2"
tracing-log = "0.2"

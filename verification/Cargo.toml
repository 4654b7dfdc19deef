[package]
name = "arithmetics"
version = "0.1.0"
edition = "2021"
publish = false

[dependencies]
rust_decimal = "=1.43.0"
bigdecimal = "=0.4.11"
fixed = "=1.31.0"
half = "=2.7.1"
chrono = { version = "=0.4.45", features = ["serde"] }
clap = { version = "=4.6.7", features = ["derive"] }
serde = { version = "=1.0.229", features = ["derive"] }
serde_json = "=1.0.154"
toml = "=1.1.8"
num_cpus = "=1.17.0"
libc = "=0.2.191"
winapi = { version = "=0.3.9", features = ["sysinfoapi"] }

[dev-dependencies]
fastnum = "=0.7.5"

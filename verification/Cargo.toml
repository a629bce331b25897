[package]
name = "aeroshell"
version = "0.1.0"
edition = "2021"
publish = false

[dependencies]
chrono = "=0.4.45"
ctrlc = "=3.5.2"
nu-ansi-term = "=0.50.3"
reedline = "=0.44.0"
serde = { version = "=1.0.229", features = ["derive"] }
shlex = "=1.3.0"
sysinfo = "=0.39.6"
toml = "=1.1.8"
zip = "=9.1.0"

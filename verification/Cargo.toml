[package]
name = "skillsrs"
version = "0.1.0"
edition = "2021"
publish = false

[dependencies]
glob = "=0.3.4"
regex = "=1.13.1"
semver = "=1.0.28"
blake3 = "=1.8.7"
directories = "=5.0.1"
serde = { version = "=1.0.229", features = ["derive"] }
serde_json = "=1.0.154"
serde_yaml = "=0.9.34"
clap = { version = "=4.6.7", features = ["derive"] }
tempfile = "=3.27.0"
chrono = { version = "0.4", features = ["serde"] }

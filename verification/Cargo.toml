[package]
name = "spfs"
version = "0.1.0"
edition = "2021"
publish = false

[dependencies]
url = { version = "=2.5.8", features = ["serde"] }
relative-path = "=2.0.3"
semver = "=1.0.28"
whoami = "=2.1.3"
expanduser = "=1.2.2"
itertools = "=0.15.0"
serde_json = "=1.0.154"
colored = "=3.1.1"
serde = { version = "=1.0.229", features = ["derive"] }
serde_yaml = "=0.9.34"
clap = { version = "=4.6.7", features = ["derive"] }
tokio = { version = "=1.54.1", features = ["rt-multi-thread", "macros", "fs", "io-util", "io-std"] }
indicatif = "=0.18.6"
tracing = "=0.1.44"
miette = "=7.6.0"
strum = { version = "=0.28.0", features = ["derive"] }
lazy_static = "=1.5.1"
async-trait = "=0.1.92"
futures = "=0.3.34"
config = "0.14"

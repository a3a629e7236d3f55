[package]
name = "solhunt"
version = "0.1.0"
edition = "2021"
publish = false

[dependencies]
semver = "=1.0.28"
yansi = "=0.5.1"
itertools = "=0.10.5"
glob = "=0.3.4"
eyre = "=0.6.14"
bytes = "=1.12.1"
serde_json = "=1.0.154"
ethers-solc = { version = "=2.0.14", default-features = false, features = ["project-util"] }

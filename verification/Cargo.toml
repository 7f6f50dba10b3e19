[package]
name = "aero_relay"
version = "0.1.0"
edition = "2021"
publish = false

[dependencies]
hex = "=0.4.3"
prost = "=0.13.5"
ibc-proto = "=0.52.0"
blake3 = "=1.8.7"
serde = { version = "=1.0.229", features = ["derive"] }
toml = "=0.8.23"
tokio = { version = "=1.53.2", features = ["full"] }
tendermint = "=0.40.4"
tendermint-rpc = { version = "=0.40.4", features = ["http-client"] }
tracing = "=0.1.44"
tracing-appender = "=0.2.5"
tracing-subscriber = { version = "=0.3.23", features = ["env-filter"] }
anyhow = "=1.0.104"
quinn = { version = "=0.11.12", default-features = false, features = ["runtime-tokio", "rustls-ring", "log"] }
rustls = { version = "=0.23.45", default-features = false, features = ["ring", "logging", "std", "tls12"] }
rustls-pki-types = "=1.15.1"
rcgen = "=0.14.10"
snow = "=0.10.0"
halo2_proofs = "=0.4.0"
rand_core = "=0.10.1"

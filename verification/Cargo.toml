[package]
name = "icrc7"
version = "0.1.0"
edition = "2021"
publish = false

[dependencies]
b3_utils = { version = "=0.13.1", features = ["ledger"] }
candid = "=0.10.10"
ciborium = "=0.2.2"
ic-cdk = "=0.16.1"
ic-cdk-macros = "=0.16.0"
ic-stable-structures = "=0.6.9"
icrc-ledger-types = "*"
serde = { version = "=1.0.229", features = ["derive"] }
serde_bytes = "=0.11.19"
serde_derive = "=1.0.229"

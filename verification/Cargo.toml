[package]
name = "warp_route_ids"
version = "0.1.0"
edition = "2021"
publish = false

[dependencies]
sha2 = "=0.11.0"
bech32 = "=0.12.0"
serde = "=1.0.229"
borsh = "=1.8.1"
clap = { version = "=4.6.7", features = ["derive"] }
hex = "=0.4.3"

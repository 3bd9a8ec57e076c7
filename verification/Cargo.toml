[package]
name = "agentsight_analysis"
version = "0.1.0"
edition = "2021"
publish = false

[dependencies]
async-trait = "0.1"
flate2 = "1"
futures = "0.3"
hex = "0.4"
hpack = "0.3"
serde = { version = "1", features = ["derive"] }
serde_json = "1"

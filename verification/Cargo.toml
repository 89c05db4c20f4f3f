[package]
name = "rdf4rust"
version = "0.1.0"
edition = "2021"
publish = false

[dependencies]
uuid = { version = "0.8", features = ["v4", "v5"] }
base64 = "0.13"

[package]
name = "monash_to_ics"
version = "0.1.0"
edition = "2021"
publish = false

[dependencies]
chrono = { version = "0.4", default-features = false, features = ["clock", "std"] }
calamine = "0.18"
clap = "2"
ics = "0.5"
uuid = { version = "0.8", features = ["v4"] }

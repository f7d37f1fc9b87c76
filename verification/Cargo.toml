[package]
name = "petronel"
version = "0.1.0"
edition = "2021"
publish = false

[dependencies]
futures = "0.1"
chrono = "0.4"
regex = "1"
serde = "1"
serde_derive = "1"

[package]
name = "chronographer"
version = "0.1.0"
edition = "2021"
publish = false

[dependencies]
time = "0.3"
async-trait = "0.1"
dashmap = "6"

[dev-dependencies]
chrono = "0.4"

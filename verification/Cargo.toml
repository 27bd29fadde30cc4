[package]
name = "skills"
version = "0.1.0"
edition = "2021"
publish = false

[dependencies]
anyhow = "*"
futures = "*"
log = "*"
serde = "*"
serde_yaml = "*"

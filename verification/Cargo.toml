[package]
name = "text_redaction"
version = "0.1.0"
edition = "2021"
publish = false

[dependencies]
regex = "1"
serde_json = "1"
serde = "1"
serde_derive = "1"
anyhow = "1"

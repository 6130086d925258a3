[package]
name = "prefix_dictionary"
version = "0.1.0"
edition = "2021"
publish = false

[dependencies]
anyhow = "1"
byteorder = "1"
daachorse = "*"
rkyv = "0.8"
serde = { version = "1", features = ["derive"] }

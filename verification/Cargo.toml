[package]
name = "httpmock_core"
version = "0.1.0"
edition = "2021"
publish = false

[dependencies]
basic-cookies = "*"
difference = "*"
levenshtein = "*"
regex = "*"
serde = { version = "*", features = ["derive"] }
serde_json = "*"

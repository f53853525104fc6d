[package]
name = "eml_analyzer"
version = "0.1.0"
edition = "2021"
publish = false

[dependencies]
base64 = "0.22"
hex = "0.4"
mailparse = "0.16"
md-5 = "0.10"
regex = "1"
zip = { version = "2", default-features = false, features = ["deflate"] }
serde_json = "1"

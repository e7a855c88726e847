[package]
name = "mia"
version = "0.1.0"
edition = "2021"
publish = false

[dependencies]
serde = { version = "*", features = ["derive"] }
serde_json = "*"
uuid = { version = "*", features = ["v4"] }
rand = "*"
scraper = "*"
encoding_rs = "*"
reqwest = { version = "*", default-features = false, features = ["blocking"] }
llama-cpp-2 = "*"
pdf-extract = "*"
dotext = "*"

[package]
name = "tds"
version = "0.1.0"
edition = "2021"
publish = false

[dependencies]
byteorder = "1"
clap = { version = "4", features = ["derive"] }
form_urlencoded = "1"
hex = "0.4"
rand = "0.9"
reqwest = { version = "0.12", default-features = false, features = ["blocking"] }
sha1 = "0.10"
tokio = { version = "1", features = ["full"] }
url = "2"

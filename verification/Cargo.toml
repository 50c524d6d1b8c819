[package]
name = "what_web"
version = "0.1.0"
edition = "2021"
publish = false

[dependencies]
anyhow = "*"
base64 = "*"
encoding_rs = "*"
md-5 = "*"
mime = "*"
regex = "*"
reqwest = { version = "*", default-features = false, features = ["blocking", "rustls-tls"] }
select = "*"
url = "*"

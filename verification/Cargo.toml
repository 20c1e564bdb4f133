[package]
name = "dhl"
version = "0.1.0"
edition = "2021"
publish = false

[dependencies]
handlebars = "*"
libflate = "*"
reqwest = { version = "*", default-features = false, features = ["blocking"] }
rustc_version = "*"
serde = "*"
serde_derive = "*"
tar = "*"
toml = "*"

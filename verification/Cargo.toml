[package]
name = "cbindgen"
version = "0.1.0"
edition = "2021"
publish = false

[dependencies]
clap = "*"
log = "*"
syn = { version = "*", features = ["full"] }
toml = "*"

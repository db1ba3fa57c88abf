[package]
name = "log_highlight"
version = "0.1.0"
edition = "2021"
publish = false

[dependencies]
pcre2 = "*"
toml = "*"
regex = "*"

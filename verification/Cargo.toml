[package]
name = "difficient"
version = "0.1.0"
edition = "2021"
publish = false

[dependencies]
uuid = "1"
darling = "0.20"
proc-macro2 = "1"
quote = "1"
syn = { version = "2", features = ["extra-traits"] }

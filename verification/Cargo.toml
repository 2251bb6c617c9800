[package]
name = "form"
version = "0.1.0"
edition = "2021"
publish = false

[dependencies]
anyhow = "1"
getopts = "0.2"
prettyplease = "0.2"
proc-macro2 = "1"
quote = "1"
syn = { version = "2", features = ["full", "extra-traits"] }

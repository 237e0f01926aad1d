[package]
name = "prql_parser"
version = "0.10.0"
edition = "2021"
publish = false

[dependencies]

[dev-dependencies]
chumsky = { version = "0.9", default-features = false, features = ["std"] }

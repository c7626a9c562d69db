[package]
name = "raptor_domain"
version = "0.1.0"
edition = "2021"
publish = false

[dependencies]
rust_decimal = { version = "1", default-features = false, features = ["std"] }
chrono = { version = "0.4", default-features = false, features = ["std"] }

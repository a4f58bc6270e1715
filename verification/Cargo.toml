[package]
name = "condition_report"
version = "0.1.0"
edition = "2021"
publish = false

[dependencies]
calamine = { version = "=0.36.1", features = ["dates"] }
chrono = "=0.4.45"
rust_xlsxwriter = "=0.99.1"
